//! Layout, input and configuration logic of a tiling window manager.

pub mod app_command;
pub mod bind_separators;
pub mod container;
pub mod directive_line;
pub mod directive_shape;
pub mod dispatcher_names;
pub mod dispatchers;
pub mod drag_geometry;
pub mod drag_moves;
pub mod dwindle_insertion;
pub mod error;
pub mod extraction_order;
pub mod focus;
pub mod forest;
pub mod geometry;
pub mod handle_mouse_move;
pub mod hyprland_directives;
pub mod key_names;
pub mod keys;
pub mod keysyms;
mod lists;
pub mod mouse_effects;
pub mod mouse_event;
pub mod mouse_hook;
pub mod mouse_range;
pub mod nearest_window;
pub mod split_container;
pub mod swap_containers;
pub mod swap_window_in_direction;
pub mod text;
pub mod text_shape;
pub mod tiling_window_in_direction;
pub mod toggle_effects;
pub mod toggle_tiling_direction;
pub mod tree;
pub mod tree_effects;
pub mod user_config;
pub mod visual_order;
pub mod wm_state;
