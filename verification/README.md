# glazewm

Layout, input and configuration logic of a tiling window manager in the style
of Hyprland, written in Verus.

- `src/` is the library. Every function in it states what it does, and is
  verified against that.
  - `forest` is the mathematical model of the layout tree, `tree` the tree
    itself, `focus` tells what is focused, and `visual_order` in which order
    windows are laid out.
  - `swap_containers`, `split_container`, `tiling_window_in_direction`,
    `dwindle_insertion`, `toggle_tiling_direction` and
    `swap_window_in_direction` are the commands on the layout.
  - `handle_mouse_move` reacts to the mouse, with `drag_geometry`,
    `drag_moves` and `mouse_range`; `mouse_hook` tells apart what a low-level hook receives.
  - `hyprland_directives` takes directives such as
    `bind = SUPER, Q, killactive` out of a config, with `directive_line`,
    `bind_separators`, `dispatchers`, `keysyms`, `keys` and `text`.
- `tests/` runs the library.
- `app/` connects the library to the platform: hooks, native windows, and
  whatever is computed in floating point.

Proof functions named `law_...` state what holds across functions, such as
that swapping two containers twice restores the tree.
