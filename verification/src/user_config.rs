//! Settings that commands and events depend on.

use vstd::prelude::*;

verus! {

/// The user's settings.
#[derive(Clone, Copy, Debug, PartialEq, Eq, Structural)]
pub struct UserConfig {
    /// Whether moving the cursor onto a window focuses it.
    pub focus_follows_cursor: bool,
}

} // verus!
