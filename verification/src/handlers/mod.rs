//! What the requests of clients lead to.

pub mod popup_grab;
pub mod xdg_shell;
