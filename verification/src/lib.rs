//! Verified core of a terminal file browser: directory listings, the
//! navigation state machine, file-preview construction, and the pure
//! projection of that state onto a two-pane screen layout.

pub mod hl;
pub mod listing;
pub mod nav;
pub mod preview;
pub mod render;
