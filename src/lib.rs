//! Playback engine of a terminal speed reader: chunk sizing, the reading
//! session's state machine, menus, text splitting and the merge of saved
//! progress.

pub mod extract;
pub mod history;
pub mod menu;
pub mod session;
pub mod sizer;
pub mod store;
pub mod text;
