//! Sidebar and thread-title logic of the Codex terminal UI.

pub mod text;
pub mod history;
pub mod layout;
pub mod modified_files;
pub mod sidebar;
pub mod sidebar_mode;
pub mod thread_title;
pub mod version;


