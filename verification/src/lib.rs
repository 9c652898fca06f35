//! DesktopDrawers: the verified core of a small utility that keeps compact,
//! persistent "drawers" of shortcuts on the desktop.
//!
//! The library holds the data model and grid placement, command-line and IPC
//! envelope handling, configuration layout and recovery decisions, file-name
//! and UTF-16 helpers, and window geometry. Windowing, COM, pipes and file I/O
//! live in the application crate around it.

pub mod command;
pub mod error;
pub mod ids;
pub mod ipc;
pub mod layout;
pub mod model;
pub mod order;
pub mod session;
pub mod settings;
pub mod shortcut;
pub mod storage;
pub mod win32;
pub mod text;

pub use error::Error;
