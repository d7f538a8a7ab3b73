//! Clipboard history kept as plain files in a synced folder: the part that
//! decides, with the file system, the database and the windows left outside.

pub mod apart;
pub mod autostart;
pub mod cleanup_window;
pub mod clip;
pub mod clipboard;
pub mod controls;
pub mod deletion;
pub mod dib;
pub mod effects;
pub mod filter;
pub mod hotkey;
pub mod index;
pub mod item;
pub mod laws;
pub mod log;
pub mod menu;
pub mod messages;
pub mod paths;
pub mod popup;
pub mod popup_layout;
pub mod ranking;
pub mod readback;
pub mod search;
pub mod seen;
pub mod session;
pub mod settings;
pub mod settings_window;
pub mod stems;
pub mod store;
pub mod text;
pub mod tray;
pub mod utf16;
pub mod win;
