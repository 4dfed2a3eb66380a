//! A terminal novel reader: pagination, reading progress, highlight
//! annotations and the cover-mode terminal emulator, with their contracts.
pub mod utf8_text;
pub mod metadata;
pub mod session;
pub mod library;
pub mod page_layout;
pub mod text_source;
pub mod page_index;
pub mod cover;
pub mod highlight;
pub mod path_text;
pub mod tui;
pub mod timestamp;
