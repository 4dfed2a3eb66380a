//! Cover mode: a virtual terminal that replays activity frames.
pub mod op;
pub mod frame;
pub mod terminal;
pub mod registry;
pub mod engine;
pub mod module;
pub mod chance;
pub mod modules;
