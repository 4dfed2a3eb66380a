//! The reader screen's decisions: its state, and what each key does to it.
pub mod state;
pub mod events;
pub mod home;
