//! The activity modules' own state machines.
pub mod cargo;
pub mod weblog;
pub mod download;
