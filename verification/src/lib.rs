//! Verified core of `hoox`, which manages Git hooks declared in a `.hoox.conf`
//! file at the repository root.
//!
//! The library decides; the program around it reads files, talks to Git and
//! runs the commands.
pub mod args;
pub mod cache;
pub mod command_run;
pub mod config;
pub mod error;
pub mod hook_run;
pub mod hooks;
pub mod init;
pub mod matching;
pub mod reference;
pub mod report;
pub mod strmap;
pub mod text;
pub mod version;
