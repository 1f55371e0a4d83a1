//! Reading and editing the host blocks of an SSH client configuration file.
//!
//! The parser turns the file's lines into host records; the block editor writes one
//! record back over its block, appends it, or removes it, leaving every other line
//! as it was. The interface state and the tool's preferences live beside them.
pub mod text;
pub mod ssh_config;
pub mod laws;
pub mod config;
pub mod app_state;
pub mod connection;
