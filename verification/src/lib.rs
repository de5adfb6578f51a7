pub mod cli;
pub mod codec;
pub mod events;
pub mod hook_config;
pub mod hooks;
pub mod install;
pub mod json;
pub mod menu;
pub mod proc_scan;
pub mod protocol;
pub mod runtime_dir;
pub mod session;
pub mod text;
pub mod tombstone;
pub mod transcript;
pub mod transport;
pub mod version;
pub mod web;
pub mod writer_queue;
