//! The core of a media mount agent: the rules by which it mounts shares,
//! caches their contents, mirrors changes both ways and answers its clients.
use vstd::prelude::*;

pub mod agent;
pub mod cache_core;
pub mod cache_index;
pub mod config;
pub mod conflict;
pub mod connectivity;
pub mod credentials;
pub mod file_table;
pub mod fileops;
pub mod filter;
pub mod folder_table;
pub mod ipc;
pub mod macos_cache;
pub mod macos_watcher;
pub mod messages;
pub mod mount_service;
pub mod nas_health;
pub mod nfs;
pub mod notifications;
pub mod orchestrator;
pub mod path_map;
pub mod paths;
pub mod placeholders;
pub mod platform;
pub mod rclone;
pub mod reconcile;
pub mod state;
pub mod sync_root;
pub mod text;
pub mod tray;
pub mod winfsp;
pub mod write_through;

verus! {

} // verus!
