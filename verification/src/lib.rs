//! Management of remote compute clusters and scheduler job presets.
//!
//! The crate keeps named records (clusters and job presets) in ordered,
//! persisted lists, drives a two-column selection menu over them, and
//! prepares everything a provisioning run needs: the scheduler submit
//! command, the jump-host block for the SSH client configuration, and
//! the editor invocation for the allocated node. Terminal rendering,
//! file access and the network sit outside; they hand plain values in
//! and take plain values back.

pub mod cluster;
pub mod counter;
pub mod entry;
pub mod menu;
pub mod names;
pub mod provision;
pub mod session;
pub mod spawner;
pub mod sshconfig;
pub mod store;
pub mod strutil;
pub mod toml_list;
