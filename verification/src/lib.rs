//! Management of local virtual-machine instances driven by a declarative
//! configuration: merging layered option lists into a conflict-free argument
//! set for the hypervisor, rebuilding the state of running instances from the
//! operating-system process table, and allocating host ports by linear
//! probing.
//!
//! Everything here is pure computation: reading files, probing ports,
//! spawning processes and sending signals are left to the caller, which hands
//! the results in as plain values (and, for port probing, as a closure).

pub mod commands;
pub mod config;
pub mod images;
pub mod output;
pub mod ports;
pub mod runner;
pub mod scan;
pub mod text;

use vstd::prelude::*;

verus! {

/// Default directory holding the disk images, used when the configuration
/// does not name one.
pub const IMAGES_DIRECTORY: &'static str = "~/.vm-manager/disk-images";

/// Default host port forwarded to the guest's SSH port.
pub const DEFAULT_SSH_PORT: usize = 5555;

/// Default host port forwarded to the guest's HTTPS port.
pub const DEFAULT_HTTPS_PORT: usize = 8081;

} // verus!
