//! A boot manager core for single-board and handheld ARM devices: device
//! capability profiling, an ordered catalog of installed operating-system
//! payloads, a lifecycle manager (install, backup, restore, remove, update
//! with rollback), and a boot policy engine that decides between auto-boot,
//! an interactive menu, and a remote-management fallback.

pub mod catalog;
pub mod clock;
pub mod config;
pub mod device;
pub mod display;
pub mod input;
pub mod lifecycle;
pub mod network;
pub mod policy;
pub mod registry;
pub mod text;

use vstd::prelude::*;

verus! {

/// Convert a memory amount given in kilobytes to whole megabytes.
pub fn kb_to_mb(kb: u64) -> (mb: u64)
    ensures
        mb == kb / 1024,
{
    kb / 1024
}

} // verus!
