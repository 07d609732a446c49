use vstd::prelude::*;

verus! {

/// Maximum number of processes.
pub const NPROC: usize = 64;

/// Maximum number of harts.
pub const NCPU: usize = 8;

/// Open files per process.
pub const NOFILE: usize = 16;

/// Open files per system.
pub const NFILE: usize = 100;

/// Maximum number of active inodes.
pub const NINODE: usize = 50;

/// Maximum major device number.
pub const NDEV: usize = 10;

} // verus!
