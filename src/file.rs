//! Open files and in-memory inodes, as far as the process table refers to
//! them.
use vstd::prelude::*;

verus! {

/// The console's major device number.
pub const CONSOLE: usize = 1;

/// What an open file refers to.
#[derive(Clone, Copy, Debug, PartialEq, Eq, Structural)]
pub enum FileType {
    Closed,
    Pipe,
    Inode,
    Device,
}

/// An open file.
pub struct File {
    pub kind: FileType,
}

/// In-memory copy of an inode.
pub struct Inode {
    /// Device number.
    pub dev: usize,
    /// Inode number.
    pub inum: usize,
    /// Reference count.
    pub refcnt: usize,
}

} // verus!
