//! File attributes as the inode table stores them.
//!
//! Timestamps are whole seconds since the Unix epoch.
use vstd::prelude::*;

use crate::constants::{BLOCK_SIZE, DEFAULT_GID, DEFAULT_PERMISSION, DEFAULT_UID, ROOT_INODE};

verus! {

/// Kind of an entry: a directory or a regular file.
#[derive(Debug, Clone, Copy, PartialEq, Eq, Structural)]
pub enum FileKind {
    /// A directory; it carries no content.
    Directory,
    /// A regular file; its content is loaded eagerly.
    RegularFile,
}

/// Attributes of one entry of the inode table.
#[derive(Debug, Clone, Copy, PartialEq, Eq, Structural)]
pub struct FileAttr {
    /// Identity of the entry.
    pub ino: u64,
    /// Size in bytes.
    pub size: u64,
    /// Number of blocks of `BLOCK_SIZE` bytes the entry occupies.
    pub blocks: u64,
    /// Last access time.
    pub atime: u64,
    /// Last modification time.
    pub mtime: u64,
    /// Last change time.
    pub ctime: u64,
    /// Creation time.
    pub crtime: u64,
    /// Directory or regular file.
    pub kind: FileKind,
    /// Permission bits.
    pub perm: u16,
    /// Number of hard links.
    pub nlink: u32,
    /// Owner.
    pub uid: u32,
    /// Group.
    pub gid: u32,
    /// Device number.
    pub rdev: u32,
    /// Flags.
    pub flags: u32,
    /// Preferred block size.
    pub blksize: u32,
}

/// Number of whole or partial blocks needed for `size` bytes.
pub open spec fn blocks_for(size: u64) -> u64 {
    (size / BLOCK_SIZE + if size % BLOCK_SIZE == 0 { 0u64 } else { 1u64 }) as u64
}

/// The attributes of the namespace root.
pub open spec fn root_attr() -> FileAttr {
    FileAttr {
        ino: ROOT_INODE,
        size: 0,
        blocks: 0,
        atime: 0,
        mtime: 0,
        ctime: 0,
        crtime: 0,
        kind: FileKind::Directory,
        perm: DEFAULT_PERMISSION,
        nlink: 2,
        uid: DEFAULT_UID,
        gid: DEFAULT_GID,
        rdev: 0,
        flags: 0,
        blksize: 512,
    }
}

/// The attributes of a materialized entry with identity `ino`.
pub open spec fn entry_attr(ino: u64, is_dir: bool, size: u64, atime: u64, mtime: u64, perm: u16) -> FileAttr {
    FileAttr {
        ino,
        size,
        blocks: blocks_for(size),
        atime,
        mtime,
        ctime: 0,
        crtime: 0,
        kind: if is_dir { FileKind::Directory } else { FileKind::RegularFile },
        perm,
        nlink: 1,
        uid: DEFAULT_UID,
        gid: DEFAULT_GID,
        rdev: 0,
        flags: 0,
        blksize: 512,
    }
}

/// Builds the attributes of the namespace root.
pub fn create_root_attr() -> (r: FileAttr)
    ensures
        r == root_attr(),
{
    FileAttr {
        ino: ROOT_INODE,
        size: 0,
        blocks: 0,
        atime: 0,
        mtime: 0,
        ctime: 0,
        crtime: 0,
        kind: FileKind::Directory,
        perm: DEFAULT_PERMISSION,
        nlink: 2,
        uid: DEFAULT_UID,
        gid: DEFAULT_GID,
        rdev: 0,
        flags: 0,
        blksize: 512,
    }
}

/// Builds the attributes of a materialized entry from what was read of it.
pub fn create_file_attr(ino: u64, is_dir: bool, size: u64, atime: u64, mtime: u64, perm: u16) -> (r: FileAttr)
    ensures
        r == entry_attr(ino, is_dir, size, atime, mtime, perm),
{
    let blocks: u64 = size / BLOCK_SIZE + if size % BLOCK_SIZE == 0 { 0 } else { 1 };
    FileAttr {
        ino,
        size,
        blocks,
        atime,
        mtime,
        ctime: 0,
        crtime: 0,
        kind: if is_dir { FileKind::Directory } else { FileKind::RegularFile },
        perm,
        nlink: 1,
        uid: DEFAULT_UID,
        gid: DEFAULT_GID,
        rdev: 0,
        flags: 0,
        blksize: 512,
    }
}

} // verus!
