//! Constant values shared by the filesystem components.
use vstd::prelude::*;

verus! {

/// Size of filesystem blocks.
pub const BLOCK_SIZE: u64 = 512;

/// Default permission mode for the root directory.
pub const DEFAULT_PERMISSION: u16 = 0o755;

/// Identity of the namespace root.
pub const ROOT_INODE: u64 = 1;

/// First identity handed out to a materialized entry.
pub const INITIAL_INODE: u64 = 2;

/// Default owner of every entry.
pub const DEFAULT_UID: u32 = 501;

/// Default group of every entry.
pub const DEFAULT_GID: u32 = 20;

/// Mask applied to the permission bits of a read-only overlay.
pub const READ_ONLY_MASK: u16 = 0o555;

} // verus!
