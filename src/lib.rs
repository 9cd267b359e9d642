//! froggr: a Plan 9 style namespace overlay.
//!
//! Directories are composed into one virtual tree by ordered bind
//! operations; the tree is kept in an inode table that a user-space
//! filesystem bridge serves.
pub mod attr;
pub mod constants;
pub mod namespace;
pub mod table;
pub mod proto;
pub mod mount;
pub mod session;
pub mod frame;
pub mod daemon;
pub mod laws;

pub use mount::FilesystemManager;
pub use namespace::BindMode;
pub use proto::NineP;
