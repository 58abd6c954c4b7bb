//! The read-only file system on the initial ramdisk.
pub mod archive_check;
pub mod tarfs;
