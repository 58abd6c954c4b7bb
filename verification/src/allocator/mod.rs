//! The kernel heap allocator.
pub mod list;
