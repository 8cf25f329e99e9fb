//! Packaging of backup content into archives.

pub mod archive;
pub mod order;
pub mod tree;
