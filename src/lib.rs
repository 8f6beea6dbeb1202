//! Tearing down installed packages and assembling lock files.

pub mod pool;
pub mod lock_data;
pub mod environment;
pub mod builder;
pub mod lock_file;
pub mod path;
pub mod unlink;
