//! A small verified task-tracking core: todo records, a pluggable storage
//! contract with an in-memory backend, a validating service layer, and the
//! text codec used by the file-backed store.

mod clock;
pub mod codec;
pub mod decimal;
pub mod errors;
pub mod file_storage;
mod idgen;
pub mod memory_storage;
pub mod service;
pub mod storage;
pub mod todo;
