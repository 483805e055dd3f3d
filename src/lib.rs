//! A content-addressable disk cache with a hash-sharded, self-checksummed
//! key index. The modules here hold the cache's verified logic: the on-disk
//! layout, the integrity tokens, the index record format and its
//! last-write-wins reading, and the decisions taken by writers and readers.
//! Performing the file system operations is left to the caller.

mod digests;

pub mod async_lib;
pub mod async_write;
pub mod errors;
pub mod get;
pub mod index;
pub mod integrity;
pub mod layout;
pub mod put;
pub mod record;
pub mod rm;

pub use errors::{Error, IoErrorExt, io_error};
pub use get::SyncReader;
pub use index::{Metadata, RemoveOpts};
pub use integrity::{Algorithm, Integrity};
pub use put::WriteOpts;
