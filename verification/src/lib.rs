//! Core of an embedded, transactional key-value storage engine organized
//! around a log-structured merge tree: the immutable segment format with its
//! sparse block index, the snapshot / transaction machinery, and the atomic
//! read-modify-write operations on partitions.

pub mod block;
pub mod codec;
pub mod compression;
pub mod crc;
pub mod error;
pub mod name;
pub mod order;
pub mod segment;
pub mod snapshot;
pub mod store;
pub mod tx;
pub mod value;

use vstd::prelude::*;

verus! {

} // verus!
