//! Building blocks of a copy-on-write storage engine: bounded queues of
//! pending writes, a pool of tiered block devices, a device that can be told
//! to fail, and slices made of several parts.

pub mod block;
pub mod bounded_locked_dashmap_future_queue;
pub mod bounded_unshared_index_future_queue;
pub mod dash_map;
pub mod failing_leaf_vdev;
pub mod index_map;
pub mod persistence;
pub mod segmented_slice;
pub mod shrink;
pub mod step;
pub mod storage_pool;
pub mod vdev;
pub mod xorshift;
