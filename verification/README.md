# betree

Building blocks of a copy-on-write storage engine, verified with Verus.

- `src/bounded_locked_dashmap_future_queue.rs`,
  `src/bounded_unshared_index_future_queue.rs`: bounded queues of pending
  writes. An operation on a queue runs in turns; a spec function says what each
  turn does, and laws say what holds across turns.
- `src/storage_pool.rs`: a pool of tiered block devices on top of a queue.
- `src/failing_leaf_vdev.rs`, `src/persistence.rs`: a device in memory that can
  be told to fail, and a test that devices keep what is written to them.
- `src/segmented_slice.rs`: a slice made of several parts.
- `src/dash_map.rs`, `src/index_map.rs`, `src/xorshift.rs`, `src/shrink.rs`:
  what is believed of the crates `dashmap`, `indexmap`, `rand_xorshift` and
  `quickcheck`.
- `app/`: locks, futures and a runtime that drive the library.

Keys are triples of a storage class, a disk and a block; a future is known to
the queues by a number.
