# entangle

Zero-copy inter-process communication. Payloads are written once into shared
memory; only 64-bit pointer offsets travel between processes.

- `src/` is the verified library (Verus). Each data structure has a model
  (`view`) and a well-formedness predicate; every public operation states its
  result and its effect on the model (`MpmcContainer::for_each` states that the
  closure's postcondition holds of every occupied slot and its value).
  - slot bookkeeping: `atomic_bitset`, `free_list`, `index_set`, `mpmc_container`
  - queues and channels: `spsc_queue`, `channel`, `mock`, `transport_mock`
  - memory layout: `pointer_offset`, `pool_alloc`, `data_segment`, `segment_mgr`,
    `relocatable`, `shm`
  - names and decisions: `node_names`, `text`, `derive_check`, `event`, `signal`,
    `error`, `contracts`
  - `bits`: bit-level facts and set-bit counting used by the bitset
- `app/` is the operating-system side: POSIX shared memory mappings, data
  segments over them, eventfd notification, file locks, process monitoring,
  signal handling, the `ZeroCopySafe` marker trait (an `unsafe` trait with
  impls for floats too) and its derive expansion.
- `tests/` exercise the library.

The library takes each structure by exclusive reference (`&mut self`): it
states what one operation does to the structure, not how concurrent
operations interleave.
