//! Zero-copy inter-process communication: the verified core.
//!
//! Slot bookkeeping (bitsets, index free lists, slot containers), bounded
//! FIFO queues, pointer-offset encoding, data segment layout and allocation,
//! channel state, and the naming rules of shared memory and node files, each
//! stated over a mathematical model.

pub mod atomic_bitset;
pub mod bits;
pub mod channel;
pub mod contracts;
pub mod data_segment;
pub mod derive_check;
pub mod error;
pub mod event;
pub mod free_list;
pub mod index_set;
pub mod mock;
pub mod mpmc_container;
pub mod node_names;
pub mod pointer_offset;
pub mod pool_alloc;
pub mod relocatable;
pub mod segment_mgr;
pub mod shm;
pub mod signal;
pub mod spsc_queue;
pub mod text;
pub mod transport_mock;

pub use atomic_bitset::AtomicBitSet;
pub use channel::ZeroCopyChannel;
pub use contracts::{ChannelState, LoanError, NodeId, ReceiveError, SendError};
pub use data_segment::DataSegment;
pub use error::PlatformError;
pub use index_set::{AcquireError, UniqueIndexSet};
pub use mpmc_container::MpmcContainer;
pub use pointer_offset::PointerOffset;
pub use pool_alloc::PoolAllocator;
pub use relocatable::RelocatablePtr;
pub use segment_mgr::SegmentManager;
pub use shm::SharedMemory;
pub use spsc_queue::SpscQueue;
