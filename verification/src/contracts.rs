//! Types shared by every layer: identifiers, quality-of-service settings,
//! the error pyramid, and the layout constants of shared memory.
use vstd::prelude::*;

pub use crate::pointer_offset::PointerOffset;

verus! {

/// Process / node identifier.
#[derive(Clone, Copy, Debug, PartialEq, Eq, Hash, Structural)]
pub struct NodeId(pub u128);

/// Service name: at most 255 bytes of ASCII letters, digits, `/`, `-`, `_` and `.`.
#[derive(Clone, Debug, PartialEq, Eq, Hash)]
pub struct ServiceName(String);

/// What to do when a subscriber is slower than its publisher.
#[derive(Clone, Copy, Debug, PartialEq, Eq, Structural)]
pub enum OverflowStrategy {
    /// Overwrite the oldest sample.
    Overwrite,
    /// Drop the new sample.
    DropNewest,
    /// Block the publisher.
    Block,
}

/// Publish-subscribe quality of service.
#[derive(Clone, Debug)]
pub struct PubSubQos {
    /// Number of past samples handed to a new subscriber.
    pub history_size: usize,
    /// Maximum number of publishers.
    pub max_publishers: usize,
    /// Maximum number of subscribers.
    pub max_subscribers: usize,
    /// Strategy when a subscriber falls behind.
    pub subscriber_overflow: OverflowStrategy,
    /// Maximum samples loaned per publisher.
    pub max_loaned_samples: usize,
    /// Channel buffer size (nonzero).
    pub buffer_size: usize,
}

/// Event quality of service.
#[derive(Clone, Copy, Debug)]
pub struct EventQos {
    pub max_notifiers: usize,
    pub max_listeners: usize,
}

/// Request-response quality of service.
#[derive(Clone, Copy, Debug)]
pub struct ReqResQos {
    pub max_clients: usize,
    pub max_servers: usize,
    pub max_pending_requests: usize,
}

/// Top-level error.
#[derive(Debug)]
pub enum IpcError {
    Service(ServiceError),
    Port(PortError),
    Platform(PlatformError),
}

/// Service-layer error.
#[derive(Debug)]
pub enum ServiceError {
    AlreadyExists { name: String },
    NotFound { name: String },
    IncompatibleQos { reason: String },
    Corrupted { reason: String },
    VersionMismatch { expected: u32, found: u32 },
}

/// Port-layer error.
#[derive(Debug)]
pub enum PortError {
    Loan(LoanError),
    Send(SendError),
    Receive(ReceiveError),
    ConnectionLost { peer_id: u128 },
}

/// Loan error.
#[derive(Debug, Clone, Copy, PartialEq, Eq, Structural)]
pub enum LoanError {
    /// Out of memory in the data segment.
    OutOfMemory,
    /// The maximum number of loaned samples is exceeded.
    ExceedsMaxLoans { max: usize },
}

/// Send error.
#[derive(Debug, Clone, Copy, PartialEq, Eq, Structural)]
pub enum SendError {
    /// The receiver no longer exists.
    ConnectionBroken,
    /// The receiver's queue is full.
    QueueFull,
}

/// Receive error.
#[derive(Debug, Clone, Copy, PartialEq, Eq, Structural)]
pub enum ReceiveError {
    /// No data available.
    Empty,
    /// The sender no longer exists.
    ConnectionBroken,
}

/// Platform error, as the shared contracts name it.
#[derive(Debug, Clone, PartialEq, Eq)]
pub enum PlatformError {
    SharedMemoryCreate { reason: String },
    SharedMemoryOpen { reason: String },
    FileLock { reason: String },
    Signal { reason: String },
}

/// Index allocation interface of the slot allocators.
pub trait IndexAllocator {
    fn acquire(&mut self) -> Result<u32, LoanError>;

    fn release(&mut self, index: u32);

    fn capacity(&self) -> u32;

    fn borrowed_count(&self) -> u32;
}

/// Global configuration.
#[derive(Clone, Debug)]
pub struct EntangleConfig {
    /// Root path of shared memory (default `/tmp/entangle/`).
    pub shm_root: String,
    /// Node name.
    pub node_name: Option<String>,
    /// Default publish-subscribe quality of service.
    pub default_pubsub_qos: PubSubQos,
    /// Default event quality of service.
    pub default_event_qos: EventQos,
}

/// Magic number of a shared memory segment: "ZCIP" and version 1.
pub const MAGIC_NUMBER: u64 = 0x5A43_4950_0001;

/// Messaging pattern of a service.
#[derive(Clone, Copy, Debug, PartialEq, Eq, Structural)]
pub enum PatternType {
    PubSub,
    Event,
    ReqRes,
    Blackboard,
}

impl PatternType {
    /// The code stored in shared memory for each pattern.
    pub open spec fn code_spec(self) -> u32 {
        match self {
            PatternType::PubSub => 1,
            PatternType::Event => 2,
            PatternType::ReqRes => 3,
            PatternType::Blackboard => 4,
        }
    }

    /// The code stored in shared memory for this pattern: 1 to 4.
    pub fn code(self) -> (r: u32)
        ensures
            r == self.code_spec(),
    {
        match self {
            PatternType::PubSub => 1,
            PatternType::Event => 2,
            PatternType::ReqRes => 3,
            PatternType::Blackboard => 4,
        }
    }
}

/// Channel state.
#[derive(Clone, Copy, Debug, PartialEq, Eq, Structural)]
pub enum ChannelState {
    Creating,
    Connected,
    Disconnected,
}

impl ChannelState {
    /// The code stored for each state.
    pub open spec fn code_spec(self) -> u8 {
        match self {
            ChannelState::Creating => 0,
            ChannelState::Connected => 1,
            ChannelState::Disconnected => 2,
        }
    }

    /// The state a stored code stands for; every code above 1 reads as disconnected.
    pub open spec fn from_code_spec(code: u8) -> ChannelState {
        if code == 0 {
            ChannelState::Creating
        } else if code == 1 {
            ChannelState::Connected
        } else {
            ChannelState::Disconnected
        }
    }

    /// The code stored for this state: 0, 1 or 2.
    pub fn code(self) -> (r: u8)
        ensures
            r == self.code_spec(),
            ChannelState::from_code_spec(r) == self,
    {
        match self {
            ChannelState::Creating => 0,
            ChannelState::Connected => 1,
            ChannelState::Disconnected => 2,
        }
    }

    /// The state a stored code stands for.
    pub fn from_code(code: u8) -> (r: ChannelState)
        ensures
            r == ChannelState::from_code_spec(code),
    {
        match code {
            0 => ChannelState::Creating,
            1 => ChannelState::Connected,
            _ => ChannelState::Disconnected,
        }
    }
}

} // verus!
