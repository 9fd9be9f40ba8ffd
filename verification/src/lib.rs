//! Message queues in memory that two processes share, without locks and without copies.
//!
//! A group of channels is created by one end and handed over to the other: a request describes
//! the group (`protocol`), the shared memory and the events of the channels go along with it, and
//! each end sets up its part (`group`). A channel has a queue with one producer and one consumer
//! (`queue`); a message is written in its slot and read there (`channel`).
//!
//! What each call does to the shared words is stated in `queue_spec`, and what holds while both
//! ends work at the same time in `queue_laws`; where everything is, in shared memory and in a
//! request, in `layout_laws`. The words can only be reached through `memory`. Nothing here asks
//! the system for anything: the caller maps the memory, makes and signals the events and sends the
//! messages.
pub mod attr;
pub mod bytes;
pub mod call_laws;
pub mod channel;
pub mod consistency;
mod consumer_steps;
pub mod content_laws;
pub mod error;
pub mod event_laws;
pub mod group;
pub mod group_laws;
pub mod handshake;
pub mod header;
pub mod host;
pub mod index;
pub mod interleaving;
pub mod layout_laws;
pub mod memory;
mod producer_steps;
pub mod protocol;
pub mod protocol_laws;
pub mod protocol_spec;
pub mod queue;
pub mod queue_laws;
pub mod queue_spec;
mod row;
pub mod shm;
pub mod whole_call_laws;

pub use crate::attr::{ChannelAttr, GroupAttr, QueueAttr};
pub use crate::channel::{Consumer, EventFlush, Producer, Pushed, Staged, TryPushStart};
pub use crate::error::{
    HeaderError, QueueError, RequestError, ResourceError, ShmMapError, TransferError,
};
pub use crate::group::{ChannelGroup, Role, SetupFault, Side};
pub use crate::handshake::{accept_response, answer_request};
pub use crate::host::{mem_align, ByteOrder, Host, NonZeroSize};
pub use crate::index::{index_size, Index};
pub use crate::protocol::{
    create_request, create_response, parse_request, parse_response, request_fits,
};
pub use crate::queue::{ConsumerQueue, ProducerQueue};
pub use crate::queue_spec::{ForcePushResult, PopResult, TryPushResult};
pub use crate::shm::{Chunk, SharedMemory, Span};
pub use nix::errno::Errno;
pub use nix::sys::eventfd::EventFd;
