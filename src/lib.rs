//! Verified core of a C-ABI bridge between a single-threaded caller and an
//! asynchronous native client: a pool of reusable byte buffers handed across
//! the boundary, a per-thread last-error slot, a poll-based completion bridge
//! over a one-shot channel, and the header normalisation used when a client's
//! metadata is replaced.

pub mod byte_array;
pub mod error;
pub mod handles;
pub mod metadata;
pub mod pending;

pub use byte_array::{BufferPool, ByteArray, MAX_BUFFER_CAPACITY, MAX_POOL_SIZE};
pub use error::{set_error, take_error, ErrorSlot};
pub use pending::{PendingResult, PendingState, RecvOutcome};
pub use metadata::{extract_bearer_token, normalize_metadata_headers, MetadataError};
pub use handles::{consume_result, poll_status, POLL_PENDING, POLL_READY_ERR, POLL_READY_OK};
