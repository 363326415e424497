//! Buffers, streams and byte helpers shared by every protocol.

pub mod buffer_mode;
pub mod bytes;
pub mod filled_buffer;
pub mod lease;
pub mod partitioned_filled_buffer;
pub mod read_until;
pub mod rng;
pub mod stream;

pub use buffer_mode::BufferMode;
pub use filled_buffer::FilledBuffer;
pub use lease::{Lease, LeaseMut};
pub use partitioned_filled_buffer::PartitionedFilledBuffer;
pub use rng::{Rng, Xorshift64};
pub use stream::{BytesStream, Stream};
