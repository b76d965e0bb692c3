//! A WebSocket ([RFC 6455]) implementation that turns a connection into a fast byte duplex, carried
//! in binary messages.
//!
//! The crate starts where the HTTP upgrade ends: [`WebSocketIO`] stands for a connection that has
//! already switched protocols. It decides everything and touches no IO: its `poll_*` methods end
//! with a result, or name an operation that the caller performs on the IO and reports the outcome
//! of. What it decides is stated in contracts and proved.
//!
//! * [`frame`] is the header codec, [`mask`] the masking kernels and the source of client keys,
//!   [`utf8`] text and its validation as it arrives.
//! * [`recv`] decodes the incoming stream. [`recv::log`] says what a stream means, however it
//!   arrives, and proves that what the peer sent is what is received, [`recv::refused`] what is
//!   refused.
//! * [`send`] encodes outgoing frames and buffers them.
//! * [`ws`] is the connection: sending in [`ws::transmit`], receiving in [`ws::receive`],
//!   [`ws::deliver`] and [`ws::read`].
//! * [`ws::operation`] lists everything that can be done with a connection. [`ws::kept`],
//!   [`ws::outgoing`] and [`ws::incoming`] state what each operation keeps, sends and receives,
//!   [`ws::laws`] what holds of a connection as a whole, and [`ws::duplex`] that what one side
//!   writes is what the other side reads.
//! * What each call comes to is stated in terms of the streams: [`ws::events`], [`ws::received`] and
//!   [`ws::reads`] relate what is reported, and what is answered, to what has been received, and
//!   [`ws::sent`] what the other side receives to what a call reports as sent.
//!
//! # Performance
//!
//! * Binary payloads are streamed, never assembled into messages.
//! * Incoming data is unmasked while being copied into the caller's buffer, or read straight into
//!   it when a large frame is in flight.
//! * Outgoing data is masked while being copied into the write buffer (clients), or written
//!   straight from the caller's buffer with vectored writes (servers, large writes).
//! * Buffers are held only while data is in flight: an idle connection holds no buffer memory.
//!
//! Extensions (e.g. permessage-deflate) are not supported, frames with RSV bits set fail the
//! connection.
//!
//! [RFC 6455]: https://www.rfc-editor.org/rfc/rfc6455

pub mod buffer;
pub mod close;
pub mod config;
pub mod error;
pub mod frame;
pub mod mask;
pub mod recv;
pub mod send;
pub mod utf8;
pub mod ws;

pub use close::{CloseCode, CloseFrame};
pub use config::{Config, Role};
pub use error::{ErrorKind, ProtocolError, WebSocketError};
pub use recv::Recv;
pub use send::Outcome;
pub use utf8::Utf8Bytes;
pub use ws::WebSocketIO;
