//! The connection: what is to be asked of the IO, and what comes of its answers.
use crate::buffer::MAX_BUFFER;
use crate::close::{CloseFrame, CloseModel};
use crate::config::{Config, ConfigModel, Role};
use crate::error::WebSocketError;
use crate::frame::{OpCode, MAX_CONTROL_PAYLOAD, MAX_HEADER_LEN};
use crate::mask::MaskKeys;
use crate::recv::{Decoder, DecoderModel, Rules};
use crate::send::{Keys, KeysModel, SendModel, SendState, MAX_CONTROL_FRAME};
use bytes::BytesMut;
use vstd::prelude::*;

pub mod deliver;
pub mod duplex;
pub mod events;
pub mod incoming;
pub mod kept;
pub mod laws;
pub mod operation;
pub mod outgoing;
pub mod read;
pub mod reads;
pub mod receive;
pub mod received;
pub mod sent;
pub mod transmit;

verus! {

/// A WebSocket connection working as a byte duplex.
///
/// Created for a connection that has already completed the HTTP upgrade (the opening handshake is
/// out of scope of this crate).
///
/// The connection does not touch the IO. Its methods tell what to do next: they end with a result,
/// or name an operation (a read, a write, a flush, a shutdown) that the caller performs and reports
/// the outcome of.
///
/// # Data
///
/// Outgoing data is sent in binary messages, one frame each. Incoming binary messages are treated
/// as one continuous byte stream, delivered as soon as the bytes arrive, without waiting for
/// complete frames or messages.
///
/// # Control frames
///
/// Pings are answered from the receiving methods, as are the peer's Close frames. The replies go
/// out without waiting for a flush from the sending side, but reading never waits for a blocked
/// write. Keep receiving to keep the connection responsive.
///
/// # Buffering
///
/// Small writes are buffered until flushed. Call [`poll_flush`](Self::poll_flush) when the data
/// should go out.
pub struct WebSocketIO {
    role: Role,
    config: Config,
    decoder: Decoder,
    /// The peer's Close frame, once received. `Some(None)` also for a close without a status code,
    /// and for EOF between two frames after our Close frame.
    close_received: Option<Option<CloseFrame>>,
    /// Whether the IO has been shut down after the close handshake.
    shutdown_done: bool,
    failed: bool,
    /// Error to report on the next call, deferred because data was handed out first.
    pending_error: Option<WebSocketError>,
    send: SendState,
}

/// A connection, as a mathematical value.
#[verifier::ext_equal]
pub struct ConnModel {
    /// Our side of the connection.
    pub role: Role,
    /// The configuration.
    pub config: ConfigModel,
    /// The incoming bytes and what is known of them.
    pub decoder: DecoderModel,
    /// The peer's Close frame, once received, or [`None`] inside for one without a status code and
    /// for the end of the stream, between two frames, after our Close frame.
    pub close_received: Option<Option<CloseModel>>,
    /// Whether the IO has been shut down after the close handshake.
    pub shutdown_done: bool,
    /// Whether the connection has failed.
    pub failed: bool,
    /// Error to report on the next call.
    pub pending_error: Option<WebSocketError>,
    /// The outgoing side.
    pub send: SendModel,
}

impl View for WebSocketIO {
    type V = ConnModel;

    closed spec fn view(&self) -> ConnModel {
        ConnModel {
            role: self.role,
            config: self.config@,
            decoder: self.decoder@,
            close_received: match self.close_received {
                Some(frame) => Some(crate::close::close_model(frame)),
                None => None,
            },
            shutdown_done: self.shutdown_done,
            failed: self.failed,
            pending_error: self.pending_error,
            send: self.send@,
        }
    }
}

impl ConnModel {
    /// Frames are masked as our role demands, the peer's Close frame is replied to unless that is
    /// left to the local side, and the IO is shut down only after both Close frames.
    pub open spec fn wf(self) -> bool {
        &&& self.config.valid()
        &&& self.send.wf()
        &&& self.send.write_buffer_size == self.config.write_buffer_size
        &&& match self.role {
            Role::Server => self.send.keys is Unmasked,
            Role::Client => if self.config.zero_mask_key {
                self.send.keys is Zero
            } else {
                self.send.keys is Random
            },
        }
        &&& !self.failed ==> self.decoder.wf()
        &&& self.close_received is Some && !self.config.defer_close_reply ==> self.send.close_sent
        &&& self.shutdown_done ==> self.close_received is Some && self.send.close_sent
    }

    /// Whether the buffers have room for what a call may add to them. Buffers that have not are
    /// larger than any memory.
    pub open spec fn roomy(self) -> bool {
        &&& self.send.fits(2 * MAX_CONTROL_FRAME)
        &&& self.decoder.buf.len() + self.decoder.text.len() <= crate::buffer::MAX_BUFFER
    }

    /// What the connection demands of incoming frames.
    pub open spec fn rules(self) -> Rules {
        Rules {
            role: self.role,
            accept_unmasked_frames: self.config.accept_unmasked_frames,
            max_message_size: self.config.max_message_size,
        }
    }

    /// A connection that has just completed the HTTP upgrade, and read `buf` past its end.
    pub open spec fn start(role: Role, config: ConfigModel, buf: Seq<u8>) -> ConnModel {
        ConnModel {
            role,
            config,
            decoder: DecoderModel::start(buf),
            close_received: None,
            shutdown_done: false,
            failed: false,
            pending_error: None,
            send: SendModel {
                buf: Seq::empty(),
                keys: KeysModel::start(role, config.zero_mask_key),
                pong: None,
                close_sent: false,
                control_pending: false,
                write_buffer_size: config.write_buffer_size as nat,
            },
        }
    }
}

impl WebSocketIO {
    /// The parts of the connection fit together.
    pub closed spec fn wf(self) -> bool {
        &&& self@.wf()
        &&& !self.failed ==> self.decoder.wf()
    }

    /// What holds of a connection holds of its model.
    pub proof fn lemma_wf(&self)
        requires
            self.wf(),
        ensures
            self@.wf(),
    {
    }

    /// Wraps a connection that has just completed the HTTP upgrade.
    pub fn new(role: Role, config: Config) -> (ws: WebSocketIO)
        ensures
            ws.wf(),
            ws@.wf(),
            ws@.roomy(),
            ws@ == ConnModel::start(role, config@, Seq::empty()),
    {
        Self::with_read_buf(role, config, BytesMut::new())
    }

    /// Like [`WebSocketIO::new`], for when the HTTP layer has read past the end of the upgrade
    /// response. `read_buf` holds those bytes, it is used as the initial read buffer.
    pub fn with_read_buf(role: Role, config: Config, read_buf: BytesMut) -> (ws: WebSocketIO)
        ensures
            ws.wf(),
            ws@.wf(),
            ws@ == ConnModel::start(role, config@, crate::buffer::contents_of(read_buf)),
    {
        proof {
            use_type_invariant(&config);
            config.lemma_options();
        }
        let keys: Keys = match role {
            Role::Server => Keys::Unmasked,
            Role::Client => if config.zero_mask_key {
                Keys::Zero
            } else {
                Keys::Random(MaskKeys::new())
            },
        };
        WebSocketIO {
            role,
            config,
            decoder: Decoder::new(read_buf),
            close_received: None,
            shutdown_done: false,
            failed: false,
            pending_error: None,
            send: SendState::new(keys, config.write_buffer_size),
        }
    }

    /// Our side of the connection.
    pub fn role(&self) -> (role: Role)
        ensures
            role == self@.role,
    {
        self.role
    }

    /// The configuration.
    pub fn config(&self) -> (config: &Config)
        ensures
            config@ == self@.config,
    {
        &self.config
    }

    /// Encoded frames waiting for the IO.
    pub fn buffered(&self) -> (buf: &[u8])
        ensures
            buf@ == self@.send.buf,
    {
        self.send.buffered()
    }

    /// How many bytes to ask the IO for in a read.
    pub fn read_size(&self) -> (n: usize)
        ensures
            n == self@.config.read_buffer_size,
    {
        proof {
            self.config.lemma_options();
        }
        self.config.read_buffer_size
    }

    /// Whether the buffers have room for what a call may add to them.
    pub fn is_roomy(&self) -> (r: bool)
        ensures
            r == self@.roomy(),
    {
        self.send.fits(2 * MAX_CONTROL_FRAME) && self.decoder.fits(0)
    }

    /// Whether the read buffer has room for `len` more bytes.
    pub fn fits_read(&self, len: usize) -> (r: bool)
        ensures
            r == (self@.decoder.buf.len() + self@.decoder.text.len() + len <= MAX_BUFFER),
    {
        self.decoder.fits(len)
    }

    /// Whether the write buffer has room for what a write of `len` bytes may add to it.
    pub fn fits_write(&self, len: usize) -> (r: bool)
        ensures
            r == self@.fits_write(len as nat),
    {
        self.send.is_close_sent() || len == 0 || self.fits_frame(self.accepted_len(len))
    }

    /// Whether the write buffer has room for what sending a message with `len` bytes may add to it.
    pub fn fits_send(&self, opcode: OpCode, len: usize) -> (r: bool)
        ensures
            r == self@.fits_send(opcode, len as nat),
    {
        self.send.is_close_sent() || (opcode.is_control() && len > MAX_CONTROL_PAYLOAD)
            || self.fits_frame(len)
    }

    /// Whether the write buffer has room for a frame with `len` bytes of payload, besides a pong.
    fn fits_frame(&self, len: usize) -> (r: bool)
        ensures
            r == self@.send.fits(len + MAX_HEADER_LEN + MAX_CONTROL_FRAME),
    {
        len <= MAX_BUFFER && self.send.fits(len + MAX_HEADER_LEN + MAX_CONTROL_FRAME)
    }
}

} // verus!
