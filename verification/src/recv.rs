//! Incoming side: frame parsing, streaming binary payloads, control frame handling.
//!
//! Binary payloads are never assembled: bytes are handed to the caller as soon as they arrive,
//! unmasked on the way out of the read buffer. When a large payload is expected and the read
//! buffer is empty, the IO reads straight into the caller's buffer instead.
use crate::buffer::{append_masked, MAX_BUFFER};
use crate::close::{parse_payload, CloseFrame, CloseModel};
use crate::config::Role;
use crate::error::ProtocolError;
use crate::frame::{parse, Header, HeaderModel, OpCode};
use crate::mask::{apply_mask, copy_masked};
use crate::utf8::scan::{scan, Scan};
use crate::utf8::Utf8Bytes;
use bytes::{Buf, Bytes, BytesMut};
use vstd::prelude::*;

pub mod log;
pub mod refused;

verus! {

/// Something received from the peer.
///
/// `B` is the representation of binary data: the number of bytes put into the caller's buffer for
/// [`WebSocketIO::poll_recv`](crate::WebSocketIO::poll_recv), and the data itself for
/// [`WebSocketIO::poll_recv_bytes`](crate::WebSocketIO::poll_recv_bytes).
#[derive(Debug, PartialEq, Eq)]
pub enum Recv<B = usize> {
    /// A piece of a binary message.
    ///
    /// A piece never spans more than one frame, so it never spans message boundaries.
    Binary {
        /// The binary data.
        data: B,
        /// Whether this piece ends the message.
        end_of_message: bool,
    },
    /// A complete text message.
    Text(Utf8Bytes),
    /// A Ping frame. If [`Config::auto_pong`](crate::Config::auto_pong) is enabled, the Pong has
    /// already been queued.
    Ping(Bytes),
    /// A Pong frame.
    Pong(Bytes),
    /// The peer's Close frame, or `None` if it carried no status code.
    ///
    /// Unless [`Config::defer_close_reply`](crate::Config::defer_close_reply) is enabled, our reply
    /// has already been flushed and the IO has been shut down. Reported again on every later call.
    Close(Option<CloseFrame>),
}

impl<B: Clone> Clone for Recv<B> {
    fn clone(&self) -> (r: Recv<B>)
        ensures
            match *self {
                Recv::Binary { data, end_of_message } => r matches Recv::Binary {
                    data: d,
                    end_of_message: e,
                } && cloned(data, d) && e == end_of_message,
                Recv::Text(text) => r matches Recv::Text(t) && t@ == text@,
                Recv::Ping(payload) => r matches Recv::Ping(p) && crate::buffer::bytes_of(p)
                    == crate::buffer::bytes_of(payload),
                Recv::Pong(payload) => r matches Recv::Pong(p) && crate::buffer::bytes_of(p)
                    == crate::buffer::bytes_of(payload),
                Recv::Close(frame) => r matches Recv::Close(f) && crate::close::close_model(f)
                    == crate::close::close_model(frame),
            },
    {
        match self {
            Recv::Binary { data, end_of_message } => Recv::Binary {
                data: data.clone(),
                end_of_message: *end_of_message,
            },
            Recv::Text(text) => Recv::Text(text.clone()),
            Recv::Ping(payload) => Recv::Ping(payload.clone()),
            Recv::Pong(payload) => Recv::Pong(payload.clone()),
            Recv::Close(Some(frame)) => Recv::Close(Some(frame.clone())),
            Recv::Close(None) => Recv::Close(None),
        }
    }
}

/// Kind of a data message.
#[derive(Clone, Copy, Debug, PartialEq, Eq, Structural)]
pub enum MessageKind {
    /// Bytes.
    Binary,
    /// UTF-8 text.
    Text,
}

/// Where in a frame the next incoming byte stands.
#[derive(Clone, Copy, Debug)]
enum FrameState {
    /// Waiting for the next frame header.
    Header,
    /// Inside the payload of a data frame.
    Payload {
        kind: MessageKind,
        remaining: u64,
        /// Masking key, `None` for unmasked frames and all-zero keys.
        mask: Option<[u8; 4]>,
        /// Position of the next payload byte, modulo 4.
        offset: usize,
        fin: bool,
    },
}

/// Where in a frame the next incoming byte stands, as a mathematical value.
#[verifier::ext_equal]
pub enum FrameModel {
    /// Waiting for the next frame header.
    Header,
    /// Inside the payload of a data frame.
    Payload {
        /// Kind of the message that the frame belongs to.
        kind: MessageKind,
        /// How many payload bytes are still to come.
        remaining: nat,
        /// Masking key, `None` for unmasked frames and all-zero keys.
        mask: Option<Seq<u8>>,
        /// Position of the next payload byte, modulo 4.
        offset: int,
        /// Whether the frame ends its message.
        fin: bool,
    },
}

impl View for FrameState {
    type V = FrameModel;

    closed spec fn view(&self) -> FrameModel {
        match self {
            FrameState::Header => FrameModel::Header,
            FrameState::Payload { kind, remaining, mask, offset, fin } => FrameModel::Payload {
                kind: *kind,
                remaining: *remaining as nat,
                mask: crate::frame::key_model(*mask),
                offset: *offset as int,
                fin: *fin,
            },
        }
    }
}

/// What the connection demands of incoming frames.
#[derive(Clone, Copy, Debug, PartialEq, Eq, Structural)]
pub struct Rules {
    /// Our side of the connection.
    pub role: Role,
    /// Whether a server accepts unmasked frames.
    pub accept_unmasked_frames: bool,
    /// Maximum size of text messages.
    pub max_message_size: usize,
}

/// A payload, or a piece of it, without its mask.
pub open spec fn unmasked(data: Seq<u8>, mask: Option<Seq<u8>>, offset: int) -> Seq<u8> {
    match mask {
        Some(key) => crate::mask::masked(data, key, offset),
        None => data,
    }
}

/// A key that masks nothing counts as none.
pub open spec fn effective_mask(mask: Option<Seq<u8>>) -> Option<Seq<u8>> {
    if mask == Some(crate::mask::zero_key()) {
        None
    } else {
        mask
    }
}

/// The incoming bytes and what is known of them, as a mathematical value.
#[verifier::ext_equal]
pub struct DecoderModel {
    /// Bytes that have arrived and have not been decoded yet.
    pub buf: Seq<u8>,
    /// Where in a frame they start.
    pub frame: FrameModel,
    /// Kind of the fragmented message in progress, if any.
    pub message: Option<MessageKind>,
    /// Text message being assembled from fragments.
    pub text: Seq<u8>,
}

/// What the decoder makes of the bytes at hand.
#[verifier::ext_equal]
pub enum TurnModel {
    /// More bytes are needed.
    Fill,
    /// More bytes are needed, or something other than binary data is next in line, which is not to
    /// be touched now.
    Wait,
    /// A header or a piece of text has been decoded, to be gone on with.
    Next,
    /// Payload of a binary frame is next.
    Binary,
    /// The end of a binary message, without data.
    Empty,
    /// A text message.
    Text(Seq<u8>),
    /// A Ping frame.
    Ping(Seq<u8>),
    /// A Pong frame.
    Pong(Seq<u8>),
    /// A Close frame.
    Close(Option<CloseModel>),
    /// The peer violated the protocol.
    Violation(ProtocolError),
}

impl FrameModel {
    /// The state after `n` more bytes of the payload.
    pub open spec fn advanced(self, n: nat) -> FrameModel {
        match self {
            FrameModel::Header => FrameModel::Header,
            FrameModel::Payload { kind, remaining, mask, offset, fin } => if remaining <= n {
                FrameModel::Header
            } else {
                FrameModel::Payload {
                    kind,
                    remaining: (remaining - n) as nat,
                    mask,
                    offset: (offset + n) % 4,
                    fin,
                }
            },
        }
    }

    /// The payload bytes that `data` stands for.
    pub open spec fn reveals(self, data: Seq<u8>) -> Seq<u8> {
        match self {
            FrameModel::Header => data,
            FrameModel::Payload { mask, offset, .. } => unmasked(data, mask, offset),
        }
    }

    /// Whether this is the payload of a frame of the given kind.
    pub open spec fn carries(self, kind: MessageKind) -> bool {
        self matches FrameModel::Payload { kind: k, .. } && k == kind
    }

    /// How many payload bytes are still to come.
    pub open spec fn left(self) -> nat {
        match self {
            FrameModel::Header => 0,
            FrameModel::Payload { remaining, .. } => remaining,
        }
    }

    /// Whether the frame ends its message.
    pub open spec fn ends(self) -> bool {
        self matches FrameModel::Payload { fin, .. } && fin
    }
}

impl DecoderModel {
    /// The decoder of a new connection on which `buf` has arrived.
    pub open spec fn start(buf: Seq<u8>) -> DecoderModel {
        DecoderModel { buf, frame: FrameModel::Header, message: None, text: Seq::empty() }
    }

    /// Whether the bytes at hand end where a frame ends.
    pub open spec fn at_boundary(self) -> bool {
        self.frame is Header && self.buf.len() == 0
    }

    /// Payloads are never empty, the message in progress is that of the frame at hand, and only
    /// text messages leave text behind, which may still become valid.
    pub open spec fn wf(self) -> bool {
        &&& self.frame matches FrameModel::Payload { kind, remaining, mask, offset, fin } ==> {
            &&& 0 < remaining < 0x8000_0000_0000_0000
            &&& mask matches Some(key) ==> key.len() == 4
            &&& 0 <= offset < 4
            &&& self.message == if fin {
                None
            } else {
                Some(kind)
            }
        }
        &&& self.text.len() > 0 ==> self.frame.carries(MessageKind::Text) || self.message == Some(
            MessageKind::Text,
        )
        &&& self.frame.carries(MessageKind::Binary) ==> self.text.len() == 0
        &&& crate::utf8::scan::extendable(self.text)
    }

    /// Ends the text message that has been assembled.
    pub open spec fn finish_text(self) -> (TurnModel, DecoderModel) {
        if vstd::utf8::valid_utf8(self.text) {
            (TurnModel::Text(self.text), DecoderModel { text: Seq::empty(), ..self })
        } else {
            (TurnModel::Violation(ProtocolError::InvalidUtf8), self)
        }
    }

    /// Whether a frame with such a header may come from the peer.
    pub open spec fn mask_violation(rules: Rules, header: HeaderModel) -> Option<ProtocolError> {
        if rules.role is Server && header.mask is None && !rules.accept_unmasked_frames {
            Some(ProtocolError::UnmaskedFrame)
        } else if rules.role is Client && header.mask is Some {
            Some(ProtocolError::MaskedFrame)
        } else {
            None
        }
    }

    /// The kind of message that a data frame belongs to.
    pub open spec fn kind_of(self, opcode: OpCode) -> Result<MessageKind, ProtocolError> {
        if opcode is Continuation {
            match self.message {
                Some(kind) => Ok(kind),
                None => Err(ProtocolError::UnexpectedContinuation),
            }
        } else if self.message is Some {
            Err(ProtocolError::ExpectedContinuation)
        } else if opcode is Text {
            Ok(MessageKind::Text)
        } else {
            Ok(MessageKind::Binary)
        }
    }

    /// Takes a control frame, whose header takes `n` bytes. Waits until the whole frame has
    /// arrived.
    pub open spec fn control_turn(self, header: HeaderModel, n: int) -> (TurnModel, DecoderModel) {
        if self.buf.len() < n + header.len {
            (TurnModel::Fill, self)
        } else {
            let payload = unmasked(self.buf.subrange(n, n + header.len), header.mask, 0);
            let post = DecoderModel { buf: self.buf.skip(n + header.len), ..self };
            match header.opcode {
                OpCode::Ping => (TurnModel::Ping(payload), post),
                OpCode::Pong => (TurnModel::Pong(payload), post),
                _ => match crate::close::parsed_close(payload) {
                    Ok(frame) => (TurnModel::Close(frame), post),
                    Err(error) => (TurnModel::Violation(error), post),
                },
            }
        }
    }

    /// Takes the header of a data frame, which takes `n` bytes.
    pub open spec fn data_turn(
        self,
        rules: Rules,
        header: HeaderModel,
        n: int,
        buffered_only: bool,
    ) -> (TurnModel, DecoderModel) {
        match self.kind_of(header.opcode) {
            Err(error) => (TurnModel::Violation(error), self),
            Ok(kind) => if kind is Text && buffered_only {
                (TurnModel::Wait, self)
            } else if kind is Text && self.text.len() + header.len > rules.max_message_size
                && header.len > 0 {
                (TurnModel::Violation(ProtocolError::MessageTooLarge), self)
            } else {
                let post = DecoderModel {
                    buf: self.buf.skip(n),
                    message: if header.fin {
                        None
                    } else {
                        Some(kind)
                    },
                    ..self
                };
                if header.len > 0 {
                    (
                        TurnModel::Next,
                        DecoderModel {
                            frame: FrameModel::Payload {
                                kind,
                                remaining: header.len,
                                mask: effective_mask(header.mask),
                                offset: 0,
                                fin: header.fin,
                            },
                            ..post
                        },
                    )
                } else if !header.fin {
                    (TurnModel::Next, post)
                } else if kind is Binary {
                    (TurnModel::Empty, post)
                } else {
                    post.finish_text()
                }
            },
        }
    }

    /// Takes the header of the next frame.
    pub open spec fn header_turn(self, rules: Rules, buffered_only: bool) -> (
        TurnModel,
        DecoderModel,
    ) {
        match crate::frame::parsed(self.buf) {
            Err(error) => (TurnModel::Violation(error), self),
            Ok(None) => (
                if buffered_only {
                    TurnModel::Wait
                } else {
                    TurnModel::Fill
                },
                self,
            ),
            Ok(Some((header, n))) => match DecoderModel::mask_violation(rules, header) {
                Some(error) => (TurnModel::Violation(error), self),
                None => if !header.opcode.control() {
                    self.data_turn(rules, header, n, buffered_only)
                } else if buffered_only {
                    (TurnModel::Wait, self)
                } else {
                    self.control_turn(header, n)
                },
            },
        }
    }

    /// Takes as much of a text frame's payload as has arrived.
    ///
    /// Text is validated as it comes: what cannot become valid any more is a violation before the
    /// message ends.
    pub open spec fn text_turn(self, buffered_only: bool) -> (TurnModel, DecoderModel) {
        let left = self.frame.left();
        let n = if left <= self.buf.len() {
            left
        } else {
            self.buf.len()
        };
        let post = DecoderModel {
            buf: self.buf.skip(n as int),
            frame: self.frame.advanced(n),
            text: self.text + self.frame.reveals(self.buf.take(n as int)),
            ..self
        };
        if self.buf.len() == 0 {
            (
                if buffered_only {
                    TurnModel::Wait
                } else {
                    TurnModel::Fill
                },
                self,
            )
        } else if left == n && self.frame.ends() {
            post.finish_text()
        } else if !crate::utf8::scan::extendable(post.text) {
            (TurnModel::Violation(ProtocolError::InvalidUtf8), post)
        } else {
            (TurnModel::Next, post)
        }
    }

    /// Takes one step through the bytes that have arrived.
    ///
    /// With `buffered_only`, anything but binary data is left where it is.
    pub open spec fn turn(self, rules: Rules, buffered_only: bool) -> (TurnModel, DecoderModel) {
        match self.frame {
            FrameModel::Header => self.header_turn(rules, buffered_only),
            FrameModel::Payload { kind, .. } => if kind is Binary {
                (TurnModel::Binary, self)
            } else {
                self.text_turn(buffered_only)
            },
        }
    }

    /// Goes on step by step until there is something to report.
    pub open spec fn run(self, rules: Rules, buffered_only: bool) -> (TurnModel, DecoderModel)
        decreases self.buf.len(),
    {
        let (turn, post) = self.turn(rules, buffered_only);
        if turn is Next && post.buf.len() < self.buf.len() {
            post.run(rules, buffered_only)
        } else {
            (turn, post)
        }
    }

    /// The state after `n` bytes of a binary payload have been taken from the bytes at hand.
    pub open spec fn taken(self, n: nat) -> DecoderModel {
        DecoderModel { buf: self.buf.skip(n as int), frame: self.frame.advanced(n), ..self }
    }

    /// The first `n` bytes of the binary payload at hand.
    pub open spec fn revealed(self, n: nat) -> Seq<u8> {
        self.frame.reveals(self.buf.take(n as int))
    }
}

/// What the decoder makes of the bytes at hand.
pub enum Turn {
    /// More bytes are needed.
    Fill,
    /// More bytes are needed, or something other than binary data is next in line, which is not to
    /// be touched now.
    Wait,
    /// A header or a piece of text has been decoded, to be gone on with.
    Next,
    /// Payload of a binary frame is next.
    Binary,
    /// The end of a binary message, without data.
    Empty,
    /// A text message.
    Text(Utf8Bytes),
    /// A Ping frame.
    Ping(Bytes),
    /// A Pong frame.
    Pong(Bytes),
    /// A Close frame.
    Close(Option<CloseFrame>),
    /// The peer violated the protocol.
    Violation(ProtocolError),
}

impl View for Turn {
    type V = TurnModel;

    open spec fn view(&self) -> TurnModel {
        match self {
            Turn::Fill => TurnModel::Fill,
            Turn::Wait => TurnModel::Wait,
            Turn::Next => TurnModel::Next,
            Turn::Binary => TurnModel::Binary,
            Turn::Empty => TurnModel::Empty,
            Turn::Text(text) => TurnModel::Text(text@),
            Turn::Ping(payload) => TurnModel::Ping(crate::buffer::bytes_of(*payload)),
            Turn::Pong(payload) => TurnModel::Pong(crate::buffer::bytes_of(*payload)),
            Turn::Close(frame) => TurnModel::Close(crate::close::close_model(*frame)),
            Turn::Violation(error) => TurnModel::Violation(*error),
        }
    }
}

/// Whether a turn that took `pre` to `post` is the expected one. What is left behind by a
/// violation, which ends all decoding, is of no interest.
pub open spec fn turned(
    expected: (TurnModel, DecoderModel),
    turn: TurnModel,
    post: DecoderModel,
) -> bool {
    turn == expected.0 && (turn is Violation || post == expected.1)
}

/// The incoming bytes and what is known of them.
pub struct Decoder {
    buf: BytesMut,
    frame: FrameState,
    /// Kind of the fragmented message in progress, if any.
    message: Option<MessageKind>,
    /// Text message being assembled from fragments.
    text: BytesMut,
    /// Length of the validated prefix of `text`.
    text_valid: usize,
}

impl View for Decoder {
    type V = DecoderModel;

    closed spec fn view(&self) -> DecoderModel {
        DecoderModel {
            buf: crate::buffer::contents_of(self.buf),
            frame: self.frame@,
            message: self.message,
            text: crate::buffer::contents_of(self.text),
        }
    }
}

/// Removes the mask from a payload, or a piece of it, in place.
fn unmask(buf: &mut [u8], mask: Option<[u8; 4]>, offset: usize)
    ensures
        final(buf)@ == unmasked(old(buf)@, crate::frame::key_model(mask), offset as int),
{
    if let Some(key) = mask {
        apply_mask(buf, key, offset);
    }
}

/// Whether a key masks nothing.
fn is_zero(key: [u8; 4]) -> (r: bool)
    ensures
        r == (key@ == crate::mask::zero_key()),
{
    let r: bool = key[0] == 0 && key[1] == 0 && key[2] == 0 && key[3] == 0;
    assert(r ==> key@ =~= crate::mask::zero_key());
    r
}

impl Decoder {
    /// The validated text is a prefix of the text, all of it if the text is valid.
    pub closed spec fn validated(self) -> bool {
        &&& self.text_valid <= self@.text.len()
        &&& vstd::utf8::valid_utf8(self@.text.take(self.text_valid as int))
        &&& self.text_valid < self@.text.len() ==> !vstd::utf8::valid_utf8(self@.text)
    }

    /// Everything that is known holds.
    pub open spec fn wf(self) -> bool {
        self@.wf() && self.validated()
    }

    /// Whether the text that is being assembled has room for all the bytes at hand.
    pub open spec fn roomy(self) -> bool {
        self@.buf.len() + self@.text.len() <= MAX_BUFFER
    }

    /// Creates the decoder of a new connection on which `buf` has arrived.
    pub fn new(buf: BytesMut) -> (decoder: Decoder)
        ensures
            decoder.wf(),
            decoder@ == DecoderModel::start(crate::buffer::contents_of(buf)),
    {
        let decoder: Decoder = Decoder {
            buf,
            frame: FrameState::Header,
            message: None,
            text: BytesMut::new(),
            text_valid: 0,
        };
        proof {
            let text = decoder@.text;
            assert(text =~= Seq::<u8>::empty());
            assert(text.take(0) =~= text);
            assert(vstd::utf8::valid_utf8(text));
            crate::utf8::scan::law_valid_extendable(text);
        }
        decoder
    }

    /// Ends the text message that has been assembled.
    fn finish_text(&mut self) -> (turn: Turn)
        requires
            old(self).text_valid <= old(self)@.text.len(),
            vstd::utf8::valid_utf8(old(self)@.text.take(old(self).text_valid as int)),
            old(self).text_valid < old(self)@.text.len() ==> !vstd::utf8::valid_utf8(
                old(self)@.text,
            ),
        ensures
            turned(old(self)@.finish_text(), turn@, final(self)@),
            final(self)@.buf.len() + final(self)@.text.len() <= old(self)@.buf.len()
                + old(self)@.text.len(),
            turn is Text ==> final(self).text_valid == 0,
            turn is Text || turn is Violation,
    {
        if self.text_valid != self.text.len() {
            return Turn::Violation(ProtocolError::InvalidUtf8);
        }
        assert(self@.text.take(self.text_valid as int) =~= self@.text);
        // Take the whole buffer, so that we do not keep its allocation alive after the caller
        // drops the message.
        let mut text: BytesMut = BytesMut::new();
        std::mem::swap(&mut text, &mut self.text);
        self.text_valid = 0;
        Turn::Text(Utf8Bytes::from_validated(text.freeze()))
    }

    /// Takes a control frame.
    fn control_turn(&mut self, header: Header, header_len: usize) -> (turn: Turn)
        requires
            old(self).wf(),
            header@.valid(),
            header.opcode.control(),
            header_len <= old(self)@.buf.len(),
            old(self).roomy(),
        ensures
            turned(old(self)@.control_turn(header@, header_len as int), turn@, final(self)@),
            final(self).wf(),
            final(self)@.buf.len() + final(self)@.text.len() <= old(self)@.buf.len()
                + old(self)@.text.len(),
    {
        let len: usize = header.len as usize;
        if self.buf.len() < header_len + len {
            return Turn::Fill;
        }
        let ghost pre = self@;
        self.buf.advance(header_len);
        let mut payload: BytesMut = self.buf.split_to(len);
        unmask(&mut payload, header.mask, 0);
        let payload: Bytes = payload.freeze();
        assert(pre.buf.skip(header_len as int).take(len as int) =~= pre.buf.subrange(
            header_len as int,
            header_len + len,
        ));
        assert(pre.buf.skip(header_len as int).skip(len as int) =~= pre.buf.skip(header_len + len));
        match header.opcode {
            OpCode::Ping => Turn::Ping(payload),
            OpCode::Pong => Turn::Pong(payload),
            _ => match parse_payload(payload) {
                Ok(frame) => Turn::Close(frame),
                Err(error) => Turn::Violation(error),
            },
        }
    }

    /// The kind of message that a data frame belongs to.
    fn kind_of(&self, opcode: OpCode) -> (r: Result<MessageKind, ProtocolError>)
        ensures
            r == self@.kind_of(opcode),
    {
        match (opcode, self.message) {
            (OpCode::Continuation, Some(kind)) => Ok(kind),
            (OpCode::Continuation, None) => Err(ProtocolError::UnexpectedContinuation),
            (_, Some(_)) => Err(ProtocolError::ExpectedContinuation),
            (OpCode::Text, None) => Ok(MessageKind::Text),
            (_, None) => Ok(MessageKind::Binary),
        }
    }

    /// Takes the header of a data frame.
    fn data_turn(
        &mut self,
        rules: Rules,
        header: Header,
        header_len: usize,
        buffered_only: bool,
    ) -> (turn: Turn)
        requires
            old(self).wf(),
            old(self)@.frame is Header,
            header@.valid(),
            !header.opcode.control(),
            header_len <= old(self)@.buf.len(),
        ensures
            turned(
                old(self)@.data_turn(rules, header@, header_len as int, buffered_only),
                turn@,
                final(self)@,
            ),
            turn !is Violation ==> final(self).wf(),
            final(self)@.buf.len() + final(self)@.text.len() <= old(self)@.buf.len()
                + old(self)@.text.len(),
    {
        let kind: MessageKind = match self.kind_of(header.opcode) {
            Ok(kind) => kind,
            Err(error) => return Turn::Violation(error),
        };
        if kind == MessageKind::Text {
            if buffered_only {
                return Turn::Wait;
            }
            let room: usize = rules.max_message_size.saturating_sub(self.text.len());
            if header.len > room as u64 {
                return Turn::Violation(ProtocolError::MessageTooLarge);
            }
        }
        self.buf.advance(header_len);
        self.message = if header.fin {
            None
        } else {
            Some(kind)
        };
        if header.len > 0 {
            let mask: Option<[u8; 4]> = match header.mask {
                Some(key) => if is_zero(key) {
                    None
                } else {
                    Some(key)
                },
                None => None,
            };
            self.frame = FrameState::Payload {
                kind,
                remaining: header.len,
                mask,
                offset: 0,
                fin: header.fin,
            };
            return Turn::Next;
        }
        match (kind, header.fin) {
            (_, false) => Turn::Next,
            (MessageKind::Binary, true) => Turn::Empty,
            (MessageKind::Text, true) => {
                let turn: Turn = self.finish_text();
                proof {
                    if turn is Text {
                        self.lemma_no_text();
                    }
                }
                turn
            },
        }
    }

    /// Without text there is nothing to validate.
    proof fn lemma_no_text(&self)
        requires
            self@.text.len() == 0,
            self.text_valid == 0,
        ensures
            vstd::utf8::valid_utf8(self@.text.take(0)),
            crate::utf8::scan::extendable(self@.text),
    {
        assert(self@.text.take(0) =~= Seq::<u8>::empty());
        assert(self@.text =~= Seq::<u8>::empty());
        assert(vstd::utf8::valid_utf8(Seq::<u8>::empty()));
        crate::utf8::scan::law_valid_extendable(self@.text);
    }

    /// Takes the header of the next frame.
    fn header_turn(&mut self, rules: Rules, buffered_only: bool) -> (turn: Turn)
        requires
            old(self).wf(),
            old(self).roomy(),
            old(self)@.frame is Header,
        ensures
            turned(old(self)@.header_turn(rules, buffered_only), turn@, final(self)@),
            turn !is Violation ==> final(self).wf(),
            final(self)@.buf.len() + final(self)@.text.len() <= old(self)@.buf.len()
                + old(self)@.text.len(),
    {
        let (header, header_len): (Header, usize) = match parse(&self.buf) {
            Ok(Some(parsed)) => parsed,
            Ok(None) => return if buffered_only {
                Turn::Wait
            } else {
                Turn::Fill
            },
            Err(error) => return Turn::Violation(error),
        };
        proof {
            crate::frame::law_header_valid(self@.buf);
        }
        match (rules.role, header.mask.is_some()) {
            (Role::Server, false) => {
                if !rules.accept_unmasked_frames {
                    return Turn::Violation(ProtocolError::UnmaskedFrame);
                }
            },
            (Role::Client, true) => return Turn::Violation(ProtocolError::MaskedFrame),
            _ => {},
        }
        if !header.opcode.is_control() {
            return self.data_turn(rules, header, header_len, buffered_only);
        }
        if buffered_only {
            return Turn::Wait;
        }
        // Control payloads are tiny, wait until the whole frame is buffered.
        self.control_turn(header, header_len)
    }

    /// Takes as much of a text frame's payload as has arrived.
    fn text_turn(&mut self, buffered_only: bool) -> (turn: Turn)
        requires
            old(self).wf(),
            old(self).roomy(),
            old(self)@.frame.carries(MessageKind::Text),
        ensures
            turned(old(self)@.text_turn(buffered_only), turn@, final(self)@),
            turn !is Violation ==> final(self).wf(),
            final(self)@.buf.len() + final(self)@.text.len() <= old(self)@.buf.len()
                + old(self)@.text.len(),
    {
        let (remaining, mask, offset, fin): (u64, Option<[u8; 4]>, usize, bool) = match self.frame {
            FrameState::Payload { remaining, mask, offset, fin, .. } => (
                remaining,
                mask,
                offset,
                fin,
            ),
            FrameState::Header => return Turn::Fill,
        };
        if self.buf.is_empty() {
            return if buffered_only {
                Turn::Wait
            } else {
                Turn::Fill
            };
        }
        let ghost pre = self@;
        let n: usize = self.payload_at_hand(remaining);
        let left: u64 = remaining - n as u64;

        if left == 0 && fin && self.text.is_empty() {
            // The whole message is buffered, hand it out without copying.
            let mut payload: BytesMut = self.buf.split_to(n);
            unmask(&mut payload, mask, offset);
            self.frame = FrameState::Header;
            let payload: Bytes = payload.freeze();
            proof {
                assert(pre.text + pre.frame.reveals(pre.buf.take(n as int))
                    =~= crate::buffer::bytes_of(payload));
                assert(self@.text =~= Seq::<u8>::empty());
            }
            return match Utf8Bytes::try_from(payload) {
                Ok(text) => Turn::Text(text),
                Err(_) => Turn::Violation(ProtocolError::InvalidUtf8),
            };
        }
        self.text.reserve(n);
        let piece: &[u8] = vstd::slice::slice_subrange(&self.buf, 0, n);
        assert(piece@ =~= pre.buf.take(n as int));
        match mask {
            Some(key) => append_masked(&mut self.text, piece, key, offset),
            None => self.text.extend_from_slice(piece),
        }
        self.buf.advance(n);
        assert(self@.text =~= pre.text + pre.frame.reveals(pre.buf.take(n as int)));
        assert(self@.text.take(self.text_valid as int) =~= pre.text.take(self.text_valid as int));

        // Validate incrementally to fail fast. A code point split between frames stays in the
        // unvalidated suffix until the rest of it arrives.
        match scan(&self.text, self.text_valid) {
            Scan::Valid => {
                self.text_valid = self.text.len();
                assert(self@.text.take(self.text_valid as int) =~= self@.text);
            },
            Scan::Cut(at) => self.text_valid = at,
            Scan::Invalid => {
                proof {
                    if vstd::utf8::valid_utf8(self@.text) {
                        crate::utf8::scan::law_valid_extendable(self@.text);
                    }
                }
                return Turn::Violation(ProtocolError::InvalidUtf8);
            },
        }
        self.advance_frame(n);
        if left == 0 && fin {
            let turn: Turn = self.finish_text();
            proof {
                if turn is Text {
                    self.lemma_no_text();
                }
            }
            turn
        } else {
            Turn::Next
        }
    }

    /// How many bytes of a payload have arrived.
    fn payload_at_hand(&self, remaining: u64) -> (n: usize)
        ensures
            n == if remaining <= self@.buf.len() {
                remaining as nat
            } else {
                self@.buf.len()
            },
    {
        let len: usize = self.buf.len();
        if remaining <= len as u64 {
            remaining as usize
        } else {
            len
        }
    }

    /// Steps over `n` bytes of the payload.
    fn advance_frame(&mut self, n: usize)
        requires
            old(self)@.frame.left() >= n,
            old(self)@.frame matches FrameModel::Payload { offset, .. } ==> 0 <= offset < 4,
        ensures
            final(self)@ == (DecoderModel {
                frame: old(self)@.frame.advanced(n as nat),
                ..old(self)@
            }),
            final(self).text_valid == old(self).text_valid,
    {
        self.frame = match self.frame {
            FrameState::Header => FrameState::Header,
            FrameState::Payload { kind, remaining, mask, offset, fin } => {
                let left: u64 = remaining - n as u64;
                if left == 0 {
                    FrameState::Header
                } else {
                    assert((offset + n % 4) % 4 == (offset + n) % 4);
                    FrameState::Payload {
                        kind,
                        remaining: left,
                        mask,
                        offset: (offset + n % 4) % 4,
                        fin,
                    }
                }
            },
        };
    }

    /// Takes one step through the bytes that have arrived.
    fn turn(&mut self, rules: Rules, buffered_only: bool) -> (turn: Turn)
        requires
            old(self).wf(),
            old(self).roomy(),
        ensures
            turned(old(self)@.turn(rules, buffered_only), turn@, final(self)@),
            turn !is Violation ==> final(self).wf(),
            final(self)@.buf.len() + final(self)@.text.len() <= old(self)@.buf.len()
                + old(self)@.text.len(),
    {
        match self.frame {
            FrameState::Header => self.header_turn(rules, buffered_only),
            FrameState::Payload { kind: MessageKind::Binary, .. } => Turn::Binary,
            FrameState::Payload { kind: MessageKind::Text, .. } => self.text_turn(buffered_only),
        }
    }

    /// Goes on step by step until there is something to report.
    pub fn run(&mut self, rules: Rules, buffered_only: bool) -> (turn: Turn)
        requires
            old(self).wf(),
            old(self).roomy(),
        ensures
            turned(old(self)@.run(rules, buffered_only), turn@, final(self)@),
            turn !is Violation ==> final(self).wf() && final(self).roomy(),
            turn !is Next,
            final(self)@.buf.len() + final(self)@.text.len() <= old(self)@.buf.len()
                + old(self)@.text.len(),
    {
        let ghost pre = self@;
        let mut turn: Turn = self.turn(rules, buffered_only);
        proof {
            pre.lemma_turn(rules, buffered_only);
        }
        while matches!(turn, Turn::Next)
            invariant
                turn !is Violation ==> self.wf() && self.roomy(),
                turn is Next ==> pre.run(rules, buffered_only) == self@.run(rules, buffered_only),
                turn !is Next ==> turned(pre.run(rules, buffered_only), turn@, self@),
                self@.buf.len() + self@.text.len() <= pre.buf.len() + pre.text.len(),
            decreases
                if turn is Next {
                    self@.buf.len() + 1
                } else {
                    0
                },
        {
            proof {
                self@.lemma_turn(rules, buffered_only);
            }
            turn = self.turn(rules, buffered_only);
        }
        turn
    }
}

/// The smaller of two numbers.
pub open spec fn least(a: nat, b: nat) -> nat {
    if a <= b {
        a
    } else {
        b
    }
}

impl Decoder {
    /// Whether no bytes are at hand.
    pub fn is_empty(&self) -> (r: bool)
        ensures
            r == (self@.buf.len() == 0),
    {
        self.buf.is_empty()
    }

    /// Whether the bytes at hand end where a frame ends.
    pub fn is_at_boundary(&self) -> (r: bool)
        ensures
            r == self@.at_boundary(),
    {
        match self.frame {
            FrameState::Header => self.buf.is_empty(),
            FrameState::Payload { .. } => false,
        }
    }

    /// Whether there is room for all the bytes at hand, and `len` more, in the text that is being
    /// assembled.
    pub fn fits(&self, len: usize) -> (r: bool)
        ensures
            r == (self@.buf.len() + self@.text.len() + len <= MAX_BUFFER),
    {
        let held: usize = self.buf.len() + self.text.len();
        len <= MAX_BUFFER && held <= MAX_BUFFER - len
    }

    /// Whether payload of a binary frame is next.
    pub fn in_binary(&self) -> (r: bool)
        ensures
            r == self@.frame.carries(MessageKind::Binary),
    {
        match self.frame {
            FrameState::Payload { kind: MessageKind::Binary, .. } => true,
            _ => false,
        }
    }

    /// How many bytes of the payload are still to come, as far as `room` for them goes.
    pub fn limit(&self, room: usize) -> (n: usize)
        ensures
            n == least(self@.frame.left(), room as nat),
    {
        match self.frame {
            FrameState::Header => 0,
            FrameState::Payload { remaining, .. } => if remaining <= room as u64 {
                remaining as usize
            } else {
                room
            },
        }
    }

    /// Moves as much of the binary payload as is at hand to `dest`, from `filled` on, and unmasks
    /// it on the way. Returns the number of bytes and whether they end the message.
    pub fn take_into(&mut self, dest: &mut [u8], filled: usize) -> (r: (usize, bool))
        requires
            old(self).wf(),
            old(self)@.frame.carries(MessageKind::Binary),
            old(self)@.buf.len() > 0,
            filled < old(dest)@.len(),
        ensures
            final(self).wf(),
            r.0 == least(
                least(old(self)@.frame.left(), (old(dest)@.len() - filled) as nat),
                old(self)@.buf.len(),
            ),
            r.0 > 0,
            r.1 == (old(self)@.frame.ends() && r.0 == old(self)@.frame.left()),
            final(self)@ == old(self)@.taken(r.0 as nat),
            final(dest)@ == old(dest)@.take(filled as int) + old(self)@.revealed(r.0 as nat)
                + old(dest)@.skip(filled + r.0),
    {
        let (remaining, mask, offset, fin): (u64, Option<[u8; 4]>, usize, bool) = match self.frame {
            FrameState::Payload { remaining, mask, offset, fin, .. } => (
                remaining,
                mask,
                offset,
                fin,
            ),
            FrameState::Header => return (0, false),
        };
        let ghost pre = self@;
        let ghost before = dest@;
        let room: usize = dest.len() - filled;
        let limit: usize = self.limit(room);
        let n: usize = if limit <= self.buf.len() {
            limit
        } else {
            self.buf.len()
        };
        let piece: &[u8] = vstd::slice::slice_subrange(&self.buf, 0, n);
        assert(piece@ =~= pre.buf.take(n as int));
        let (_, unfilled) = dest.split_at_mut(filled);
        match mask {
            Some(key) => copy_masked(unfilled, piece, key, offset),
            None => {
                let (target, _) = unfilled.split_at_mut(n);
                target.copy_from_slice(piece);
            },
        }
        self.buf.advance(n);
        self.advance_frame(n);
        assert(dest@ =~= before.take(filled as int) + pre.revealed(n as nat) + before.skip(
            filled + n,
        ));
        (n, fin && n as u64 == remaining)
    }

    /// Splits as much of the binary payload as is at hand off the read buffer, unmasking it in
    /// place. Returns the bytes and whether they end the message.
    pub fn take_bytes(&mut self) -> (r: (Bytes, bool))
        requires
            old(self).wf(),
            old(self)@.frame.carries(MessageKind::Binary),
            old(self)@.buf.len() > 0,
        ensures
            final(self).wf(),
            ({
                let n = least(old(self)@.frame.left(), old(self)@.buf.len());
                &&& n > 0
                &&& crate::buffer::bytes_of(r.0) == old(self)@.revealed(n)
                &&& r.1 == (old(self)@.frame.ends() && n == old(self)@.frame.left())
                &&& final(self)@ == old(self)@.taken(n)
            }),
    {
        let (remaining, mask, offset, fin): (u64, Option<[u8; 4]>, usize, bool) = match self.frame {
            FrameState::Payload { remaining, mask, offset, fin, .. } => (
                remaining,
                mask,
                offset,
                fin,
            ),
            FrameState::Header => return (Bytes::new(), false),
        };
        let n: usize = self.payload_at_hand(remaining);
        let mut piece: BytesMut = self.buf.split_to(n);
        unmask(&mut piece, mask, offset);
        self.advance_frame(n);
        (piece.freeze(), fin && n as u64 == remaining)
    }

    /// Takes note of `n` bytes of binary payload that the IO put into `dest`, from `filled` on, and
    /// unmasks them. Returns whether they end the message.
    pub fn took_directly(&mut self, dest: &mut [u8], filled: usize, n: usize) -> (end: bool)
        requires
            old(self).wf(),
            old(self)@.frame.carries(MessageKind::Binary),
            0 < n <= old(self)@.frame.left(),
            filled + n <= old(dest)@.len(),
        ensures
            final(self).wf(),
            end == (old(self)@.frame.ends() && n == old(self)@.frame.left()),
            final(self)@ == (DecoderModel {
                frame: old(self)@.frame.advanced(n as nat),
                ..old(self)@
            }),
            final(dest)@ == old(dest)@.take(filled as int) + old(self)@.frame.reveals(
                old(dest)@.subrange(filled as int, filled + n),
            ) + old(dest)@.skip(filled + n),
    {
        let (remaining, mask, offset, fin): (u64, Option<[u8; 4]>, usize, bool) = match self.frame {
            FrameState::Payload { remaining, mask, offset, fin, .. } => (
                remaining,
                mask,
                offset,
                fin,
            ),
            FrameState::Header => return false,
        };
        let ghost before = dest@;
        let (_, rest) = dest.split_at_mut(filled);
        let (target, _) = rest.split_at_mut(n);
        assert(target@ =~= before.subrange(filled as int, filled + n));
        unmask(target, mask, offset);
        self.advance_frame(n);
        assert(dest@ =~= before.take(filled as int) + old(self)@.frame.reveals(
            before.subrange(filled as int, filled + n),
        ) + before.skip(filled + n));
        fin && n as u64 == remaining
    }

    /// Appends bytes that have arrived.
    pub fn fill(&mut self, data: &[u8])
        requires
            old(self).wf(),
            old(self)@.buf.len() + old(self)@.text.len() + data@.len() <= MAX_BUFFER,
        ensures
            final(self).wf(),
            final(self).roomy(),
            final(self)@ == (DecoderModel { buf: old(self)@.buf + data@, ..old(self)@ }),
    {
        self.buf.extend_from_slice(data);
    }

    /// Frees the read buffer if it holds no data, so that idle connections do not pin memory.
    ///
    /// The contract says that the model stays as it is. How much memory a buffer holds is left
    /// unsaid: `bytes` does not specify the capacity of an empty buffer.
    pub fn release_buf(&mut self)
        ensures
            final(self)@ == old(self)@,
            old(self).wf() ==> final(self).wf(),
    {
        if self.buf.is_empty() {
            self.buf = BytesMut::new();
            assert(self@.buf =~= old(self)@.buf);
        }
    }
}

impl DecoderModel {
    /// Each step consumes bytes, and moves them to the text at most.
    pub proof fn lemma_turn(self, rules: Rules, buffered_only: bool)
        requires
            self.wf(),
        ensures
            ({
                let (turn, post) = self.turn(rules, buffered_only);
                &&& post.buf.len() <= self.buf.len()
                &&& turn is Next ==> post.buf.len() < self.buf.len()
                &&& post.buf.len() + post.text.len() <= self.buf.len() + self.text.len()
            }),
    {
        if crate::frame::parsed(self.buf) matches Ok(Some(_)) {
            crate::frame::law_header_valid(self.buf);
        }
    }
}

} // verus!
