//! What a stream of incoming bytes means, however it arrives and however it is taken.
//!
//! The meaning of the bytes at hand is a sequence of items, found by decoding byte by byte. The
//! laws below relate it to the decoder, which takes whatever has arrived at once, and to the frames
//! that the peer sent.
use crate::close::CloseModel;
use crate::error::ProtocolError;
use crate::frame::{HeaderModel, OpCode};
use crate::recv::{DecoderModel, FrameModel, MessageKind, Rules, TurnModel};
use vstd::prelude::*;

verus! {

/// Something that incoming bytes mean.
#[verifier::ext_equal]
pub enum Item {
    /// A byte of a binary message.
    Byte(u8),
    /// The end of a binary message.
    End,
    /// A text message.
    Text(Seq<u8>),
    /// A Ping frame.
    Ping(Seq<u8>),
    /// A Pong frame.
    Pong(Seq<u8>),
    /// A Close frame. Nothing after it has a meaning.
    Close(Option<CloseModel>),
    /// A violation of the protocol. Nothing after it has a meaning.
    Violation(ProtocolError),
}

/// The bytes of a piece of a binary message.
pub open spec fn bytes(data: Seq<u8>) -> Seq<Item> {
    Seq::new(data.len(), |i: int| Item::Byte(data[i]))
}

/// The end of a binary message, if there is one.
pub open spec fn end_if(end: bool) -> Seq<Item> {
    if end {
        seq![Item::End]
    } else {
        Seq::empty()
    }
}

/// What a step of the decoder reports.
pub open spec fn reported(turn: TurnModel) -> Seq<Item> {
    match turn {
        TurnModel::Fill | TurnModel::Wait | TurnModel::Next | TurnModel::Binary => Seq::empty(),
        TurnModel::Empty => seq![Item::End],
        TurnModel::Text(text) => seq![Item::Text(text)],
        TurnModel::Ping(payload) => seq![Item::Ping(payload)],
        TurnModel::Pong(payload) => seq![Item::Pong(payload)],
        TurnModel::Close(frame) => seq![Item::Close(frame)],
        TurnModel::Violation(error) => seq![Item::Violation(error)],
    }
}

/// Whether a step of the decoder is its last one.
pub open spec fn last(turn: TurnModel) -> bool {
    turn is Close || turn is Violation
}

impl DecoderModel {
    /// The decoder after more bytes have arrived.
    pub open spec fn with(self, more: Seq<u8>) -> DecoderModel {
        DecoderModel { buf: self.buf + more, ..self }
    }

    /// The state after `n` bytes of a text payload.
    pub open spec fn text_taken(self, n: nat) -> DecoderModel {
        DecoderModel { text: self.text + self.revealed(n), ..self.taken(n) }
    }

    /// Takes a header, or a single byte of a payload.
    pub open spec fn step(self, rules: Rules) -> (TurnModel, DecoderModel) {
        if self.frame is Header {
            self.header_turn(rules, false)
        } else if self.buf.len() == 0 {
            (TurnModel::Fill, self)
        } else if self.frame.carries(MessageKind::Binary) {
            (TurnModel::Next, self.taken(1))
        } else {
            let post = self.text_taken(1);
            if self.frame.left() == 1 && self.frame.ends() {
                post.finish_text()
            } else if !crate::utf8::scan::extendable(post.text) {
                (TurnModel::Violation(ProtocolError::InvalidUtf8), post)
            } else {
                (TurnModel::Next, post)
            }
        }
    }

    /// What such a step reports: a byte of binary payload is an item of its own.
    pub open spec fn step_items(self, rules: Rules) -> Seq<Item> {
        if self.frame.carries(MessageKind::Binary) && self.buf.len() > 0 {
            bytes(self.revealed(1)) + end_if(self.frame.left() == 1 && self.frame.ends())
        } else {
            reported(self.step(rules).0)
        }
    }

    /// What the bytes at hand mean.
    pub open spec fn log(self, rules: Rules) -> Seq<Item>
        decreases self.buf.len(),
    {
        let (turn, post) = self.step(rules);
        if turn is Fill || last(turn) || post.buf.len() >= self.buf.len() {
            self.step_items(rules)
        } else {
            self.step_items(rules) + post.log(rules)
        }
    }

    /// The decoder once it has made all it can of the bytes at hand, [`None`] if nothing that
    /// follows them has a meaning.
    pub open spec fn rest(self, rules: Rules) -> Option<DecoderModel>
        decreases self.buf.len(),
    {
        let (turn, post) = self.step(rules);
        if last(turn) {
            None
        } else if turn is Fill || post.buf.len() >= self.buf.len() {
            Some(self)
        } else {
            post.rest(rules)
        }
    }

    /// Each step that is not the last one consumes bytes, and keeps what is known.
    pub(crate) proof fn lemma_step(self, rules: Rules)
        requires
            self.wf(),
        ensures
            ({
                let (turn, post) = self.step(rules);
                &&& turn is Fill ==> post == self
                &&& turn !is Fill && !last(turn) ==> post.buf.len() < self.buf.len() && post.wf()
                &&& turn !is Wait
                &&& turn !is Binary
            }),
    {
        self.lemma_turn(rules, false);
        if self.frame is Header {
            self.lemma_header_wf(rules);
        } else if self.buf.len() > 0 {
            assert(self.buf.skip(1).len() == self.buf.len() - 1);
            if !self.frame.carries(MessageKind::Binary) && self.frame.left() == 1
                && self.frame.ends() {
                lemma_empty_text();
            }
        }
    }

    /// Headers leave a well-formed decoder behind.
    proof fn lemma_header_wf(self, rules: Rules)
        requires
            self.wf(),
            self.frame is Header,
        ensures
            ({
                let (turn, post) = self.header_turn(rules, false);
                &&& turn is Fill ==> post == self
                &&& turn !is Fill && !last(turn) ==> post.buf.len() < self.buf.len() && post.wf()
            }),
    {
        if crate::frame::parsed(self.buf) matches Ok(Some(_)) {
            crate::frame::law_header_valid(self.buf);
        }
        lemma_empty_text();
    }

    /// A step does not depend on what arrives later.
    proof fn lemma_step_stable(self, rules: Rules, more: Seq<u8>)
        requires
            self.wf(),
            self.step(rules).0 !is Fill,
        ensures
            self.with(more).step(rules).0 == self.step(rules).0,
            !last(self.step(rules).0) ==> self.with(more).step(rules).1 == self.step(
                rules,
            ).1.with(more),
            self.with(more).step_items(rules) == self.step_items(rules),
    {
        let next = self.with(more);
        if self.frame is Header {
            crate::frame::law_header_decided(self.buf, more);
            if let Ok(Some((header, n))) = crate::frame::parsed(self.buf) {
                crate::frame::law_header_valid(self.buf);
                if header.opcode.control() && self.buf.len() >= n + header.len {
                    assert(next.buf.subrange(n, n + header.len) =~= self.buf.subrange(
                        n,
                        n + header.len,
                    ));
                    assert(next.buf.skip(n + header.len) =~= self.buf.skip(n + header.len) + more);
                } else {
                    assert(next.buf.skip(n) =~= self.buf.skip(n) + more);
                }
            }
        } else {
            assert(next.buf.take(1) =~= self.buf.take(1));
            assert(next.buf.skip(1) =~= self.buf.skip(1) + more);
        }
    }
}

proof fn lemma_empty_text()
    ensures
        crate::utf8::scan::extendable(Seq::<u8>::empty()),
        vstd::utf8::valid_utf8(Seq::<u8>::empty()),
{
    assert(vstd::utf8::valid_utf8(Seq::<u8>::empty()));
    crate::utf8::scan::law_valid_extendable(Seq::<u8>::empty());
}

/// What arrives later only adds to the meaning of what has arrived.
pub proof fn law_arrival(decoder: DecoderModel, rules: Rules, more: Seq<u8>)
    requires
        decoder.wf(),
    ensures
        decoder.with(more).log(rules) == match decoder.rest(rules) {
            None => decoder.log(rules),
            Some(rest) => decoder.log(rules) + rest.with(more).log(rules),
        },
        decoder.rest(rules) matches Some(rest) ==> rest.wf() && rest.buf.len() <= decoder.buf.len()
            && rest.log(rules) == Seq::<Item>::empty(),
    decreases decoder.buf.len(),
{
    let (turn, post) = decoder.step(rules);
    decoder.lemma_step(rules);
    if turn is Fill {
        assert(decoder.log(rules) =~= Seq::<Item>::empty());
        assert(decoder.log(rules) + decoder.with(more).log(rules) =~= decoder.with(more).log(
            rules,
        ));
    } else {
        decoder.lemma_step_stable(rules, more);
        if !last(turn) {
            law_arrival(post, rules, more);
            let items = decoder.step_items(rules);
            if let Some(rest) = post.rest(rules) {
                assert(items + (post.log(rules) + rest.with(more).log(rules)) =~= items + post.log(
                    rules,
                ) + rest.with(more).log(rules));
            }
        }
    }
}

impl DecoderModel {
    /// Taking a payload in two pieces is taking it at once.
    pub(crate) proof fn lemma_taken_split(self, k: nat)
        requires
            self.wf(),
            self.frame is Payload,
            k < self.frame.left(),
            k < self.buf.len(),
        ensures
            self.taken(k).taken(1) == self.taken(k + 1),
            self.revealed(k + 1) == self.revealed(k) + self.taken(k).revealed(1),
            self.text_taken(k).text_taken(1) == self.text_taken(k + 1),
    {
        let head = self.buf.take(k as int);
        let next = self.buf.skip(k as int).take(1);
        assert(self.buf.take((k + 1) as int) =~= head + next);
        assert(self.buf.skip(k as int).skip(1) =~= self.buf.skip((k + 1) as int));
        if let FrameModel::Payload { mask, offset, .. } = self.frame {
            assert(((offset + k) % 4 + 1) % 4 == (offset + (k + 1)) % 4);
            if let Some(key) = mask {
                crate::mask::law_mask_piecewise(head, next, key, offset);
                crate::mask::law_mask_phase(next, key, offset + k);
            }
        }
        assert(self.revealed(k + 1) =~= self.revealed(k) + self.taken(k).revealed(1));
        assert(self.text_taken(k).text_taken(1).text =~= self.text_taken(k + 1).text);
        assert(self.taken(k).taken(1) =~= self.taken(k + 1));
    }

    /// Taking nothing changes nothing.
    pub(crate) proof fn lemma_taken_nothing(self)
        requires
            self.wf(),
            self.frame is Payload,
        ensures
            self.taken(0) == self,
            self.revealed(0) == Seq::<u8>::empty(),
            self.text_taken(0) == self,
    {
        assert(self.buf.skip(0) =~= self.buf);
        if let FrameModel::Payload { mask, offset, .. } = self.frame {
            assert((offset + 0) % 4 == offset);
        }
        assert(self.revealed(0) =~= Seq::<u8>::empty());
        assert(self.text + self.revealed(0) =~= self.text);
        assert(self.taken(0) =~= self);
        assert(self.text_taken(0) =~= self);
    }

    /// A decoder inside of a payload stays well-formed while the payload goes on.
    pub proof fn lemma_taken_wf(self, k: nat)
        requires
            self.wf(),
            self.frame is Payload,
            k <= self.frame.left(),
            k <= self.buf.len(),
        ensures
            self.frame.carries(MessageKind::Binary) ==> self.taken(k).wf(),
            self.frame.carries(MessageKind::Text) && crate::utf8::scan::extendable(
                self.text_taken(k).text,
            ) && (k < self.frame.left() || !self.frame.ends()) ==> self.text_taken(k).wf(),
    {
    }

    /// A step that is taken without looking past binary data is the same as any other.
    proof fn lemma_buffered_turn(self, rules: Rules)
        ensures
            self.turn(rules, true).0 is Wait ==> self.turn(rules, true).1 == self,
            self.turn(rules, true).0 !is Wait ==> self.turn(rules, true) == self.turn(rules, false),
    {
    }
}

/// Binary payload is handed out byte for byte, in pieces of any size: the pieces, their ends and
/// what follows them make up the meaning of the bytes at hand.
pub proof fn law_binary_taken(decoder: DecoderModel, rules: Rules, n: nat)
    requires
        decoder.wf(),
        decoder.frame.carries(MessageKind::Binary),
        n <= decoder.frame.left(),
        n <= decoder.buf.len(),
    ensures
        decoder.log(rules) == bytes(decoder.revealed(n)) + end_if(
            decoder.frame.ends() && n == decoder.frame.left(),
        ) + decoder.taken(n).log(rules),
        decoder.rest(rules) == decoder.taken(n).rest(rules),
    decreases n,
{
    decoder.lemma_taken_nothing();
    if n == 0 {
        assert(bytes(decoder.revealed(0)) + end_if(false) + decoder.log(rules) =~= decoder.log(
            rules,
        ));
    } else {
        let k = (n - 1) as nat;
        law_binary_taken(decoder, rules, k);
        decoder.lemma_taken_split(k);
        decoder.lemma_taken_wf(k);
        let mid = decoder.taken(k);
        let end = end_if(decoder.frame.ends() && n == decoder.frame.left());
        mid.lemma_step(rules);
        assert(mid.log(rules) == bytes(mid.revealed(1)) + end + decoder.taken(n).log(rules));
        assert(bytes(decoder.revealed(n)) =~= bytes(decoder.revealed(k)) + bytes(mid.revealed(1)));
        assert(bytes(decoder.revealed(k)) + end_if(false) + (bytes(mid.revealed(1)) + end
            + decoder.taken(n).log(rules)) =~= bytes(decoder.revealed(n)) + end + decoder.taken(
            n,
        ).log(rules));
    }
}

/// Text payload is assembled in pieces of any size, until it cannot become valid any more.
pub(crate) proof fn lemma_text_taken(decoder: DecoderModel, rules: Rules, n: nat)
    requires
        decoder.wf(),
        decoder.frame.carries(MessageKind::Text),
        n <= decoder.frame.left(),
        n <= decoder.buf.len(),
        n < decoder.frame.left() || !decoder.frame.ends(),
    ensures
        decoder.log(rules) == if crate::utf8::scan::extendable(decoder.text_taken(n).text) {
            decoder.text_taken(n).log(rules)
        } else {
            seq![Item::Violation(ProtocolError::InvalidUtf8)]
        },
        decoder.rest(rules) == if crate::utf8::scan::extendable(decoder.text_taken(n).text) {
            decoder.text_taken(n).rest(rules)
        } else {
            None
        },
    decreases n,
{
    decoder.lemma_taken_nothing();
    if n > 0 {
        let k = (n - 1) as nat;
        lemma_text_taken(decoder, rules, k);
        decoder.lemma_taken_split(k);
        decoder.lemma_taken_wf(k);
        let mid = decoder.text_taken(k);
        assert(decoder.text_taken(n).text =~= mid.text + decoder.taken(k).revealed(1));
        if crate::utf8::scan::extendable(mid.text) {
            mid.lemma_step(rules);
            assert(Seq::<Item>::empty() + decoder.text_taken(n).log(rules) =~= decoder.text_taken(
                n,
            ).log(rules));
        } else {
            crate::utf8::scan::law_invalid_stays_invalid(
                mid.text,
                decoder.taken(k).revealed(1),
            );
        }
    }
}

/// Each step of the decoder reports what comes first in the meaning of the bytes at hand, and
/// leaves the rest of it.
pub proof fn law_turn(decoder: DecoderModel, rules: Rules, buffered_only: bool)
    requires
        decoder.wf(),
    ensures
        ({
            let (turn, post) = decoder.turn(rules, buffered_only);
            &&& decoder.log(rules) == reported(turn) + if last(turn) {
                Seq::empty()
            } else {
                post.log(rules)
            }
            &&& turn !is Violation ==> post.wf()
            &&& decoder.rest(rules) == if last(turn) {
                None
            } else {
                post.rest(rules)
            }
        }),
{
    decoder.lemma_buffered_turn(rules);
    decoder.lemma_step(rules);
    let (turn, post) = decoder.turn(rules, buffered_only);
    if turn is Wait || turn is Fill || turn is Binary {
        assert(Seq::<Item>::empty() + decoder.log(rules) =~= decoder.log(rules));
    } else if decoder.frame is Header {
        assert(reported(turn) + Seq::<Item>::empty() =~= reported(turn));
    } else {
        let left = decoder.frame.left();
        let n = if left <= decoder.buf.len() {
            left
        } else {
            decoder.buf.len()
        };
        assert(decoder.text_taken(n) == decoder.text_turn(false).1 || (left == n
            && decoder.frame.ends()));
        if left == n && decoder.frame.ends() {
            let k = (n - 1) as nat;
            lemma_text_taken(decoder, rules, k);
            decoder.lemma_taken_split(k);
            decoder.lemma_taken_wf(k);
            let mid = decoder.text_taken(k);
            assert(decoder.text_taken(n).text =~= mid.text + decoder.taken(k).revealed(1));
            if crate::utf8::scan::extendable(mid.text) {
                mid.lemma_step(rules);
                assert(mid.step(rules) == decoder.text_taken(n).finish_text());
            } else {
                crate::utf8::scan::law_invalid_stays_invalid(
                    mid.text,
                    decoder.taken(k).revealed(1),
                );
            }
            lemma_empty_text();
        } else {
            lemma_text_taken(decoder, rules, n);
            decoder.lemma_taken_wf(n);
        }
        assert(reported(turn) + Seq::<Item>::empty() =~= reported(turn));
        assert(Seq::<Item>::empty() + post.log(rules) =~= post.log(rules));
    }
}

/// Going on step by step reports what comes first in the meaning of the bytes at hand, and leaves
/// the rest of it.
pub proof fn law_run(decoder: DecoderModel, rules: Rules, buffered_only: bool)
    requires
        decoder.wf(),
    ensures
        ({
            let (turn, post) = decoder.run(rules, buffered_only);
            &&& decoder.log(rules) == reported(turn) + if last(turn) {
                Seq::empty()
            } else {
                post.log(rules)
            }
            &&& turn !is Violation ==> post.wf()
            &&& turn is Fill ==> decoder.log(rules) == Seq::<Item>::empty()
            &&& decoder.rest(rules) == if last(turn) {
                None
            } else {
                post.rest(rules)
            }
        }),
    decreases decoder.buf.len(),
{
    let (turn, post) = decoder.turn(rules, buffered_only);
    law_turn(decoder, rules, buffered_only);
    decoder.lemma_turn(rules, buffered_only);
    decoder.lemma_buffered_turn(rules);
    if turn is Next {
        law_run(post, rules, buffered_only);
        assert(Seq::<Item>::empty() + post.log(rules) =~= post.log(rules));
    } else if turn is Fill {
        decoder.lemma_step(rules);
        assert(decoder.step(rules).0 is Fill);
    }
}

/// Bytes that arrive while the decoder goes on mean the same as if they had been there before: what
/// has been reported, followed by what the bytes at hand and those that arrive mean from then on,
/// is the meaning of them all. After a Close frame or a violation nothing that arrives has one.
pub proof fn law_run_then_arrives(
    decoder: DecoderModel,
    rules: Rules,
    buffered_only: bool,
    more: Seq<u8>,
)
    requires
        decoder.wf(),
    ensures
        ({
            let (turn, post) = decoder.run(rules, buffered_only);
            decoder.with(more).log(rules) == reported(turn) + if last(turn) {
                Seq::empty()
            } else {
                post.with(more).log(rules)
            }
        }),
{
    let (turn, post) = decoder.run(rules, buffered_only);
    law_run(decoder, rules, buffered_only);
    law_arrival(decoder, rules, more);
    if !last(turn) {
        law_arrival(post, rules, more);
        if let Some(rest) = post.rest(rules) {
            assert(reported(turn) + (post.log(rules) + rest.with(more).log(rules)) =~= reported(
                turn,
            ) + post.log(rules) + rest.with(more).log(rules));
        }
    }
}

/// Bytes that arrive after a piece of a binary payload has been handed out mean the same as if they
/// had been there before.
pub proof fn law_taken_then_arrives(decoder: DecoderModel, rules: Rules, n: nat, more: Seq<u8>)
    requires
        decoder.wf(),
        decoder.frame.carries(MessageKind::Binary),
        n <= decoder.frame.left(),
        n <= decoder.buf.len(),
    ensures
        decoder.with(more).log(rules) == bytes(decoder.revealed(n)) + end_if(
            decoder.frame.ends() && n == decoder.frame.left(),
        ) + decoder.taken(n).with(more).log(rules),
{
    let next = decoder.with(more);
    law_binary_taken(next, rules, n);
    assert(next.buf.take(n as int) =~= decoder.buf.take(n as int));
    assert(next.buf.skip(n as int) =~= decoder.buf.skip(n as int) + more);
}

/// Bytes that arrive after a piece of a binary payload has been read straight from the IO mean the
/// same as if the piece had been buffered first.
pub proof fn law_read_directly_then_arrives(
    decoder: DecoderModel,
    rules: Rules,
    wire: Seq<u8>,
    more: Seq<u8>,
)
    requires
        decoder.wf(),
        decoder.frame.carries(MessageKind::Binary),
        decoder.buf.len() == 0,
        wire.len() <= decoder.frame.left(),
    ensures
        decoder.with(wire + more).log(rules) == bytes(decoder.frame.reveals(wire)) + end_if(
            decoder.frame.ends() && wire.len() == decoder.frame.left(),
        ) + (DecoderModel { frame: decoder.frame.advanced(wire.len()), ..decoder }).with(more).log(
            rules,
        ),
{
    let filled = decoder.with(wire);
    law_taken_then_arrives(filled, rules, wire.len(), more);
    assert(filled.buf =~= wire);
    assert(wire.take(wire.len() as int) =~= wire);
    assert(wire.skip(wire.len() as int) =~= decoder.buf);
    assert(filled.with(more) =~= decoder.with(wire + more));
}

/// Bytes may arrive piece by piece.
pub proof fn law_arrives_piecewise(decoder: DecoderModel, data: Seq<u8>, more: Seq<u8>)
    ensures
        decoder.with(data).with(more) == decoder.with(data + more),
        decoder.with(Seq::empty()) == decoder,
{
    assert(decoder.buf + data + more =~= decoder.buf + (data + more));
    assert(decoder.buf + Seq::<u8>::empty() =~= decoder.buf);
}

/// A message that the peer sent in a single frame.
#[verifier::ext_equal]
pub enum Message {
    /// A binary message.
    Binary(Seq<u8>),
    /// A text message.
    Text(Seq<u8>),
    /// A Ping frame.
    Ping(Seq<u8>),
    /// A Pong frame.
    Pong(Seq<u8>),
}

impl Message {
    /// The opcode of the frame.
    pub open spec fn opcode(self) -> OpCode {
        match self {
            Message::Binary(_) => OpCode::Binary,
            Message::Text(_) => OpCode::Text,
            Message::Ping(_) => OpCode::Ping,
            Message::Pong(_) => OpCode::Pong,
        }
    }

    /// The payload of the frame.
    pub open spec fn payload(self) -> Seq<u8> {
        match self {
            Message::Binary(data) => data,
            Message::Text(text) => text,
            Message::Ping(payload) => payload,
            Message::Pong(payload) => payload,
        }
    }

    /// What the receiver is to make of it.
    pub open spec fn items(self) -> Seq<Item> {
        match self {
            Message::Binary(data) => bytes(data) + seq![Item::End],
            Message::Text(text) => seq![Item::Text(text)],
            Message::Ping(payload) => seq![Item::Ping(payload)],
            Message::Pong(payload) => seq![Item::Pong(payload)],
        }
    }

    /// Whether it may be sent to a receiver with such rules: text is valid and within the
    /// receiver's limit, control payloads are short.
    pub open spec fn acceptable(self, rules: Rules) -> bool {
        &&& self.payload().len() < 0x8000_0000_0000_0000
        &&& self is Text ==> vstd::utf8::valid_utf8(self.payload()) && self.payload().len()
            <= rules.max_message_size
        &&& self.opcode().control() ==> self.payload().len() <= crate::frame::MAX_CONTROL_PAYLOAD
    }
}

/// Whether the receiver takes frames with such a mask.
pub open spec fn mask_acceptable(rules: Rules, mask: Option<Seq<u8>>) -> bool {
    match mask {
        Some(key) => key.len() == 4 && rules.role is Server,
        None => rules.role is Client || rules.accept_unmasked_frames,
    }
}

/// What the wire carries of a payload gives the payload back.
proof fn lemma_unmasked(payload: Seq<u8>, mask: Option<Seq<u8>>)
    ensures
        crate::recv::unmasked(
            match mask {
                Some(key) => crate::mask::masked(payload, key, 0),
                None => payload,
            },
            mask,
            0,
        ) == payload,
        crate::recv::unmasked(
            match mask {
                Some(key) => crate::mask::masked(payload, key, 0),
                None => payload,
            },
            crate::recv::effective_mask(mask),
            0,
        ) == payload,
{
    if let Some(key) = mask {
        crate::mask::law_mask_involution(payload, key, 0);
        if key == crate::mask::zero_key() {
            crate::mask::law_zero_key(payload, 0);
        }
    }
}

/// What the wire carries of a frame's payload.
pub open spec fn on_wire(mask: Option<Seq<u8>>, payload: Seq<u8>) -> Seq<u8> {
    match mask {
        Some(key) => crate::mask::masked(payload, key, 0),
        None => payload,
    }
}

/// A frame, which may be a fragment of a message.
pub open spec fn fragment_bytes(
    fin: bool,
    mask: Option<Seq<u8>>,
    opcode: OpCode,
    payload: Seq<u8>,
) -> Seq<u8> {
    crate::frame::encoded(HeaderModel { fin, opcode, mask, len: payload.len() }) + on_wire(
        mask,
        payload,
    )
}

/// The header of a frame is parsed first, then comes its payload.
proof fn lemma_frame_header(
    fin: bool,
    mask: Option<Seq<u8>>,
    opcode: OpCode,
    payload: Seq<u8>,
    tail: Seq<u8>,
) -> (n: int)
    requires
        mask matches Some(key) ==> key.len() == 4,
        payload.len() < 0x8000_0000_0000_0000,
        opcode.control() ==> fin && payload.len() <= crate::frame::MAX_CONTROL_PAYLOAD,
    ensures
        ({
            let buf = fragment_bytes(fin, mask, opcode, payload) + tail;
            let header = HeaderModel { fin, opcode, mask, len: payload.len() };
            &&& n == crate::frame::encoded(header).len()
            &&& crate::frame::parsed(buf) == Ok::<Option<(HeaderModel, int)>, ProtocolError>(
                Some((header, n)),
            )
            &&& buf.len() == n + payload.len() + tail.len()
            &&& buf.skip(n) == on_wire(mask, payload) + tail
            &&& buf.subrange(n, n + payload.len()) == on_wire(mask, payload)
            &&& buf.skip(n + payload.len()) == tail
        }),
{
    let header = HeaderModel { fin, opcode, mask, len: payload.len() };
    let head = crate::frame::encoded(header);
    let wire = on_wire(mask, payload);
    let buf = fragment_bytes(fin, mask, opcode, payload) + tail;
    let n = head.len() as int;
    assert(buf =~= head + (wire + tail));
    crate::frame::law_header_roundtrip(header, wire + tail);
    assert(buf.skip(n) =~= wire + tail);
    assert(buf.subrange(n, n + payload.len()) =~= wire);
    assert(buf.skip(n + payload.len()) =~= tail);
    n
}

impl DecoderModel {
    /// A decoder between two frames: the kind of the message in progress, and its text so far.
    pub open spec fn between(
        message: Option<MessageKind>,
        text: Seq<u8>,
        buf: Seq<u8>,
    ) -> DecoderModel {
        DecoderModel { buf, frame: FrameModel::Header, message, text }
    }
}

/// A ping or a pong is received wherever it stands, between the fragments of a message too.
pub proof fn law_control_received(
    rules: Rules,
    message: Option<MessageKind>,
    text: Seq<u8>,
    mask: Option<Seq<u8>>,
    control: Message,
    tail: Seq<u8>,
)
    requires
        control.acceptable(rules),
        control.opcode().control(),
        mask_acceptable(rules, mask),
        DecoderModel::between(message, text, tail).wf(),
    ensures
        DecoderModel::between(
            message,
            text,
            fragment_bytes(true, mask, control.opcode(), control.payload()) + tail,
        ).log(rules) == control.items() + DecoderModel::between(message, text, tail).log(rules),
{
    let payload = control.payload();
    let start = DecoderModel::between(
        message,
        text,
        fragment_bytes(true, mask, control.opcode(), payload) + tail,
    );
    let n = lemma_frame_header(true, mask, control.opcode(), payload, tail);
    lemma_unmasked(payload, mask);
    assert(start.step(rules).1 == DecoderModel::between(message, text, tail));
    assert(reported(start.step(rules).0) == control.items());
}

/// A fragment of a binary message is received byte by byte, and the last one ends the message.
pub proof fn law_binary_fragment_received(
    rules: Rules,
    message: Option<MessageKind>,
    fin: bool,
    mask: Option<Seq<u8>>,
    payload: Seq<u8>,
    tail: Seq<u8>,
)
    requires
        message != Some(MessageKind::Text),
        mask_acceptable(rules, mask),
        payload.len() < 0x8000_0000_0000_0000,
    ensures
        DecoderModel::between(
            message,
            Seq::empty(),
            fragment_bytes(
                fin,
                mask,
                if message is None {
                    OpCode::Binary
                } else {
                    OpCode::Continuation
                },
                payload,
            ) + tail,
        ).log(rules) == bytes(payload) + end_if(fin) + DecoderModel::between(
            if fin {
                None
            } else {
                Some(MessageKind::Binary)
            },
            Seq::empty(),
            tail,
        ).log(rules),
{
    let opcode = if message is None {
        OpCode::Binary
    } else {
        OpCode::Continuation
    };
    let len = payload.len();
    let start = DecoderModel::between(
        message,
        Seq::empty(),
        fragment_bytes(fin, mask, opcode, payload) + tail,
    );
    let after = DecoderModel::between(
        if fin {
            None
        } else {
            Some(MessageKind::Binary)
        },
        Seq::empty(),
        tail,
    );
    let n = lemma_frame_header(fin, mask, opcode, payload, tail);
    lemma_unmasked(payload, mask);
    lemma_empty_text();
    start.lemma_step(rules);
    if len == 0 {
        assert(payload =~= Seq::<u8>::empty());
        assert(start.buf.skip(n) =~= tail);
        assert(start.step(rules).1 == after);
        assert(bytes(payload) + end_if(fin) =~= reported(start.step(rules).0));
    } else {
        let inside = start.step(rules).1;
        assert(inside.buf == on_wire(mask, payload) + tail);
        assert(inside.buf.take(len as int) =~= on_wire(mask, payload));
        assert(inside.buf.skip(len as int) =~= tail);
        assert(inside.revealed(len) == payload);
        assert(Seq::<Item>::empty() + inside.log(rules) =~= inside.log(rules));
        law_binary_taken(inside, rules, len);
        assert(inside.taken(len) =~= after);
    }
}

/// A fragment of a text message adds to its text, which may be cut anywhere, and the last one ends
/// the message, which is received as a whole.
#[verifier::rlimit(40)]
pub proof fn law_text_fragment_received(
    rules: Rules,
    message: Option<MessageKind>,
    text: Seq<u8>,
    fin: bool,
    mask: Option<Seq<u8>>,
    payload: Seq<u8>,
    tail: Seq<u8>,
)
    requires
        message != Some(MessageKind::Binary),
        message is None ==> text.len() == 0,
        mask_acceptable(rules, mask),
        payload.len() < 0x8000_0000_0000_0000,
        text.len() + payload.len() <= rules.max_message_size,
        crate::utf8::scan::extendable(text + payload),
        fin ==> vstd::utf8::valid_utf8(text + payload),
    ensures
        DecoderModel::between(
            message,
            text,
            fragment_bytes(
                fin,
                mask,
                if message is None {
                    OpCode::Text
                } else {
                    OpCode::Continuation
                },
                payload,
            ) + tail,
        ).log(rules) == if fin {
            seq![Item::Text(text + payload)] + DecoderModel::between(
                None,
                Seq::empty(),
                tail,
            ).log(rules)
        } else {
            DecoderModel::between(Some(MessageKind::Text), text + payload, tail).log(rules)
        },
{
    let opcode = if message is None {
        OpCode::Text
    } else {
        OpCode::Continuation
    };
    let len = payload.len();
    let start = DecoderModel::between(
        message,
        text,
        fragment_bytes(fin, mask, opcode, payload) + tail,
    );
    let after = if fin {
        DecoderModel::between(None, Seq::empty(), tail)
    } else {
        DecoderModel::between(Some(MessageKind::Text), text + payload, tail)
    };
    if !crate::utf8::scan::extendable(text) {
        crate::utf8::scan::law_invalid_stays_invalid(text, payload);
    }
    let n = lemma_frame_header(fin, mask, opcode, payload, tail);
    lemma_unmasked(payload, mask);
    lemma_empty_text();
    start.lemma_step(rules);
    if len == 0 {
        assert(text + payload =~= text);
        assert(start.buf.skip(n) =~= tail);
        assert(start.step(rules).1 == after);
        assert(Seq::<Item>::empty() + after.log(rules) =~= after.log(rules));
    } else {
        let inside = start.step(rules).1;
        assert(inside.buf == on_wire(mask, payload) + tail);
        assert(inside.buf.take(len as int) =~= on_wire(mask, payload));
        assert(inside.buf.skip(len as int) =~= tail);
        assert(inside.revealed(len) == payload);
        assert(Seq::<Item>::empty() + inside.log(rules) =~= inside.log(rules));
        law_turn(inside, rules, false);
        assert(inside.text_turn(false).1 =~= after);
        assert(Seq::<Item>::empty() + after.log(rules) =~= after.log(rules));
    }
}

/// What a peer sends in a frame is what is received, and what follows it is received next.
pub proof fn law_frame_received(
    rules: Rules,
    mask: Option<Seq<u8>>,
    message: Message,
    tail: Seq<u8>,
)
    requires
        message.acceptable(rules),
        mask_acceptable(rules, mask),
    ensures
        DecoderModel::start(
            crate::send::frame_bytes(mask, message.opcode(), message.payload()) + tail,
        ).log(rules) == message.items() + DecoderModel::start(tail).log(rules),
{
    let payload = message.payload();
    assert(crate::send::frame_bytes(mask, message.opcode(), payload) == fragment_bytes(
        true,
        mask,
        message.opcode(),
        payload,
    ));
    lemma_empty_text();
    match message {
        Message::Binary(_) => law_binary_fragment_received(
            rules,
            None,
            true,
            mask,
            payload,
            tail,
        ),
        Message::Text(_) => {
            assert(Seq::<u8>::empty() + payload =~= payload);
            crate::utf8::scan::law_valid_extendable(payload);
            law_text_fragment_received(
                rules,
                None,
                Seq::empty(),
                true,
                mask,
                payload,
                tail,
            );
        },
        _ => law_control_received(rules, None, Seq::empty(), mask, message, tail),
    }
}

/// The peer's Close frame is received as it was meant, and nothing after it counts.
pub proof fn law_close_received(
    rules: Rules,
    mask: Option<Seq<u8>>,
    frame: Option<CloseModel>,
    tail: Seq<u8>,
)
    requires
        frame matches Some(frame) ==> frame.sendable() && vstd::utf8::valid_utf8(frame.reason),
        mask_acceptable(rules, mask),
    ensures
        DecoderModel::start(
            crate::send::frame_bytes(mask, OpCode::Close, crate::close::close_payload(frame))
                + tail,
        ).log(rules) == seq![Item::Close(frame)],
{
    let payload = crate::close::close_payload(frame);
    let start = DecoderModel::start(crate::send::frame_bytes(mask, OpCode::Close, payload) + tail);
    assert(crate::send::frame_bytes(mask, OpCode::Close, payload) == fragment_bytes(
        true,
        mask,
        OpCode::Close,
        payload,
    ));
    let n = lemma_frame_header(true, mask, OpCode::Close, payload, tail);
    lemma_unmasked(payload, mask);
    crate::close::law_close_roundtrip(frame);
    assert(start.step(rules).0 == TurnModel::Close(frame));
}

/// The frames of a conversation, one after the other.
pub open spec fn wire(frames: Seq<(Option<Seq<u8>>, Message)>) -> Seq<u8>
    decreases frames.len(),
{
    if frames.len() == 0 {
        Seq::empty()
    } else {
        let (mask, message) = frames.first();
        crate::send::frame_bytes(mask, message.opcode(), message.payload()) + wire(
            frames.drop_first(),
        )
    }
}

/// What a receiver is to make of them.
pub open spec fn all_items(frames: Seq<(Option<Seq<u8>>, Message)>) -> Seq<Item>
    decreases frames.len(),
{
    if frames.len() == 0 {
        Seq::empty()
    } else {
        frames.first().1.items() + all_items(frames.drop_first())
    }
}

/// All that the peer sends is received, in order and unchanged, whatever follows.
#[verifier::rlimit(40)]
pub proof fn law_conversation_received(
    rules: Rules,
    frames: Seq<(Option<Seq<u8>>, Message)>,
    tail: Seq<u8>,
)
    requires
        forall|i: int|
            #![trigger frames[i]]
            0 <= i < frames.len() ==> mask_acceptable(rules, frames[i].0) && frames[i].1.acceptable(
                rules,
            ),
    ensures
        DecoderModel::start(wire(frames) + tail).log(rules) == all_items(frames)
            + DecoderModel::start(tail).log(rules),
    decreases frames.len(),
{
    if frames.len() == 0 {
        assert(wire(frames) + tail =~= tail);
        assert(all_items(frames) + DecoderModel::start(tail).log(rules) =~= DecoderModel::start(
            tail,
        ).log(rules));
    } else {
        let (mask, message) = frames[0];
        let others = frames.drop_first();
        assert forall|i: int| #![trigger others[i]] 0 <= i < others.len() implies mask_acceptable(
            rules,
            others[i].0,
        ) && others[i].1.acceptable(rules) by {
            assert(others[i] == frames[i + 1]);
        }
        law_conversation_received(rules, others, tail);
        law_frame_received(rules, mask, message, wire(others) + tail);
        assert(wire(frames) + tail =~= crate::send::frame_bytes(
            mask,
            message.opcode(),
            message.payload(),
        ) + (wire(others) + tail));
        assert(message.items() + (all_items(others) + DecoderModel::start(tail).log(rules))
            =~= all_items(frames) + DecoderModel::start(tail).log(rules));
    }
}

/// The bytes of all binary messages, one after the other.
pub open spec fn binary(items: Seq<Item>) -> Seq<u8>
    decreases items.len(),
{
    if items.len() == 0 {
        Seq::empty()
    } else if let Item::Byte(byte) = items.last() {
        binary(items.drop_last()).push(byte)
    } else {
        binary(items.drop_last())
    }
}

/// The bytes of a sequence are those of its parts.
pub proof fn lemma_binary_concat(a: Seq<Item>, b: Seq<Item>)
    ensures
        binary(a + b) == binary(a) + binary(b),
    decreases b.len(),
{
    if b.len() == 0 {
        assert(a + b =~= a);
        assert(binary(a) + binary(b) =~= binary(a));
    } else {
        assert((a + b).drop_last() =~= a + b.drop_last());
        lemma_binary_concat(a, b.drop_last());
        assert(binary(a + b) =~= binary(a) + binary(b));
    }
}

/// The bytes of a piece of data are the data.
pub proof fn lemma_binary_bytes(data: Seq<u8>)
    ensures
        binary(bytes(data)) == data,
    decreases data.len(),
{
    if data.len() > 0 {
        assert(bytes(data).drop_last() =~= bytes(data.drop_last()));
        lemma_binary_bytes(data.drop_last());
        assert(data.drop_last().push(data.last()) =~= data);
    } else {
        assert(data =~= Seq::<u8>::empty());
    }
}

/// An item that is no byte of a binary message adds nothing.
pub proof fn lemma_binary_other(item: Item)
    requires
        !(item is Byte),
    ensures
        binary(seq![item]) == Seq::<u8>::empty(),
{
    let items = seq![item];
    assert(items.last() == item);
    assert(items.drop_last() =~= Seq::<Item>::empty());
    assert(binary(items.drop_last()) == Seq::<u8>::empty());
}

/// The payloads of binary messages, one after the other.
pub open spec fn payloads(frames: Seq<(Option<Seq<u8>>, Message)>) -> Seq<u8>
    decreases frames.len(),
{
    if frames.len() == 0 {
        Seq::empty()
    } else {
        (if frames.first().1 is Binary {
            frames.first().1.payload()
        } else {
            Seq::empty()
        }) + payloads(frames.drop_first())
    }
}

/// A connection is a byte duplex: the bytes that are received are the bytes that were written, in
/// order, however they were split into writes and whatever else was sent between them.
pub proof fn law_byte_stream(
    rules: Rules,
    frames: Seq<(Option<Seq<u8>>, Message)>,
    tail: Seq<u8>,
)
    requires
        forall|i: int|
            #![trigger frames[i]]
            0 <= i < frames.len() ==> mask_acceptable(rules, frames[i].0) && frames[i].1.acceptable(
                rules,
            ),
    ensures
        binary(DecoderModel::start(wire(frames) + tail).log(rules)) == payloads(frames) + binary(
            DecoderModel::start(tail).log(rules),
        ),
{
    law_conversation_received(rules, frames, tail);
    lemma_binary_concat(all_items(frames), DecoderModel::start(tail).log(rules));
    lemma_binary_all_items(frames);
}

proof fn lemma_binary_all_items(frames: Seq<(Option<Seq<u8>>, Message)>)
    ensures
        binary(all_items(frames)) == payloads(frames),
    decreases frames.len(),
{
    if frames.len() > 0 {
        let message = frames.first().1;
        let others = frames.drop_first();
        lemma_binary_all_items(others);
        lemma_binary_concat(message.items(), all_items(others));
        match message {
            Message::Binary(data) => {
                lemma_binary_concat(bytes(data), seq![Item::End]);
                lemma_binary_bytes(data);
                lemma_binary_other(Item::End);
                assert(data + Seq::<u8>::empty() =~= data);
            },
            Message::Text(text) => lemma_binary_other(Item::Text(text)),
            Message::Ping(payload) => lemma_binary_other(Item::Ping(payload)),
            Message::Pong(payload) => lemma_binary_other(Item::Pong(payload)),
        }
    }
}

impl DecoderModel {
    /// Whether the text message in progress, with what its frame announces, is within the limit.
    pub open spec fn text_bounded(self, rules: Rules) -> bool {
        self.text.len() + (if self.frame.carries(MessageKind::Text) {
            self.frame.left()
        } else {
            0
        }) <= rules.max_message_size
    }
}

/// Text messages that are reported, and what is assembled of them, are within the limit.
pub proof fn law_text_bounded(decoder: DecoderModel, rules: Rules, buffered_only: bool)
    requires
        decoder.wf(),
        decoder.text_bounded(rules),
    ensures
        ({
            let (turn, post) = decoder.run(rules, buffered_only);
            &&& turn matches TurnModel::Text(text) ==> text.len() <= rules.max_message_size
            &&& !last(turn) ==> post.text_bounded(rules)
        }),
    decreases decoder.buf.len(),
{
    let (turn, post) = decoder.turn(rules, buffered_only);
    decoder.lemma_turn(rules, buffered_only);
    law_turn(decoder, rules, buffered_only);
    if turn is Next {
        law_text_bounded(post, rules, buffered_only);
    }
}

/// Whether binary data, or the end of a binary message, comes first.
pub open spec fn starts_binary(items: Seq<Item>) -> bool {
    items.len() > 0 && (items[0] is Byte || items[0] is End)
}

/// While a text message is in progress, no binary data comes before its end.
proof fn lemma_text_first(decoder: DecoderModel, rules: Rules)
    requires
        decoder.wf(),
        decoder.frame.carries(MessageKind::Text) || decoder.frame is Header && decoder.message
            == Some(MessageKind::Text),
    ensures
        !starts_binary(decoder.log(rules)),
    decreases decoder.buf.len(),
{
    let (turn, post) = decoder.step(rules);
    decoder.lemma_step(rules);
    if turn is Next {
        lemma_text_first(post, rules);
        assert(Seq::<Item>::empty() + post.log(rules) =~= post.log(rules));
    }
}

/// A step that leaves what is next where it is, because it is no binary data, is right about that.
proof fn lemma_wait_first(decoder: DecoderModel, rules: Rules)
    requires
        decoder.wf(),
        decoder.turn(rules, true).0 is Wait,
    ensures
        !starts_binary(decoder.log(rules)),
{
    let (turn, post) = decoder.step(rules);
    decoder.lemma_step(rules);
    if turn is Next {
        lemma_text_first(post, rules);
        assert(Seq::<Item>::empty() + post.log(rules) =~= post.log(rules));
    }
}

/// Whoever asks for binary data at hand gets it: going on stops short of what is at hand only if
/// that is no binary data.
pub proof fn law_run_stops_at_other(decoder: DecoderModel, rules: Rules)
    requires
        decoder.wf(),
        decoder.run(rules, true).0 is Wait,
    ensures
        !starts_binary(decoder.run(rules, true).1.log(rules)),
        !starts_binary(decoder.log(rules)),
    decreases decoder.buf.len(),
{
    let (turn, post) = decoder.turn(rules, true);
    decoder.lemma_turn(rules, true);
    law_turn(decoder, rules, true);
    decoder.lemma_buffered_turn(rules);
    if turn is Next {
        law_run_stops_at_other(post, rules);
        assert(Seq::<Item>::empty() + post.log(rules) =~= post.log(rules));
    } else {
        lemma_wait_first(decoder, rules);
    }
}

} // verus!
