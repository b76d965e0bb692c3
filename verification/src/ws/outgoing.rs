//! What a connection sends, whatever is done with it.
//!
//! What reaches the peer is a sequence of complete frames. The frames that carry binary data hold
//! exactly the data that writes have accepted.
use crate::close::{CloseCode, CloseModel};
use crate::config::{ConfigModel, Role};
use crate::error::ProtocolError;
use crate::frame::OpCode;
use crate::recv::log::{Item, Message};
use crate::recv::{DecoderModel, Rules, TurnModel};
use crate::send::{Drain, KeysModel, Outcome, SendModel};
use crate::ws::operation::Operation;
use crate::ws::read::{passes, ReadStep};
use crate::ws::receive::{ReplyModel, SignalModel};
use crate::ws::transmit::{SendStep, WriteStep};
use crate::ws::ConnModel;
use vstd::prelude::*;

verus! {

/// What an operation adds to the outgoing stream.
#[verifier::ext_equal]
pub enum Sent {
    /// Nothing.
    Nothing,
    /// A message in a single frame, with its mask.
    Frame(Option<Seq<u8>>, Message),
    /// Our Close frame, with its mask.
    Close(Option<Seq<u8>>, Option<CloseModel>),
}

impl Sent {
    /// The bytes of the frame.
    pub open spec fn wire(self) -> Seq<u8> {
        match self {
            Sent::Nothing => Seq::empty(),
            Sent::Frame(mask, message) => crate::send::frame_bytes(
                mask,
                message.opcode(),
                message.payload(),
            ),
            Sent::Close(mask, frame) => crate::send::frame_bytes(
                mask,
                OpCode::Close,
                crate::close::close_payload(frame),
            ),
        }
    }

    /// The binary data that the frame carries.
    pub open spec fn data(self) -> Seq<u8> {
        match self {
            Sent::Frame(_, Message::Binary(data)) => data,
            _ => Seq::empty(),
        }
    }

    /// The text that the frame carries.
    pub open spec fn text(self) -> Option<Seq<u8>> {
        match self {
            Sent::Frame(_, Message::Text(text)) => Some(text),
            _ => None,
        }
    }

    /// Whether the frame is masked as the role demands, and may be sent.
    pub open spec fn valid(self, role: Role) -> bool {
        match self {
            Sent::Nothing => true,
            Sent::Frame(mask, message) => {
                &&& masked_for(role, mask)
                &&& message.payload().len() <= isize::MAX
                &&& message is Text ==> vstd::utf8::valid_utf8(message.payload())
                &&& message.opcode().control() ==> message.payload().len()
                    <= crate::frame::MAX_CONTROL_PAYLOAD
            },
            Sent::Close(mask, frame) => {
                &&& masked_for(role, mask)
                &&& frame matches Some(frame) ==> frame.sendable() && vstd::utf8::valid_utf8(
                    frame.reason,
                )
            },
        }
    }
}

/// Clients mask, servers do not.
pub open spec fn masked_for(role: Role, mask: Option<Seq<u8>>) -> bool {
    match mask {
        Some(key) => role is Client && key.len() == 4,
        None => role is Server,
    }
}

/// The bytes that the IO took, by what is reported to an operation.
pub open spec fn handed_over(conn: ConnModel, operation: Operation) -> Seq<u8> {
    match operation {
        Operation::ResumeWrite { outcome: Outcome::Ready(n), .. } | Operation::ResumeSend {
            outcome: Outcome::Ready(n),
            ..
        } | Operation::ResumeFlush { outcome: Outcome::Ready(n), .. } | Operation::Reply {
            outcome: Outcome::Ready(n),
            ..
        } => conn.send.buf.take(n as int),
        Operation::ResumeWriteVectored { data, outcome: Outcome::Ready(n), .. } => (conn.send.buf
            + conn.direct_frame(data)).take(n as int),
        _ => Seq::empty(),
    }
}

/// The data that an operation reports as written.
pub open spec fn accepted_by(operation: Operation) -> Seq<u8> {
    match operation {
        Operation::Write { data, write_step: WriteStep::Ready(Ok(n)), .. }
        | Operation::ResumeWrite { data, write_step: WriteStep::Ready(Ok(n)), .. }
        | Operation::ResumeWriteVectored { data, write_step: WriteStep::Ready(Ok(n)), .. } => {
            data.take(n as int)
        },
        _ => Seq::empty(),
    }
}

/// The text message that an operation sends.
pub open spec fn text_of(operation: Operation) -> Option<Seq<u8>> {
    match operation {
        Operation::Send { opcode: OpCode::Text, payload, .. } | Operation::ResumeSend {
            opcode: OpCode::Text,
            payload,
            ..
        } => Some(payload),
        _ => None,
    }
}

/// Whether an operation gives the reply to the peer's Close frame up, because the IO failed.
pub open spec fn gives_up(operation: Operation) -> bool {
    operation matches Operation::Reply { reply: ReplyModel::Close, outcome, .. } && (
    outcome is Failed || outcome == Outcome::Ready(0))
}

/// Whether `mask` is the one that keys in the state `pre` give to the next frame, which leaves them
/// in the state `post`: none, four zeros, or the next four bytes of a pool, none of which is used
/// twice. A pool that is used up is replaced by another one.
pub open spec fn masked_next(pre: KeysModel, post: KeysModel, mask: Option<Seq<u8>>) -> bool {
    match pre {
        KeysModel::Unmasked => mask is None && post == pre,
        KeysModel::Zero => mask == Some(seq![0u8, 0, 0, 0]) && post == pre,
        KeysModel::Random { pool, spent } => {
            &&& mask matches Some(key)
            &&& post matches KeysModel::Random { pool: drawn, spent: used }
            &&& key == drawn.subrange(used - 4, used)
            &&& if spent == 4096 {
                used == 4 && drawn.len() == 4096
            } else {
                used == spent + 4 && drawn == pool
            }
        },
    }
}

/// Whether frames that are sent use up keys, and nothing else does.
pub open spec fn keyed(pre: KeysModel, post: KeysModel, sent: Sent) -> bool {
    match sent {
        Sent::Nothing => post == pre,
        Sent::Frame(mask, _) | Sent::Close(mask, _) => masked_next(pre, post, mask),
    }
}

/// Whether nothing is sent of the connection's own accord but a pong that has been waiting, and
/// whether that one is sent once.
pub open spec fn idle(pre: SendModel, post: SendModel, sent: Sent) -> bool {
    &&& post.close_sent == pre.close_sent
    &&& keyed(pre.keys, post.keys, sent)
    &&& if sent is Nothing {
        post.pong == pre.pong
    } else {
        sent matches Sent::Frame(_, Message::Pong(payload)) && pre.pong == Some(payload)
            && post.pong is None
    }
}

/// The status code that tells the peer what it did wrong.
pub open spec fn rebuke(error: ProtocolError) -> u16 {
    if error == ProtocolError::InvalidUtf8 {
        1007
    } else if error == ProtocolError::MessageTooLarge {
        1009
    } else {
        1002
    }
}

/// Whether `sent` is the answer to what has been received: `items`, of which nothing but the last
/// one is answered.
///
/// A ping is answered with a pong that carries its payload, unless that is disabled or our Close
/// frame has been queued. The pong is sent, or is left waiting in place of an older one. The peer's
/// Close frame is answered with its status code, unless that is deferred, and a violation with the
/// status code that fits it, unless our Close frame has been queued.
pub open spec fn answers(
    config: ConfigModel,
    pre: SendModel,
    items: Seq<Item>,
    post: SendModel,
    sent: Sent,
) -> bool {
    let pongs = config.auto_pong && !pre.close_sent;
    &&& forall|i: int|
        #![trigger items[i]]
        0 <= i < items.len() - 1 ==> items[i] is Byte || items[i] is End || items[i] is Pong
            || items[i] is Ping && !pongs
    &&& keyed(pre.keys, post.keys, sent)
    &&& if items.len() > 0 && items.last() is Ping && pongs {
        &&& !post.close_sent
        &&& if sent is Nothing {
            post.pong == Some(items.last()->Ping_0)
        } else {
            sent matches Sent::Frame(_, Message::Pong(payload)) && items.last() == Item::Ping(
                payload,
            ) && post.pong is None
        }
    } else if items.len() > 0 && items.last() is Close && !pre.close_sent
        && !config.defer_close_reply {
        &&& sent matches Sent::Close(_, reply)
        &&& match items.last()->Close_0 {
            Some(frame) => reply == Some(CloseModel { code: frame.code, reason: Seq::empty() }),
            None => reply is None,
        }
    } else if items.len() > 0 && items.last() is Violation && !pre.close_sent {
        sent matches Sent::Close(_, reply) && reply == Some(
            CloseModel {
                code: CloseCode(rebuke(items.last()->Violation_0)),
                reason: Seq::empty(),
            },
        )
    } else {
        idle(pre, post, sent)
    }
}

/// Whether `sent` is what a sending operation is for: the data that it reports as written, in one
/// binary message, the message that it reports as queued, or the Close frame that it was given. An
/// operation that does not report success sends nothing but a pong that has been waiting.
pub open spec fn explains(
    pre: ConnModel,
    operation: Operation,
    post: ConnModel,
    sent: Sent,
) -> bool {
    match operation {
        Operation::Write { data, write_step, .. }
        | Operation::ResumeWrite { data, write_step, .. }
        | Operation::ResumeWriteVectored { data, write_step, .. } => {
            if write_step matches WriteStep::Ready(Ok(n)) && (n > 0 || !(operation is Write)) {
                &&& sent matches Sent::Frame(_, message)
                &&& message == Message::Binary(data.take(write_step->Ready_0->Ok_0 as int))
                &&& post.send.pong == pre.send.pong
                &&& post.send.close_sent == pre.send.close_sent
            } else {
                idle(pre.send, post.send, sent)
            }
        },
        Operation::Send { opcode, payload, send_step }
        | Operation::ResumeSend { opcode, payload, send_step, .. } => {
            if send_step == SendStep::Ready(Ok(())) {
                &&& sent matches Sent::Frame(_, message)
                &&& message == match opcode {
                    OpCode::Text => Message::Text(payload),
                    OpCode::Ping => Message::Ping(payload),
                    _ => Message::Pong(payload),
                }
                &&& post.send.pong == pre.send.pong
                &&& post.send.close_sent == pre.send.close_sent
            } else {
                idle(pre.send, post.send, sent)
            }
        },
        Operation::Close { frame, flush_step } => {
            if pre.send.close_sent || flush_step is Ready {
                idle(pre.send, post.send, sent)
            } else {
                sent matches Sent::Close(_, queued) && queued == frame
            }
        },
        Operation::Flush { .. } | Operation::ResumeFlush { .. } => idle(pre.send, post.send, sent),
        Operation::ShutDown { .. } | Operation::Deliver { .. } | Operation::DeliverBytes { .. } => {
            sent is Nothing && post.send == pre.send
        },
        _ => true,
    }
}

/// A frame that was pushed is masked as the role demands.
proof fn lemma_pushed_mask(
    conn: ConnModel,
    pre: SendModel,
    post: SendModel,
    opcode: OpCode,
    payload: Seq<u8>,
) -> (mask: Option<Seq<u8>>)
    requires
        conn.wf(),
        pre.keys == conn.send.keys,
        pre.pushed(post, opcode, payload),
    ensures
        post.buf == pre.buf + crate::send::frame_bytes(mask, opcode, payload),
        masked_for(conn.role, mask),
        !(conn.send.keys is Random) ==> mask == conn.send.keys.fixed_mask(),
        masked_next(pre.keys, post.keys, mask),
        post == (SendModel { buf: post.buf, keys: post.keys, ..pre }),
{
    assert(crate::mask::zero_key() =~= seq![0u8, 0, 0, 0]);
    crate::send::lemma_pushed(pre, post, opcode, payload)
}

/// A frame that goes straight to the IO is the one that would have been buffered.
pub proof fn law_direct_frame_is_buffered_frame(conn: ConnModel, post: SendModel, data: Seq<u8>)
    requires
        conn.wf(),
        !(conn.send.keys is Random),
        conn.send.pushed(post, OpCode::Binary, conn.accepted(data)),
    ensures
        post.buf == conn.send.buf + conn.direct_frame(data),
{
    let mask = lemma_pushed_mask(conn, conn.send, post, OpCode::Binary, conn.accepted(data));
}

proof fn lemma_staged(conn: ConnModel, pre: SendModel, post: SendModel) -> (sent: Sent)
    requires
        conn.wf(),
        pre.keys == conn.send.keys,
        pre.wf(),
        pre.staged(post),
    ensures
        post.buf == pre.buf + sent.wire(),
        sent.valid(conn.role),
        sent.data() == Seq::<u8>::empty(),
        sent !is Close,
        sent.text() is None,
        pre.close_sent ==> sent is Nothing,
        idle(pre, post, sent),
{
    if pre.pong_due() {
        let mask = lemma_pushed_mask(
            conn,
            SendModel { pong: None, ..pre },
            post,
            OpCode::Pong,
            pre.pong->0,
        );
        Sent::Frame(mask, Message::Pong(pre.pong->0))
    } else {
        assert(pre.buf + Seq::<u8>::empty() =~= pre.buf);
        Sent::Nothing
    }
}

proof fn lemma_draining(
    conn: ConnModel,
    pre: SendModel,
    post: SendModel,
    drain: Drain,
) -> (sent: Sent)
    requires
        conn.wf(),
        pre.keys == conn.send.keys,
        pre.wf(),
        pre.draining(post, drain),
    ensures
        post.buf == pre.buf + sent.wire(),
        sent.valid(conn.role),
        sent.data() == Seq::<u8>::empty(),
        sent !is Close,
        sent.text() is None,
        pre.close_sent ==> sent is Nothing,
        idle(pre, post, sent),
        drain is Done ==> post.keys == pre.keys && post.buf.len() == 0 && sent is Nothing,
{
    if pre.pong_due() {
        lemma_staged(conn, pre, post)
    } else {
        assert(pre.buf + Seq::<u8>::empty() =~= post.buf);
        Sent::Nothing
    }
}

pub(crate) proof fn lemma_drained(
    conn: ConnModel,
    outcome: Outcome,
    post: SendModel,
    drain: Drain,
) -> (sent: Sent)
    requires
        conn.wf(),
        conn.send.drained(outcome, post, drain),
        outcome matches Outcome::Ready(n) ==> n <= conn.send.buf.len(),
    ensures
        (match outcome {
            Outcome::Ready(n) => conn.send.buf.take(n as int),
            _ => Seq::empty(),
        }) + post.buf == conn.send.buf + sent.wire(),
        sent.valid(conn.role),
        sent.data() == Seq::<u8>::empty(),
        sent !is Close,
        sent.text() is None,
        conn.send.close_sent ==> sent is Nothing,
        drain is Write || post.keys == conn.send.keys && sent is Nothing,
        idle(conn.send, post, sent),
        drain is Done ==> post.pong is None,
{
    match outcome {
        Outcome::Ready(n) => {
            let mid = SendModel { buf: conn.send.buf.skip(n as int), ..conn.send };
            let sent = if n == 0 {
                Sent::Nothing
            } else {
                lemma_draining(conn, mid, post, drain)
            };
            assert(conn.send.buf.take(n as int) + post.buf =~= conn.send.buf + sent.wire());
            sent
        },
        _ => {
            assert(Seq::<u8>::empty() + post.buf =~= conn.send.buf + Seq::<u8>::empty());
            Sent::Nothing
        },
    }
}

proof fn lemma_close_queued(
    conn: ConnModel,
    pre: SendModel,
    post: SendModel,
    frame: Option<CloseModel>,
) -> (sent: Sent)
    requires
        conn.wf(),
        pre.keys == conn.send.keys,
        pre.close_queued(post, frame),
        frame matches Some(frame) ==> frame.sendable() && vstd::utf8::valid_utf8(frame.reason),
    ensures
        post.buf == pre.buf + sent.wire(),
        sent.valid(conn.role),
        sent is Close,
        post.close_sent,
        post.pong is None,
        keyed(pre.keys, post.keys, sent),
        sent matches Sent::Close(_, queued) && queued == frame,
{
    let mask = lemma_pushed_mask(
        conn,
        SendModel { pong: None, close_sent: true, ..pre },
        post,
        OpCode::Close,
        crate::close::close_payload(frame),
    );
    Sent::Close(mask, frame)
}

/// The Close frames that are reported carry codes that may be sent.
proof fn lemma_run_close(decoder: DecoderModel, rules: Rules, buffered_only: bool)
    ensures
        decoder.run(rules, buffered_only).0 matches TurnModel::Close(Some(frame))
            ==> frame.code.sendable(),
    decreases decoder.buf.len(),
{
    let (turn, post) = decoder.turn(rules, buffered_only);
    if turn is Next && post.buf.len() < decoder.buf.len() {
        lemma_run_close(post, rules, buffered_only);
    }
}

/// Whether `sent` is what takes the outgoing side from `pre` to `post`.
pub open spec fn accounts_for(
    conn: ConnModel,
    pre: SendModel,
    post: SendModel,
    sent: Sent,
) -> bool {
    &&& post.buf == pre.buf + sent.wire()
    &&& sent.valid(conn.role)
    &&& sent.data() == Seq::<u8>::empty()
    &&& sent.text() is None
    &&& pre.close_sent ==> sent is Nothing
    &&& keyed(pre.keys, post.keys, sent)
    &&& sent is Close <==> !pre.close_sent && post.close_sent
}

proof fn lemma_finishing(conn: ConnModel, post: ConnModel, signal: SignalModel) -> (sent: Sent)
    requires
        conn.wf(),
        conn.finishing(post, signal),
    ensures
        accounts_for(conn, conn.send, post.send, sent),
        idle(conn.send, post.send, sent),
{
    assert(conn.send.buf + Seq::<u8>::empty() =~= conn.send.buf);
    if !conn.send.close_sent || conn.shutdown_done {
        Sent::Nothing
    } else {
        let drain = choose|drain: Drain| #[trigger] conn.send.draining(post.send, drain);
        lemma_draining(conn, conn.send, post.send, drain)
    }
}

pub(crate) proof fn lemma_advanced(
    conn: ConnModel,
    buffered_only: bool,
    post: ConnModel,
    signal: SignalModel,
) -> (sent: Sent)
    requires
        conn.wf(),
        conn.advanced(buffered_only, post, signal),
    ensures
        accounts_for(conn, conn.send, post.send, sent),
        answers(
            conn.config,
            conn.send,
            if conn.close_received is None {
                crate::ws::laws::signalled(signal, post)
            } else {
                Seq::empty()
            },
            post.send,
            sent,
        ),
{
    let (turn, decoder) = conn.decoder.run(conn.rules(), buffered_only);
    assert(conn.send.buf + Seq::<u8>::empty() =~= conn.send.buf);
    assert(vstd::utf8::valid_utf8(Seq::<u8>::empty()));
    lemma_run_close(conn.decoder, conn.rules(), buffered_only);
    crate::ws::receive::lemma_run_ping(conn.decoder, conn.rules(), buffered_only);
    if conn.close_received is Some {
        if buffered_only {
            Sent::Nothing
        } else {
            lemma_finishing(conn, post, signal)
        }
    } else {
        match turn {
            TurnModel::Ping(payload) => {
                if conn.config.auto_pong && !conn.send.close_sent {
                    let queued = SendModel {
                        pong: Some(payload),
                        control_pending: true,
                        ..conn.send
                    };
                    let drain = choose|drain: Drain| #[trigger] queued.draining(post.send, drain);
                    lemma_draining(conn, queued, post.send, drain)
                } else {
                    Sent::Nothing
                }
            },
            TurnModel::Close(frame) => {
                let mid = ConnModel { decoder, close_received: Some(frame), ..conn };
                if !conn.send.close_sent && !conn.config.defer_close_reply {
                    let echo = match frame {
                        Some(frame) => Some(CloseModel { code: frame.code, reason: Seq::empty() }),
                        None => None,
                    };
                    lemma_close_queued(
                        conn,
                        SendModel { control_pending: true, ..conn.send },
                        post.send,
                        echo,
                    )
                } else if !conn.send.close_sent || conn.shutdown_done {
                    Sent::Nothing
                } else {
                    let drain = choose|drain: Drain| #[trigger]
                        mid.send.draining(post.send, drain);
                    lemma_draining(conn, conn.send, post.send, drain)
                }
            },
            TurnModel::Violation(error) => if conn.send.close_sent {
                Sent::Nothing
            } else {
                lemma_close_queued(
                    conn,
                    conn.send,
                    post.send,
                    Some(CloseModel { code: error.spec_close_code(), reason: Seq::empty() }),
                )
            },
            _ => Sent::Nothing,
        }
    }
}

/// Whether `sent` is what an operation adds to the outgoing stream.
pub open spec fn sends(pre: ConnModel, operation: Operation, post: ConnModel, sent: Sent) -> bool {
    &&& handed_over(pre, operation) + post.send.buf == pre.send.buf + sent.wire()
    &&& sent.valid(pre.role)
    &&& sent.data() == accepted_by(operation)
    &&& sent.text() is Some ==> sent.text() == text_of(operation)
    &&& pre.send.close_sent ==> sent is Nothing
    &&& sent is Close <==> !pre.send.close_sent && post.send.close_sent
    &&& keyed(pre.send.keys, post.send.keys, sent)
    &&& explains(pre, operation, post, sent)
}

proof fn lemma_writing(pre: ConnModel, operation: Operation, post: ConnModel) -> (sent: Sent)
    requires
        pre.wf(),
        pre.open_to(operation),
        pre.performs(operation, post),
        operation is Write || operation is ResumeWrite || operation is ResumeWriteVectored,
    ensures
        sends(pre, operation, post, sent),
{
    let none = Seq::<u8>::empty();
    assert(none + post.send.buf =~= post.send.buf);
    assert(pre.send.buf + none =~= pre.send.buf);
    assert(crate::mask::zero_key() =~= seq![0u8, 0, 0, 0]);
    match operation {
        Operation::Write { data, vectored, write_step } => {
            let accepted = pre.accepted(data);
            if pre.send.close_sent || data.len() == 0 {
                assert(accepted_by(operation) =~= none);
                Sent::Nothing
            } else if pre.send.writes_through(accepted.len(), vectored) {
                lemma_staged(pre, pre.send, post.send)
            } else if pre.send.overflows(accepted.len()) {
                lemma_draining(pre, pre.send, post.send, Drain::Write)
            } else {
                let mask = lemma_pushed_mask(pre, pre.send, post.send, OpCode::Binary, accepted);
                assert(accepted_by(operation) =~= accepted);
                Sent::Frame(mask, Message::Binary(accepted))
            }
        },
        Operation::ResumeWrite { data, outcome, write_step } => {
            let accepted = pre.accepted(data);
            let (send, drain) = choose|send: SendModel, drain: Drain|
                #[trigger] pre.send.drained(outcome, send, drain) && pre.write_resumed_after(
                    send,
                    drain,
                    post,
                    data,
                    write_step,
                );
            let first = lemma_drained(pre, outcome, send, drain);
            if drain is Done {
                let mask = lemma_pushed_mask(pre, send, post.send, OpCode::Binary, accepted);
                let sent = Sent::Frame(mask, Message::Binary(accepted));
                assert(accepted_by(operation) =~= accepted);
                assert(handed_over(pre, operation) + post.send.buf =~= pre.send.buf
                    + sent.wire());
                sent
            } else {
                first
            }
        },
        Operation::ResumeWriteVectored { data, outcome, write_step } => match outcome {
            Outcome::Ready(n) => {
                let accepted = pre.accepted(data);
                if n == 0 {
                    assert(handed_over(pre, operation) =~= none);
                    Sent::Nothing
                } else if n <= pre.send.buf.len() {
                    let mid = SendModel { buf: pre.send.buf.skip(n as int), ..pre.send };
                    let sent = lemma_staged(pre, mid, post.send);
                    assert(handed_over(pre, operation) =~= pre.send.buf.take(n as int));
                    assert(handed_over(pre, operation) + post.send.buf =~= pre.send.buf
                        + sent.wire());
                    sent
                } else {
                    let sent = Sent::Frame(
                        pre.send.keys.fixed_mask(),
                        Message::Binary(accepted),
                    );
                    assert(accepted_by(operation) =~= accepted);
                    assert(handed_over(pre, operation) + post.send.buf =~= pre.send.buf
                        + sent.wire());
                    sent
                }
            },
            _ => Sent::Nothing,
        },
        _ => Sent::Nothing,
    }
}

proof fn lemma_sending(pre: ConnModel, operation: Operation, post: ConnModel) -> (sent: Sent)
    requires
        pre.wf(),
        pre.open_to(operation),
        pre.performs(operation, post),
        operation is Send || operation is ResumeSend,
    ensures
        sends(pre, operation, post, sent),
{
    let none = Seq::<u8>::empty();
    assert(none + post.send.buf =~= post.send.buf);
    assert(pre.send.buf + none =~= pre.send.buf);
    match operation {
        Operation::Send { opcode, payload, .. } => {
            if pre.send.close_sent || (opcode.control() && payload.len()
                > crate::frame::MAX_CONTROL_PAYLOAD) {
                Sent::Nothing
            } else if pre.send.overflows(payload.len()) {
                lemma_draining(pre, pre.send, post.send, Drain::Write)
            } else {
                let mask = lemma_pushed_mask(pre, pre.send, post.send, opcode, payload);
                Sent::Frame(mask, message_of(opcode, payload))
            }
        },
        Operation::ResumeSend { opcode, payload, outcome, send_step } => {
            let (send, drain) = choose|send: SendModel, drain: Drain|
                #[trigger] pre.send.drained(outcome, send, drain) && pre.send_resumed_after(
                    send,
                    drain,
                    post,
                    opcode,
                    payload,
                    send_step,
                );
            let first = lemma_drained(pre, outcome, send, drain);
            if drain is Done {
                let mask = lemma_pushed_mask(pre, send, post.send, opcode, payload);
                let sent = Sent::Frame(mask, message_of(opcode, payload));
                assert(handed_over(pre, operation) + post.send.buf =~= pre.send.buf
                    + sent.wire());
                sent
            } else {
                first
            }
        },
        _ => Sent::Nothing,
    }
}

/// The message that a text, ping or pong frame carries.
pub open spec fn message_of(opcode: OpCode, payload: Seq<u8>) -> Message {
    match opcode {
        OpCode::Text => Message::Text(payload),
        OpCode::Ping => Message::Ping(payload),
        _ => Message::Pong(payload),
    }
}

proof fn lemma_flushing(pre: ConnModel, operation: Operation, post: ConnModel) -> (sent: Sent)
    requires
        pre.wf(),
        pre.open_to(operation),
        pre.performs(operation, post),
        operation is Flush || operation is ResumeFlush || operation is Close,
    ensures
        sends(pre, operation, post, sent),
{
    let none = Seq::<u8>::empty();
    assert(none + post.send.buf =~= post.send.buf);
    assert(pre.send.buf + none =~= pre.send.buf);
    match operation {
        Operation::Flush { .. } => {
            let drain = choose|drain: Drain| #[trigger] pre.send.draining(post.send, drain);
            lemma_draining(pre, pre.send, post.send, drain)
        },
        Operation::ResumeFlush { outcome, .. } => {
            let drain = choose|drain: Drain|
                #[trigger] pre.send.drained(outcome, post.send, drain);
            lemma_drained(pre, outcome, post.send, drain)
        },
        Operation::Close { frame, .. } => {
            if pre.send.close_sent {
                let drain = choose|drain: Drain| #[trigger] pre.send.draining(post.send, drain);
                lemma_draining(pre, pre.send, post.send, drain)
            } else if frame matches Some(frame) && !frame.sendable() {
                Sent::Nothing
            } else {
                lemma_close_queued(pre, pre.send, post.send, frame)
            }
        },
        _ => Sent::Nothing,
    }
}

pub(crate) proof fn lemma_polled(
    pre: ConnModel,
    buffered_only: bool,
    post: ConnModel,
    signal: SignalModel,
) -> (sent: Sent)
    requires
        pre.wf(),
        pre.polled(buffered_only, post, signal),
    ensures
        accounts_for(pre, pre.send, post.send, sent),
        answers(
            pre.config,
            pre.send,
            crate::ws::incoming::polled_items(pre, post, signal),
            post.send,
            sent,
        ),
{
    assert(pre.send.buf + Seq::<u8>::empty() =~= pre.send.buf);
    if pre.pending_error is Some || pre.failed {
        Sent::Nothing
    } else if pre.send.control_pending && !buffered_only {
        if pre.send.pong_due() || pre.send.buf.len() > 0 {
            lemma_draining(pre, pre.send, post.send, Drain::Write)
        } else {
            let mid = ConnModel {
                send: SendModel { control_pending: false, ..pre.send },
                ..pre
            };
            lemma_advanced(mid, false, post, signal)
        }
    } else {
        lemma_advanced(pre, buffered_only, post, signal)
    }
}

pub(crate) proof fn lemma_ended(pre: ConnModel, post: ConnModel, signal: SignalModel) -> (sent: Sent)
    requires
        pre.wf(),
        pre.ended(post, signal),
    ensures
        accounts_for(pre, pre.send, post.send, sent),
        idle(pre.send, post.send, sent),
{
    assert(pre.send.buf + Seq::<u8>::empty() =~= pre.send.buf);
    if pre.send.close_sent && pre.decoder.at_boundary() {
        let mid = ConnModel { close_received: Some(None), ..pre };
        lemma_advanced(mid, false, post, signal)
    } else {
        Sent::Nothing
    }
}

/// A read sends what the last event that it asks for calls for.
proof fn lemma_reading(
    pre: ConnModel,
    rounds: nat,
    dest: Seq<u8>,
    filled: nat,
    post: ConnModel,
    post_dest: Seq<u8>,
    post_filled: nat,
    step: ReadStep,
) -> (sent: Sent)
    requires
        pre.wf(),
        pre.reading(rounds, dest, filled, post, post_dest, post_filled, step),
    ensures
        accounts_for(pre, pre.send, post.send, sent),
    decreases rounds, 1nat,
{
    if filled >= dest.len() {
        assert(pre.send.buf + Seq::<u8>::empty() =~= pre.send.buf);
        Sent::Nothing
    } else {
        let (mid, signal) = choose|mid: ConnModel, signal: SignalModel|
            #[trigger] pre.polled(crate::ws::read::started(filled), mid, signal)
                && mid.read_signalled(
                rounds,
                signal,
                dest,
                filled,
                post,
                post_dest,
                post_filled,
                step,
            );
        if passes(signal) {
            crate::ws::read::lemma_polled_passes(
                pre,
                crate::ws::read::started(filled),
                mid,
                signal,
            );
            lemma_read_signalled(
                mid,
                rounds,
                signal,
                dest,
                filled,
                post,
                post_dest,
                post_filled,
                step,
            )
        } else {
            lemma_polled(pre, crate::ws::read::started(filled), mid, signal)
        }
    }
}

proof fn lemma_read_signalled(
    pre: ConnModel,
    rounds: nat,
    signal: SignalModel,
    dest: Seq<u8>,
    filled: nat,
    post: ConnModel,
    post_dest: Seq<u8>,
    post_filled: nat,
    step: ReadStep,
) -> (sent: Sent)
    requires
        passes(signal) ==> pre.wf(),
        signal is Binary ==> pre.in_binary(),
        filled < dest.len(),
        pre.read_signalled(rounds, signal, dest, filled, post, post_dest, post_filled, step),
    ensures
        accounts_for(pre, pre.send, post.send, sent),
    decreases rounds, 0nat,
{
    if signal is Binary && pre.decoder.buf.len() > 0 {
        let n = pre.deliverable((dest.len() - filled) as nat);
        pre.decoder.lemma_taken_wf(n);
        lemma_reading(
            ConnModel { decoder: pre.decoder.taken(n), ..pre },
            (rounds - 1) as nat,
            dest.take(filled as int) + pre.decoder.revealed(n) + dest.skip((filled + n) as int),
            filled + n,
            post,
            post_dest,
            post_filled,
            step,
        )
    } else if signal is Empty || signal is Ping || signal is Pong {
        lemma_reading(
            pre,
            (rounds - 1) as nat,
            dest,
            filled,
            post,
            post_dest,
            post_filled,
            step,
        )
    } else {
        assert(pre.send.buf + Seq::<u8>::empty() =~= pre.send.buf);
        Sent::Nothing
    }
}

proof fn lemma_delivering(pre: ConnModel, operation: Operation, post: ConnModel) -> (sent: Sent)
    requires
        pre.wf(),
        pre.open_to(operation),
        pre.performs(operation, post),
        operation is Deliver || operation is DeliverBytes || operation is RecvThrough
            || operation is Read || operation is ResumeRead || operation is ReadThrough
            || operation is ShutDown,
    ensures
        sends(pre, operation, post, sent),
{
    assert(Seq::<u8>::empty() + post.send.buf =~= post.send.buf);
    assert(pre.send.buf + Seq::<u8>::empty() =~= pre.send.buf);
    match operation {
        Operation::RecvThrough { dest, outcome: Outcome::Ready(n), post_dest, recv_step } if n
            == 0 => {
            let (mid, signal) = choose|mid: ConnModel, signal: SignalModel|
                #[trigger] pre.ended(mid, signal) && mid.delivered(
                    signal,
                    dest,
                    post,
                    post_dest,
                    recv_step,
                );
            lemma_ended(pre, mid, signal)
        },
        Operation::Read { rounds, dest, post_dest, post_filled, read_step } => lemma_reading(
            pre,
            rounds,
            dest,
            0,
            post,
            post_dest,
            post_filled,
            read_step,
        ),
        Operation::ResumeRead {
            rounds,
            signal,
            dest,
            filled,
            post_dest,
            post_filled,
            read_step,
        } => lemma_read_signalled(
            pre,
            rounds,
            signal,
            dest,
            filled,
            post,
            post_dest,
            post_filled,
            read_step,
        ),
        Operation::ReadThrough {
            rounds,
            dest,
            outcome: Outcome::Ready(n),
            post_dest,
            post_filled,
            read_step,
        } => if n == 0 {
            let (mid, signal) = choose|mid: ConnModel, signal: SignalModel|
                #[trigger] pre.ended(mid, signal) && mid.read_signalled(
                    rounds,
                    signal,
                    dest,
                    0,
                    post,
                    post_dest,
                    post_filled,
                    read_step,
                );
            lemma_ended(pre, mid, signal)
        } else {
            lemma_reading(
                pre.read_directly(n as nat),
                rounds,
                pre.decoder.frame.reveals(dest.take(n as int)) + dest.skip(n as int),
                n as nat,
                post,
                post_dest,
                post_filled,
                read_step,
            )
        },
        _ => Sent::Nothing,
    }
}

proof fn lemma_receiving(pre: ConnModel, operation: Operation, post: ConnModel) -> (sent: Sent)
    requires
        pre.wf(),
        pre.open_to(operation),
        pre.performs(operation, post),
        !gives_up(operation),
        operation is Poll || operation is Reply || operation is Arrive,
    ensures
        sends(pre, operation, post, sent),
{
    let none = Seq::<u8>::empty();
    assert(none + post.send.buf =~= post.send.buf);
    assert(pre.send.buf + none =~= pre.send.buf);
    match operation {
        Operation::Poll { buffered_only, signal } => lemma_polled(
            pre,
            buffered_only,
            post,
            signal,
        ),
        Operation::Reply { reply, outcome, signal } => {
            let (send, drain) = choose|send: SendModel, drain: Drain|
                #[trigger] pre.send.drained(outcome, send, drain) && (ConnModel {
                    send,
                    ..pre
                }).went_on(reply, drain, post, signal);
            let mid = ConnModel { send, ..pre };
            let first = lemma_drained(pre, outcome, send, drain);
            if reply is Queued && (drain is Done || drain is Blocked) {
                let sent = lemma_advanced(mid, false, post, signal);
                assert(handed_over(pre, operation) + post.send.buf =~= pre.send.buf
                    + sent.wire());
                sent
            } else {
                first
            }
        },
        Operation::Arrive { data, signal } => {
            if data.len() == 0 {
                lemma_ended(pre, post, signal)
            } else {
                let mid = ConnModel { decoder: pre.decoder.with(data), ..pre };
                lemma_advanced(mid, false, post, signal)
            }
        },
        _ => Sent::Nothing,
    }
}

/// What reaches the peer is a sequence of complete frames, whatever is done with the connection:
/// the bytes that the IO took, followed by those that are buffered now, are those that were
/// buffered before, followed by one complete frame at most. It carries the data that a write
/// reported as accepted, and nothing else does. Nothing is lost, repeated or reordered, unless the
/// IO fails on the reply to the peer's Close frame.
pub proof fn law_stream(pre: ConnModel, operation: Operation, post: ConnModel) -> (sent: Sent)
    requires
        pre.wf(),
        pre.open_to(operation),
        pre.performs(operation, post),
        !gives_up(operation),
    ensures
        sends(pre, operation, post, sent),
{
    match operation {
        Operation::Write { .. } | Operation::ResumeWrite { .. } | Operation::ResumeWriteVectored {
            ..
        } => lemma_writing(pre, operation, post),
        Operation::Send { .. } | Operation::ResumeSend { .. } => lemma_sending(
            pre,
            operation,
            post,
        ),
        Operation::Flush { .. } | Operation::ResumeFlush { .. } | Operation::Close { .. } =>
            lemma_flushing(pre, operation, post),
        Operation::Poll { .. } | Operation::Reply { .. } | Operation::Arrive { .. } =>
            lemma_receiving(pre, operation, post),
        _ => lemma_delivering(pre, operation, post),
    }
}

} // verus!
