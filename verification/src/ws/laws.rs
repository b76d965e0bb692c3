//! What holds of a connection as a whole.
use crate::close::CloseModel;
use crate::config::Role;
use crate::error::{ProtocolError, WebSocketError};
use crate::frame::OpCode;
use crate::recv::log::{Item, Message};
use crate::recv::{DecoderModel, Recv, Rules};
use crate::send::{Drain, Outcome, SendModel, MAX_CONTROL_FRAME};
use crate::ws::deliver::RecvStep;
use crate::ws::kept::receiving;
use crate::ws::operation::Operation;
use crate::ws::read::ReadStep;
use crate::ws::receive::{ReplyModel, SignalModel};
use crate::ws::transmit::{SendStep, WriteStep};
use crate::ws::ConnModel;
use vstd::prelude::*;

verus! {

// Sending.

/// Clients mask every frame they send, servers none.
pub proof fn law_masked_by_role(conn: ConnModel, post: SendModel, mask: Option<Seq<u8>>)
    requires
        conn.wf(),
        conn.send.keys.drew(post.keys, mask),
    ensures
        conn.role is Client <==> mask is Some,
        mask matches Some(key) ==> key.len() == 4,
{
}

/// The rules of the other side of the connection.
pub open spec fn other_side(role: Role, rules: Rules) -> bool {
    rules.role != role
}

/// What is sent as a frame is received by the other side, whatever follows.
///
/// This is what a read gives back of a write: the frame that was appended to the write buffer, once
/// the other side has read it, means the message that was sent.
pub proof fn law_sent_is_received(
    conn: ConnModel,
    post: SendModel,
    message: Message,
    rules: Rules,
) -> (frame: Seq<u8>)
    requires
        conn.wf(),
        conn.send.pushed(post, message.opcode(), message.payload()),
        other_side(conn.role, rules),
        message.acceptable(rules),
    ensures
        post.buf == conn.send.buf + frame,
        forall|tail: Seq<u8>| #[trigger]
            DecoderModel::start(frame + tail).log(rules) == message.items() + DecoderModel::start(
                tail,
            ).log(rules),
{
    let mask = crate::send::lemma_pushed(
        conn.send,
        post,
        message.opcode(),
        message.payload(),
    );
    law_masked_by_role(conn, post, mask);
    let frame = crate::send::frame_bytes(mask, message.opcode(), message.payload());
    assert forall|tail: Seq<u8>| #[trigger]
        DecoderModel::start(frame + tail).log(rules) == message.items() + DecoderModel::start(
            tail,
        ).log(rules) by {
        crate::recv::log::law_frame_received(rules, mask, message, tail);
    }
    frame
}

/// A Close frame that is sent is received by the other side, and is the last thing it receives.
pub proof fn law_sent_close_is_received(
    conn: ConnModel,
    post: SendModel,
    close: Option<CloseModel>,
    rules: Rules,
) -> (frame: Seq<u8>)
    requires
        conn.wf(),
        conn.send.close_queued(post, close),
        other_side(conn.role, rules),
        close matches Some(close) ==> close.sendable() && vstd::utf8::valid_utf8(close.reason),
    ensures
        post.buf == conn.send.buf + frame,
        post.close_sent,
        forall|tail: Seq<u8>| #[trigger]
            DecoderModel::start(frame + tail).log(rules) == seq![Item::Close(close)],
{
    let pre = SendModel { pong: None, close_sent: true, ..conn.send };
    let payload = crate::close::close_payload(close);
    let mask = crate::send::lemma_pushed(pre, post, OpCode::Close, payload);
    law_masked_by_role(conn, post, mask);
    let frame = crate::send::frame_bytes(mask, OpCode::Close, payload);
    assert forall|tail: Seq<u8>| #[trigger]
        DecoderModel::start(frame + tail).log(rules) == seq![Item::Close(close)] by {
        crate::recv::log::law_close_received(rules, mask, close, tail);
    }
    frame
}

/// A violation is answered with a Close frame that carries the matching status code, and the
/// other side receives it.
pub proof fn law_violation_answered(
    conn: ConnModel,
    error: ProtocolError,
    post: ConnModel,
    signal: SignalModel,
    rules: Rules,
) -> (frame: Seq<u8>)
    requires
        conn.wf(),
        !conn.send.close_sent,
        conn.violated(error, post, signal),
        other_side(conn.role, rules),
    ensures
        post.send.buf == conn.send.buf + frame,
        post.failed,
        signal == SignalModel::Write(ReplyModel::Failure(error)),
        forall|tail: Seq<u8>| #[trigger]
            DecoderModel::start(frame + tail).log(rules) == seq![
                Item::Close(
                    Some(CloseModel { code: error.spec_close_code(), reason: Seq::empty() }),
                ),
            ],
{
    assert(vstd::utf8::valid_utf8(Seq::<u8>::empty()));
    law_sent_close_is_received(
        conn,
        post.send,
        Some(CloseModel { code: error.spec_close_code(), reason: Seq::empty() }),
        rules,
    )
}

/// An all-zero key leaves the payload as it is: a client that masks with it sends like a server.
pub proof fn law_zero_key_frame(opcode: OpCode, payload: Seq<u8>)
    ensures
        crate::send::frame_bytes(Some(crate::mask::zero_key()), opcode, payload)
            == crate::frame::encoded(
            crate::frame::HeaderModel {
                fin: true,
                opcode,
                mask: Some(crate::mask::zero_key()),
                len: payload.len(),
            },
        ) + payload,
{
    crate::mask::law_zero_key(payload, 0);
}

/// A write that is neither refused nor empty accepts at least one byte, and no more than a frame
/// may carry.
pub proof fn law_write_accepts(conn: ConnModel, data: Seq<u8>)
    requires
        conn.wf(),
        data.len() > 0,
    ensures
        0 < conn.accepted(data).len() <= conn.config.max_frame_size,
        conn.accepted(data) == data.take(conn.accepted(data).len() as int),
{
}

/// Whether `post` holds no byte that `pre` did not hold, and keeps our Close frame the last one.
pub open spec fn only_shrinks(pre: SendModel, post: SendModel) -> bool {
    &&& post.close_sent
    &&& exists|n: int|
        0 <= n <= pre.buf.len() && post.buf == #[trigger] pre.buf.skip(n)
}

/// Nothing follows our Close frame: once it is queued, nothing that is done with the connection
/// appends anything to the write buffer, whatever arrives.
pub proof fn law_nothing_follows_close(pre: ConnModel, operation: Operation, post: ConnModel)
    requires
        pre.wf(),
        pre.send.close_sent,
        pre.open_to(operation),
        pre.performs(operation, post),
    ensures
        only_shrinks(pre.send, post.send),
{
    crate::ws::kept::law_closing_is_final(pre, operation, post);
    if crate::ws::outgoing::gives_up(operation) {
        assert(pre.send.buf.skip(pre.send.buf.len() as int) =~= post.send.buf);
    } else {
        let sent = crate::ws::outgoing::law_stream(pre, operation, post);
        let handed = crate::ws::outgoing::handed_over(pre, operation);
        let kept = handed + post.send.buf;
        assert(kept =~= pre.send.buf);
        assert(kept.skip(handed.len() as int) =~= post.send.buf);
    }
}

/// Once our Close frame is queued, writes and messages are refused, and change nothing.
pub proof fn law_closed_refuses(pre: ConnModel, operation: Operation, post: ConnModel)
    requires
        pre.send.close_sent,
        pre.performs(operation, post),
        operation is Write || operation is Send,
    ensures
        post == pre,
        operation matches Operation::Write { write_step, .. } ==> write_step == WriteStep::Ready(
            Err(WebSocketError::Closed),
        ),
        operation matches Operation::Send { send_step, .. } ==> send_step == SendStep::Ready(
            Err(WebSocketError::Closed),
        ),
{
}

// Receiving.

/// What a signal reports of the incoming stream.
pub open spec fn signalled(signal: SignalModel, post: ConnModel) -> Seq<Item> {
    match signal {
        SignalModel::Empty => seq![Item::End],
        SignalModel::Text(text) => seq![Item::Text(text)],
        SignalModel::Ping(payload) | SignalModel::Write(ReplyModel::Ping(payload)) => seq![
            Item::Ping(payload),
        ],
        SignalModel::Pong(payload) => seq![Item::Pong(payload)],
        SignalModel::Write(ReplyModel::Close) | SignalModel::Shutdown | SignalModel::Closed(
            _,
        ) => seq![Item::Close(post.reported_close())],
        SignalModel::Write(ReplyModel::Failure(error)) | SignalModel::Failed(
            WebSocketError::Protocol(error),
        ) => seq![Item::Violation(error)],
        _ => Seq::empty(),
    }
}

/// What is still to be reported of the incoming stream, once `more` bytes have arrived.
pub open spec fn to_come(conn: ConnModel, more: Seq<u8>) -> Seq<Item> {
    if receiving(conn) {
        conn.decoder.with(more).log(conn.rules())
    } else {
        Seq::empty()
    }
}

/// What is reported is what the decoder makes of the bytes at hand.
proof fn lemma_signalled(
    pre: ConnModel,
    buffered_only: bool,
    post: ConnModel,
    signal: SignalModel,
)
    requires
        receiving(pre),
        pre.advanced(buffered_only, post, signal),
    ensures
        ({
            let (turn, decoder) = pre.decoder.run(pre.rules(), buffered_only);
            &&& signalled(signal, post) == crate::recv::log::reported(turn)
            &&& receiving(post) <==> !crate::recv::log::last(turn)
            &&& receiving(post) ==> post.decoder == decoder
            &&& post.rules() == pre.rules()
            &&& post.pending_error == pre.pending_error
        }),
{
}

/// What is reported of the bytes at hand is what comes first in the meaning of the incoming stream,
/// and the rest of it is left, whatever arrives later.
pub proof fn law_event(
    pre: ConnModel,
    buffered_only: bool,
    post: ConnModel,
    signal: SignalModel,
    more: Seq<u8>,
)
    requires
        receiving(pre),
        pre.decoder.wf(),
        pre.advanced(buffered_only, post, signal),
    ensures
        to_come(pre, more) == signalled(signal, post) + to_come(post, more),
        receiving(post) ==> post.decoder.wf(),
        post.rules() == pre.rules(),
        post.pending_error == pre.pending_error,
{
    lemma_signalled(pre, buffered_only, post, signal);
    crate::recv::log::law_run(pre.decoder, pre.rules(), buffered_only);
    crate::recv::log::law_run_then_arrives(pre.decoder, pre.rules(), buffered_only, more);
}

/// Binary data that is handed out is what comes first in the meaning of the incoming stream.
pub proof fn law_delivered(
    pre: ConnModel,
    dest: Seq<u8>,
    post: ConnModel,
    filled: Seq<u8>,
    data: usize,
    end_of_message: bool,
    more: Seq<u8>,
)
    requires
        pre.in_binary(),
        pre.decoder.wf(),
        pre.decoder.buf.len() > 0,
        0 < dest.len() <= usize::MAX,
        pre.delivered(
            SignalModel::Binary,
            dest,
            post,
            filled,
            RecvStep::Ready(Ok(Recv::Binary { data, end_of_message })),
        ),
    ensures
        0 < data <= dest.len(),
        filled.skip(data as int) == dest.skip(data as int),
        to_come(pre, more) == crate::recv::log::bytes(filled.take(data as int))
            + crate::recv::log::end_if(end_of_message) + to_come(post, more),
{
    let n = pre.deliverable(dest.len());
    crate::recv::log::law_taken_then_arrives(pre.decoder, pre.rules(), n, more);
    assert(filled.take(n as int) =~= pre.decoder.revealed(n));
    assert(filled.skip(n as int) =~= dest.skip(n as int));
}

/// Binary data that is split off the read buffer is what comes first in the meaning of the incoming
/// stream.
pub proof fn law_delivered_bytes(
    pre: ConnModel,
    post: ConnModel,
    data: bytes::Bytes,
    end_of_message: bool,
    more: Seq<u8>,
)
    requires
        pre.in_binary(),
        pre.decoder.wf(),
        pre.decoder.buf.len() > 0,
        pre.delivered_bytes(
            SignalModel::Binary,
            post,
            RecvStep::Ready(Ok(Recv::Binary { data, end_of_message })),
        ),
    ensures
        crate::buffer::bytes_of(data).len() > 0,
        to_come(pre, more) == crate::recv::log::bytes(crate::buffer::bytes_of(data))
            + crate::recv::log::end_if(end_of_message) + to_come(post, more),
{
    let n = crate::recv::least(pre.decoder.frame.left(), pre.decoder.buf.len());
    crate::recv::log::law_taken_then_arrives(pre.decoder, pre.rules(), n, more);
}

/// Reading straight into the caller's buffer gives the same as reading into the read buffer and
/// taking the data from there.
pub proof fn law_direct_read_is_buffered_read(conn: ConnModel, wire: Seq<u8>)
    requires
        conn.in_binary(),
        conn.decoder.buf.len() == 0,
        wire.len() <= conn.decoder.frame.left(),
    ensures
        conn.read_directly(wire.len()).decoder == conn.decoder.with(wire).taken(wire.len()),
        conn.decoder.frame.reveals(wire) == conn.decoder.with(wire).revealed(wire.len()),
{
    let filled = conn.decoder.with(wire);
    assert(filled.buf =~= wire);
    assert(filled.buf.take(wire.len() as int) =~= wire);
    assert(filled.buf.skip(wire.len() as int) =~= conn.decoder.buf);
}

/// A ping flood does not grow the write buffer without bound: however many pings are received, what
/// they add never exceeds the buffer's size by more than a single pong.
pub proof fn law_ping_flood(
    pre: ConnModel,
    payload: Seq<u8>,
    post: ConnModel,
    signal: SignalModel,
)
    requires
        pre.wf(),
        payload.len() <= crate::frame::MAX_CONTROL_PAYLOAD,
        pre.pinged(payload, post, signal),
    ensures
        post.send.buf.len() <= pre.send.buf.len() || post.send.buf.len()
            < pre.send.write_buffer_size + MAX_CONTROL_FRAME,
        post.send.pong matches Some(pong) ==> pong == payload || post.send == pre.send,
{
    if pre.config.auto_pong && !pre.send.close_sent {
        let queued = SendModel { pong: Some(payload), control_pending: true, ..pre.send };
        if queued.pong_due() {
            crate::send::lemma_pushed_len(
                SendModel { pong: None, ..queued },
                post.send,
                OpCode::Pong,
                payload,
            );
        }
    }
}

/// What is left to be written before all replies are out: it grows less with every write that the
/// IO takes any byte of.
pub open spec fn outstanding(send: SendModel) -> nat {
    send.buf.len() + if send.pong is Some {
        MAX_CONTROL_FRAME as nat
    } else {
        0
    }
}

/// Each write that the IO takes any byte of leaves less to be written.
pub proof fn law_writes_progress(pre: SendModel, n: usize, post: SendModel)
    requires
        pre.wf(),
        0 < n <= pre.buf.len(),
        pre.drained(Outcome::Ready(n), post, Drain::Write),
    ensures
        outstanding(post) < outstanding(pre),
        post.wf(),
{
    let mid = SendModel { buf: pre.buf.skip(n as int), ..pre };
    if mid.pong_due() {
        let start = SendModel { pong: None, ..mid };
        crate::send::lemma_pushed_len(start, post, OpCode::Pong, mid.pong->0);
        let mask = crate::send::lemma_pushed(start, post, OpCode::Pong, mid.pong->0);
    }
}

/// Whether a receiving call that asks for writes of the replies that have been queued goes through
/// `states` as the IO takes `sizes` bytes of them, and at last goes on with something else.
pub open spec fn written_out(
    states: Seq<ConnModel>,
    sizes: Seq<usize>,
    signal: SignalModel,
) -> bool {
    &&& sizes.len() > 0
    &&& states.len() == sizes.len() + 1
    &&& signal != SignalModel::Write(ReplyModel::Queued)
    &&& forall|i: int|
        #![trigger sizes[i]]
        0 <= i < sizes.len() ==> {
            &&& 0 < sizes[i] <= states[i].send.buf.len()
            &&& states[i].replied(
                ReplyModel::Queued,
                Outcome::Ready(sizes[i]),
                states[i + 1],
                if i + 1 < sizes.len() {
                    SignalModel::Write(ReplyModel::Queued)
                } else {
                    signal
                },
            )
        }
}

/// The bytes that the IO takes in these writes.
pub open spec fn taken_in_writes(states: Seq<ConnModel>, sizes: Seq<usize>) -> Seq<u8>
    decreases sizes.len(),
{
    if sizes.len() == 0 {
        Seq::empty()
    } else {
        states[0].send.buf.take(sizes[0] as int) + taken_in_writes(
            states.drop_first(),
            sizes.drop_first(),
        )
    }
}

/// A pong that waits, whatever came between, is written by the next receiving call whose IO is
/// writable: the call asks for a write first, and goes on to ask for writes until the pong is out,
/// with what had been buffered before it. No flush and no further ping is needed.
pub proof fn law_waiting_pong_is_written(
    pre: ConnModel,
    first: SignalModel,
    states: Seq<ConnModel>,
    sizes: Seq<usize>,
    signal: SignalModel,
) -> (mask: Option<Seq<u8>>)
    requires
        pre.wf(),
        !pre.failed,
        pre.pending_error is None,
        pre.send.pong is Some,
        states.len() > 0,
        pre.polled(false, states[0], first),
        first == SignalModel::Write(ReplyModel::Queued) ==> written_out(states, sizes, signal),
    ensures
        first == SignalModel::Write(ReplyModel::Queued),
        taken_in_writes(states, sizes) == pre.send.buf + crate::send::frame_bytes(
            mask,
            OpCode::Pong,
            pre.send.pong->0,
        ),
{
    if pre.send.pong_due() {
        let mask = crate::send::lemma_pushed(
            SendModel { pong: None, ..pre.send },
            states[0].send,
            OpCode::Pong,
            pre.send.pong->0,
        );
        lemma_pong_written(states, sizes, signal);
        assert(taken_in_writes(states, sizes) =~= states[0].send.buf);
        mask
    } else {
        lemma_pong_written(states, sizes, signal)
    }
}

/// How far the buffer has been drained when a call that writes queued replies goes on.
proof fn lemma_queued_reply(
    pre: ConnModel,
    n: usize,
    post: ConnModel,
    signal: SignalModel,
) -> (send: SendModel)
    requires
        n > 0,
        pre.replied(ReplyModel::Queued, Outcome::Ready(n), post, signal),
    ensures
        if signal == SignalModel::Write(ReplyModel::Queued) {
            pre.send.drained(Outcome::Ready(n), send, Drain::Write) && post == (ConnModel {
                send,
                ..pre
            })
        } else {
            pre.send.drained(Outcome::Ready(n), send, Drain::Done)
        },
{
    let (send, drain) = choose|send: SendModel, drain: Drain|
        #[trigger] pre.send.drained(Outcome::Ready(n), send, drain) && (ConnModel {
            send,
            ..pre
        }).went_on(ReplyModel::Queued, drain, post, signal);
    send
}

proof fn lemma_pong_written(
    states: Seq<ConnModel>,
    sizes: Seq<usize>,
    signal: SignalModel,
) -> (mask: Option<Seq<u8>>)
    requires
        states.len() > 0,
        states[0].send.wf(),
        written_out(states, sizes, signal),
    ensures
        taken_in_writes(states, sizes) == states[0].send.buf + match states[0].send.pong {
            Some(payload) => crate::send::frame_bytes(mask, OpCode::Pong, payload),
            None => Seq::empty(),
        },
    decreases sizes.len(),
{
    let n = sizes[0];
    let first = states[0].send;
    let mid = SendModel { buf: first.buf.skip(n as int), ..first };
    let later = states.drop_first();
    let others = sizes.drop_first();
    assert(later[0] == states[1]);
    assert(first.buf.take(n as int) + first.buf.skip(n as int) =~= first.buf);
    if others.len() == 0 {
        let send = lemma_queued_reply(states[0], n, states[1], signal);
        assert(taken_in_writes(later, others) =~= Seq::<u8>::empty());
        assert(mid.buf.len() == 0);
        assert(taken_in_writes(states, sizes) =~= first.buf);
        None
    } else {
        let send = lemma_queued_reply(
            states[0],
            n,
            states[1],
            SignalModel::Write(ReplyModel::Queued),
        );
        law_writes_progress(first, n, send);
        assert forall|i: int| #![trigger others[i]] 0 <= i < others.len() implies {
            &&& 0 < others[i] <= later[i].send.buf.len()
            &&& later[i].replied(
                ReplyModel::Queued,
                Outcome::Ready(others[i]),
                later[i + 1],
                if i + 1 < others.len() {
                    SignalModel::Write(ReplyModel::Queued)
                } else {
                    signal
                },
            )
        } by {
            assert(others[i] == sizes[i + 1]);
            assert(later[i] == states[i + 1]);
            assert(later[i + 1] == states[i + 2]);
        }
        let mask = lemma_pong_written(later, others, signal);
        if mid.pong_due() {
            let drawn = crate::send::lemma_pushed(
                SendModel { pong: None, ..mid },
                send,
                OpCode::Pong,
                mid.pong->0,
            );
            assert(taken_in_writes(states, sizes) =~= first.buf + crate::send::frame_bytes(
                drawn,
                OpCode::Pong,
                mid.pong->0,
            ));
            drawn
        } else {
            assert(send == mid);
            match first.pong {
                Some(payload) => {
                    let frame = crate::send::frame_bytes(mask, OpCode::Pong, payload);
                    assert(taken_in_writes(states, sizes) =~= first.buf + frame);
                },
                None => {
                    assert(taken_in_writes(states, sizes) =~= first.buf);
                },
            }
            mask
        }
    }
}

proof fn lemma_advanced_room(
    pre: ConnModel,
    buffered_only: bool,
    post: ConnModel,
    signal: SignalModel,
)
    requires
        !pre.failed,
        receiving(pre) ==> pre.decoder.wf(),
        pre.advanced(buffered_only, post, signal),
    ensures
        held(post) <= held(pre),
{
    if receiving(pre) {
        crate::ws::read::lemma_run_len(pre.decoder, pre.rules(), buffered_only);
    }
}

/// How many bytes are held of what has arrived: those that are at hand, and the text that is being
/// assembled.
pub open spec fn held(conn: ConnModel) -> nat {
    conn.decoder.buf.len() + conn.decoder.text.len()
}

/// No more is held than has arrived, whatever is made of it: asking for events, writing replies and
/// taking what arrives add nothing to it.
pub proof fn law_room(pre: ConnModel, operation: Operation, post: ConnModel)
    requires
        pre.wf(),
        pre.open_to(operation),
        pre.performs(operation, post),
        operation is Poll || operation is Reply || operation is Arrive,
    ensures
        held(post) <= held(pre) + crate::ws::incoming::arrived_by(operation).len(),
{
    match operation {
        Operation::Poll { buffered_only, signal } => {
            if pre.pending_error is None && !pre.failed {
                if pre.send.control_pending && !buffered_only {
                    if !pre.send.pong_due() && pre.send.buf.len() == 0 {
                        let mid = ConnModel {
                            send: SendModel { control_pending: false, ..pre.send },
                            ..pre
                        };
                        lemma_advanced_room(mid, false, post, signal);
                    }
                } else {
                    lemma_advanced_room(pre, buffered_only, post, signal);
                }
            }
        },
        Operation::Reply { reply, outcome, signal } => {
            let (send, drain) = choose|send: SendModel, drain: Drain|
                #[trigger] pre.send.drained(outcome, send, drain) && (ConnModel {
                    send,
                    ..pre
                }).went_on(reply, drain, post, signal);
            if reply is Queued && (drain is Done || drain is Blocked) {
                lemma_advanced_room(ConnModel { send, ..pre }, false, post, signal);
            }
        },
        Operation::Arrive { data, signal } => {
            if data.len() > 0 {
                let mid = ConnModel { decoder: pre.decoder.with(data), ..pre };
                lemma_advanced_room(mid, false, post, signal);
            } else if pre.send.close_sent && pre.decoder.at_boundary() {
                let mid = ConnModel { close_received: Some(None), ..pre };
                lemma_advanced_room(mid, false, post, signal);
            }
        },
        _ => {},
    }
}

/// The peer's Close frame is reported again on every later call, once the replies that wait have
/// been written and the IO has been shut down after our Close frame. The IO is never shut down
/// twice.
pub proof fn law_close_reported_again(pre: ConnModel, post: ConnModel, signal: SignalModel)
    requires
        pre.wf(),
        !pre.failed,
        pre.pending_error is None,
        pre.close_received is Some,
        pre.polled(false, post, signal),
    ensures
        signal == if pre.send.control_pending && (pre.send.buf.len() > 0 || pre.send.pong is Some) {
            SignalModel::Write(ReplyModel::Queued)
        } else if !pre.send.close_sent || pre.shutdown_done {
            SignalModel::Closed(pre.reported_close())
        } else if pre.send.buf.len() > 0 {
            SignalModel::Write(ReplyModel::Close)
        } else {
            SignalModel::Shutdown
        },
        !post.failed,
        post.pending_error is None,
        post.close_received == pre.close_received,
        post.shutdown_done == pre.shutdown_done,
{
}

/// The same of a call that goes on after a reply has been written: it goes on to write, waits for a
/// blocked reply to the peer's Close frame, shuts the IO down if that has not been done, or reports
/// the peer's Close frame again. It fails only if the IO fails on replies that were queued before.
pub proof fn law_close_reported_after_replies(
    pre: ConnModel,
    reply: ReplyModel,
    outcome: Outcome,
    post: ConnModel,
    signal: SignalModel,
)
    requires
        pre.wf(),
        !pre.failed,
        pre.close_received is Some,
        reply is Queued || reply is Close,
        reply is Close ==> !pre.shutdown_done,
        pre.replied(reply, outcome, post, signal),
    ensures
        match signal {
            SignalModel::Write(r) => r == reply || r is Close && !pre.shutdown_done,
            SignalModel::Shutdown => !pre.shutdown_done,
            SignalModel::Closed(frame) => frame == pre.reported_close(),
            SignalModel::Pending => reply is Close && outcome is Pending,
            SignalModel::Failed(_) => reply is Queued && (outcome is Failed || outcome
                == Outcome::Ready(0)),
            _ => false,
        },
        post.failed <==> signal is Failed,
        post.close_received == pre.close_received,
        post.shutdown_done == pre.shutdown_done,
{
    let (send, drain) = choose|send: SendModel, drain: Drain|
        #[trigger] pre.send.drained(outcome, send, drain) && (ConnModel {
            send,
            ..pre
        }).went_on(reply, drain, post, signal);
}

/// A stream that ends without a close handshake is an error, and so is one that ends in the middle
/// of a frame, even if our Close frame has been queued: a truncated stream is always detected.
pub proof fn law_truncation_detected(pre: ConnModel, post: ConnModel, signal: SignalModel)
    requires
        !pre.send.close_sent || !pre.decoder.at_boundary(),
        pre.arrived(Seq::empty(), post, signal),
    ensures
        signal == SignalModel::Failed(WebSocketError::UnexpectedEof),
        post == (ConnModel { failed: true, ..pre }),
{
}

/// While payload of a data frame is missing, the end of the stream is an error, whether the IO was
/// read into the read buffer or straight into the caller's.
pub proof fn law_missing_payload_detected(
    pre: ConnModel,
    rounds: nat,
    dest: Seq<u8>,
    post: ConnModel,
    post_dest: Seq<u8>,
    post_filled: nat,
    step: ReadStep,
)
    requires
        pre.decoder.frame is Payload,
        0 < dest.len(),
        pre.reading_through(rounds, dest, Outcome::Ready(0), post, post_dest, post_filled, step),
    ensures
        step == ReadStep::Ready(Err(WebSocketError::UnexpectedEof)),
        post == (ConnModel { failed: true, ..pre }),
        post_dest == dest,
        post_filled == 0,
{
    let (mid, signal) = choose|mid: ConnModel, signal: SignalModel|
        #[trigger] pre.ended(mid, signal) && mid.read_signalled(
            rounds,
            signal,
            dest,
            0,
            post,
            post_dest,
            post_filled,
            step,
        );
}

/// Receiving never waits for a stalled write, but for the reply to the peer's Close frame: a ping
/// is reported, and a violation, though the IO does not take the answer.
pub proof fn law_reading_does_not_block(
    pre: ConnModel,
    reply: ReplyModel,
    post: ConnModel,
    signal: SignalModel,
)
    requires
        pre.replied(reply, Outcome::Pending, post, signal),
    ensures
        reply matches ReplyModel::Ping(payload) ==> post == pre && signal == SignalModel::Ping(
            payload,
        ),
        reply matches ReplyModel::Failure(error) ==> post == pre && signal == SignalModel::Failed(
            WebSocketError::Protocol(error),
        ),
        reply is Queued ==> pre.advanced(false, post, signal),
        reply is Close ==> post == pre && signal is Pending,
{
    let (send, drain) = choose|send: SendModel, drain: Drain|
        #[trigger] pre.send.drained(Outcome::Pending, send, drain) && (ConnModel {
            send,
            ..pre
        }).went_on(reply, drain, post, signal);
    assert(ConnModel { send, ..pre } == pre);
}

} // verus!
