//! What sending comes to: what is accepted, what is refused, and what the other side receives.
use crate::close::CloseModel;
use crate::config::Role;
use crate::error::WebSocketError;
use crate::frame::OpCode;
use crate::recv::log::{Item, Message};
use crate::recv::{DecoderModel, Rules};
use crate::send::{Outcome, SendModel};
use crate::ws::events::{io_error, stages};
use crate::ws::laws::other_side;
use crate::ws::operation::{sendable, Operation};
use crate::ws::outgoing::{idle, law_stream, Sent};
use crate::ws::transmit::{Ack, FlushStep, SendStep, WriteStep};
use crate::ws::ConnModel;
use vstd::prelude::*;

verus! {

/// Whether a write of `len` bytes accepts `n` of them: as many as a frame may carry.
pub open spec fn accepts(conn: ConnModel, len: nat, n: nat) -> bool {
    &&& n <= len
    &&& n <= conn.config.max_frame_size
    &&& n == len || n == conn.config.max_frame_size
}

/// Whether a frame with `n` bytes of payload goes to the IO straight from the caller's buffer: it
/// is sent as it is, the IO supports vectored writes, and it takes at least half the write buffer.
pub open spec fn goes_straight(conn: ConnModel, n: nat, vectored: bool) -> bool {
    &&& conn.role == Role::Server || conn.config.zero_mask_key
    &&& vectored
    &&& 2 * n + 1 >= conn.config.write_buffer_size
}

/// Whether there is room for a frame with `n` bytes of payload in the write buffer. One that holds
/// nothing takes any frame.
pub open spec fn has_room(conn: ConnModel, n: nat) -> bool {
    conn.send.buf.len() == 0 || conn.send.buf.len() + 14 + n <= conn.config.write_buffer_size
}

/// Whether a head is that of the binary frame for `data`, which goes out as it is.
pub open spec fn heads(conn: ConnModel, head: Seq<u8>, data: Seq<u8>) -> bool {
    let mask = if conn.config.zero_mask_key && conn.role == Role::Client {
        Some(seq![0u8, 0, 0, 0])
    } else {
        None
    };
    head + data == crate::send::frame_bytes(mask, OpCode::Binary, data)
}

/// How a write of binary data starts. It is refused once our Close frame has been queued, and is
/// over at once if it is empty. Otherwise as much as a frame may carry is appended to the write
/// buffer as one frame, if there is room, or goes straight to the IO. If neither, the buffer has to
/// be written first. Nothing is accepted then.
pub proof fn law_write(
    pre: ConnModel,
    data: Seq<u8>,
    vectored: bool,
    post: ConnModel,
    step: WriteStep,
    n: nat,
) -> (sent: Sent)
    requires
        pre.wf(),
        data.len() <= isize::MAX,
        accepts(pre, data.len(), n),
        pre.write_begun(post, data, vectored, step),
    ensures
        post.send.buf == pre.send.buf + sent.wire(),
        post == (ConnModel { send: post.send, ..pre }),
        post.send.control_pending == pre.send.control_pending,
        if pre.send.close_sent {
            step == WriteStep::Ready(Err(WebSocketError::Closed)) && post == pre
        } else if data.len() == 0 {
            step == WriteStep::Ready(Ok(0)) && post == pre
        } else if goes_straight(pre, n, vectored) {
            &&& step matches WriteStep::WriteVectored(head)
            &&& heads(pre, head@, data.take(n as int))
            &&& idle(pre.send, post.send, sent)
            &&& stages(pre.send, pre.send.buf.len() as int, post.send)
        } else if has_room(pre, n) {
            &&& step == WriteStep::Ready(Ok(n as usize))
            &&& sent matches Sent::Frame(_, Message::Binary(payload))
            &&& payload == data.take(n as int)
        } else {
            &&& step is Write
            &&& post.send.buf.len() > 0
            &&& idle(pre.send, post.send, sent)
            &&& stages(pre.send, pre.send.buf.len() as int, post.send)
        },
{
    let operation = Operation::Write { data, vectored, write_step: step };
    let sent = law_stream(pre, operation, post);
    assert(Seq::<u8>::empty() + post.send.buf =~= post.send.buf);
    assert(data.take(n as int) =~= pre.accepted(data));
    if !pre.send.close_sent && data.len() > 0 && goes_straight(pre, n, vectored) {
        assert(pre.send.writes_through(n, vectored));
        lemma_heads(pre, data.take(n as int));
    }
    sent
}

/// The head of a frame that goes out as it is, and its payload, are the frame.
proof fn lemma_heads(conn: ConnModel, data: Seq<u8>)
    requires
        conn.wf(),
        !(conn.send.keys is Random),
    ensures
        heads(conn, conn.direct_header(data.len()), data),
{
    crate::mask::law_zero_key(data, 0);
    assert(crate::mask::zero_key() =~= seq![0u8, 0, 0, 0]);
}

/// Whether the IO has taken all that had to be written.
pub open spec fn all_taken(send: SendModel, outcome: Outcome) -> bool {
    outcome matches Outcome::Ready(n) && n > 0 && n == send.buf.len() && send.pong is None
}

/// How a write goes on after the buffer has been written to the IO: once nothing is left, as much
/// data as a frame may carry is appended as one frame. Before that nothing is accepted.
pub proof fn law_write_resumed(
    pre: ConnModel,
    data: Seq<u8>,
    outcome: Outcome,
    post: ConnModel,
    step: WriteStep,
    n: nat,
) -> (sent: Sent)
    requires
        pre.wf(),
        accepts(pre, data.len(), n),
        pre.open_to(Operation::ResumeWrite { data, outcome, write_step: step }),
        pre.write_resumed(post, data, outcome, step),
    ensures
        post == (ConnModel { send: post.send, ..pre }),
        post.send.control_pending == (pre.send.control_pending && !all_taken(pre.send, outcome)),
        if all_taken(pre.send, outcome) {
            &&& step == WriteStep::Ready(Ok(n as usize))
            &&& sent matches Sent::Frame(_, Message::Binary(payload))
            &&& payload == data.take(n as int)
            &&& post.send.buf == sent.wire()
        } else {
            &&& idle(pre.send, post.send, sent)
            &&& match outcome {
                Outcome::Pending => step is Pending && post == pre,
                Outcome::Ready(k) if k > 0 => {
                    &&& step is Write
                    &&& post.send.buf == pre.send.buf.skip(k as int) + sent.wire()
                    &&& post.send.buf.len() > 0
                    &&& stages(pre.send, pre.send.buf.len() - k, post.send)
                },
                _ => step == WriteStep::Ready(Err(io_error(outcome))) && post == pre,
            }
        },
{
    let operation = Operation::ResumeWrite { data, outcome, write_step: step };
    let sent = law_stream(pre, operation, post);
    let (send, drain) = choose|send: SendModel, drain: crate::send::Drain|
        #[trigger] pre.send.drained(outcome, send, drain) && pre.write_resumed_after(
            send,
            drain,
            post,
            data,
            step,
        );
    crate::ws::events::lemma_drained_some(pre.send, outcome, send, drain);
    assert(data.take(n as int) =~= pre.accepted(data));
    lemma_handed_over(pre, operation, post, sent);
    sent
}

/// What is buffered is what was buffered and has not been taken, and what has been added.
proof fn lemma_handed_over(pre: ConnModel, operation: Operation, post: ConnModel, sent: Sent)
    requires
        crate::ws::outgoing::handed_over(pre, operation) + post.send.buf == pre.send.buf
            + sent.wire(),
        crate::ws::outgoing::handed_over(pre, operation).len() <= pre.send.buf.len(),
    ensures
        post.send.buf == pre.send.buf.skip(
            crate::ws::outgoing::handed_over(pre, operation).len() as int,
        ) + sent.wire(),
{
    let taken = crate::ws::outgoing::handed_over(pre, operation);
    assert((taken + post.send.buf).skip(taken.len() as int) =~= post.send.buf);
    assert((pre.send.buf + sent.wire()).skip(taken.len() as int) =~= pre.send.buf.skip(
        taken.len() as int,
    ) + sent.wire());
}

/// How a write goes on after a vectored write: once the IO has taken a byte of the new frame, all
/// of it is accepted, and what has not been taken is buffered. Before that nothing is accepted, and
/// the rest is to be written again.
pub proof fn law_write_vectored(
    pre: ConnModel,
    data: Seq<u8>,
    outcome: Outcome,
    post: ConnModel,
    step: WriteStep,
    n: nat,
) -> (r: (Seq<u8>, Sent))
    requires
        pre.wf(),
        accepts(pre, data.len(), n),
        pre.open_to(Operation::ResumeWriteVectored { data, outcome, write_step: step }),
        pre.directly_written(post, data, outcome, step),
    ensures
        heads(pre, r.0, data.take(n as int)),
        post == (ConnModel { send: post.send, ..pre }),
        post.send.close_sent == pre.send.close_sent,
        match outcome {
            Outcome::Pending => step is Pending && post == pre,
            Outcome::Ready(k) if k > pre.send.buf.len() => {
                &&& step == WriteStep::Ready(Ok(n as usize))
                &&& post.send.buf == (pre.send.buf + r.0 + data.take(n as int)).skip(k as int)
                &&& post.send.pong == pre.send.pong
                &&& post.send.keys == pre.send.keys
                &&& post.send.control_pending == (pre.send.control_pending
                    && pre.send.pong is Some)
            },
            Outcome::Ready(k) if k > 0 => {
                &&& step matches WriteStep::WriteVectored(head)
                &&& head@ == r.0
                &&& post.send.control_pending == pre.send.control_pending
                &&& idle(pre.send, post.send, r.1)
                &&& post.send.buf == pre.send.buf.skip(k as int) + r.1.wire()
                &&& stages(pre.send, pre.send.buf.len() - k, post.send)
            },
            _ => step == WriteStep::Ready(Err(io_error(outcome))) && post == pre,
        },
{
    let operation = Operation::ResumeWriteVectored { data, outcome, write_step: step };
    let sent = law_stream(pre, operation, post);
    let head = pre.direct_header(n);
    assert(data.take(n as int) =~= pre.accepted(data));
    lemma_heads(pre, data.take(n as int));
    assert(crate::mask::zero_key() =~= seq![0u8, 0, 0, 0]);
    assert(pre.send.buf + head + data.take(n as int) =~= pre.send.buf + (head + data.take(
        n as int,
    )));
    if let Outcome::Ready(k) = outcome {
        if 0 < k <= pre.send.buf.len() {
            assert((pre.send.buf + pre.direct_frame(data)).take(k as int) =~= pre.send.buf.take(
                k as int,
            ));
            lemma_handed_over(pre, operation, post, sent);
        }
    }
    (head, sent)
}

/// The message that a text, ping or pong frame carries.
pub open spec fn carried(opcode: OpCode, payload: Seq<u8>) -> Message {
    if opcode == OpCode::Text {
        Message::Text(payload)
    } else if opcode == OpCode::Ping {
        Message::Ping(payload)
    } else {
        Message::Pong(payload)
    }
}

/// How sending a text message, a ping or a pong starts. It is refused once our Close frame has been
/// queued, and so is a ping or a pong with more than 125 bytes. Otherwise the message is appended
/// to the write buffer as one frame, whatever its length, if there is room. If there is not, the
/// buffer has to be written first.
pub proof fn law_send(
    pre: ConnModel,
    opcode: OpCode,
    payload: Seq<u8>,
    post: ConnModel,
    step: SendStep,
) -> (sent: Sent)
    requires
        pre.wf(),
        sendable(opcode, payload),
        pre.send_begun(post, opcode, payload, step),
    ensures
        post.send.buf == pre.send.buf + sent.wire(),
        sent.valid(pre.role),
        post == (ConnModel { send: post.send, ..pre }),
        post.send.control_pending == pre.send.control_pending,
        if pre.send.close_sent {
            step == SendStep::Ready(Err(WebSocketError::Closed)) && post == pre
        } else if opcode != OpCode::Text && payload.len() > 125 {
            step == SendStep::Ready(Err(WebSocketError::ControlTooLarge)) && post == pre
        } else if has_room(pre, payload.len()) {
            &&& step == SendStep::Ready(Ok(()))
            &&& sent matches Sent::Frame(_, message)
            &&& message == carried(opcode, payload)
        } else {
            &&& step is Write
            &&& post.send.buf.len() > 0
            &&& idle(pre.send, post.send, sent)
            &&& stages(pre.send, pre.send.buf.len() as int, post.send)
        },
{
    let operation = Operation::Send { opcode, payload, send_step: step };
    let sent = law_stream(pre, operation, post);
    assert(Seq::<u8>::empty() + post.send.buf =~= post.send.buf);
    sent
}

/// How sending a message goes on after the buffer has been written to the IO: once nothing is left,
/// the message is appended as one frame. Before that it is not sent.
pub proof fn law_send_resumed(
    pre: ConnModel,
    opcode: OpCode,
    payload: Seq<u8>,
    outcome: Outcome,
    post: ConnModel,
    step: SendStep,
) -> (sent: Sent)
    requires
        pre.wf(),
        pre.open_to(Operation::ResumeSend { opcode, payload, outcome, send_step: step }),
        pre.send_resumed(post, opcode, payload, outcome, step),
    ensures
        post == (ConnModel { send: post.send, ..pre }),
        post.send.control_pending == (pre.send.control_pending && !all_taken(pre.send, outcome)),
        if all_taken(pre.send, outcome) {
            &&& step == SendStep::Ready(Ok(()))
            &&& sent matches Sent::Frame(_, message)
            &&& message == carried(opcode, payload)
            &&& post.send.buf == sent.wire()
        } else {
            &&& idle(pre.send, post.send, sent)
            &&& match outcome {
                Outcome::Pending => step is Pending && post == pre,
                Outcome::Ready(k) if k > 0 => {
                    &&& step is Write
                    &&& post.send.buf == pre.send.buf.skip(k as int) + sent.wire()
                    &&& post.send.buf.len() > 0
                    &&& stages(pre.send, pre.send.buf.len() - k, post.send)
                },
                _ => step == SendStep::Ready(Err(io_error(outcome))) && post == pre,
            }
        },
{
    let operation = Operation::ResumeSend { opcode, payload, outcome, send_step: step };
    let sent = law_stream(pre, operation, post);
    let (send, drain) = choose|send: SendModel, drain: crate::send::Drain|
        #[trigger] pre.send.drained(outcome, send, drain) && pre.send_resumed_after(
            send,
            drain,
            post,
            opcode,
            payload,
            step,
        );
    crate::ws::events::lemma_drained_some(pre.send, outcome, send, drain);
    lemma_handed_over(pre, operation, post, sent);
    sent
}

/// A message that is reported as sent is received by the other side as it is, whatever follows,
/// unless it is a text message that is too large for it.
pub proof fn law_message_received(
    pre: ConnModel,
    opcode: OpCode,
    payload: Seq<u8>,
    post: ConnModel,
    rules: Rules,
    tail: Seq<u8>,
) -> (frame: Seq<u8>)
    requires
        pre.wf(),
        sendable(opcode, payload),
        pre.send_begun(post, opcode, payload, SendStep::Ready(Ok(()))),
        other_side(pre.role, rules),
        payload.len() <= rules.max_message_size || opcode != OpCode::Text,
    ensures
        post.send.buf == pre.send.buf + frame,
        DecoderModel::start(frame + tail).log(rules) == seq![
            if opcode == OpCode::Text {
                Item::Text(payload)
            } else if opcode == OpCode::Ping {
                Item::Ping(payload)
            } else {
                Item::Pong(payload)
            },
        ] + DecoderModel::start(tail).log(rules),
{
    let sent = law_send(pre, opcode, payload, post, SendStep::Ready(Ok(())));
    if let Sent::Frame(mask, message) = sent {
        crate::recv::log::law_frame_received(rules, mask, message, tail);
    }
    sent.wire()
}

/// Data that is reported as written is received by the other side as one binary message, whatever
/// follows.
pub proof fn law_data_received(
    pre: ConnModel,
    data: Seq<u8>,
    vectored: bool,
    post: ConnModel,
    n: usize,
    rules: Rules,
    tail: Seq<u8>,
) -> (frame: Seq<u8>)
    requires
        pre.wf(),
        0 < data.len() <= isize::MAX,
        pre.write_begun(post, data, vectored, WriteStep::Ready(Ok(n))),
        other_side(pre.role, rules),
    ensures
        accepts(pre, data.len(), n as nat),
        post.send.buf == pre.send.buf + frame,
        DecoderModel::start(frame + tail).log(rules) == crate::recv::log::bytes(
            data.take(n as int),
        ) + seq![Item::End] + DecoderModel::start(tail).log(rules),
{
    let operation = Operation::Write { data, vectored, write_step: WriteStep::Ready(Ok(n)) };
    let most = if data.len() <= pre.config.max_frame_size {
        data.len()
    } else {
        pre.config.max_frame_size as nat
    };
    let checked = law_write(pre, data, vectored, post, WriteStep::Ready(Ok(n)), most);
    let sent = law_stream(pre, operation, post);
    assert(Seq::<u8>::empty() + post.send.buf =~= post.send.buf);
    if let Sent::Frame(mask, message) = sent {
        crate::recv::log::law_frame_received(rules, mask, message, tail);
    }
    sent.wire()
}

/// How closing starts. Once our Close frame has been queued, by whomever, what is buffered is
/// written. Otherwise the frame that was given is queued, unless its status code must not be sent,
/// or its reason takes more than 123 bytes.
pub proof fn law_close(
    pre: ConnModel,
    frame: Option<CloseModel>,
    post: ConnModel,
    step: FlushStep,
) -> (sent: Sent)
    requires
        pre.wf(),
        pre.open_to(Operation::Close { frame, flush_step: step }),
        pre.close_begun(post, frame, step),
    ensures
        post.send.buf == pre.send.buf + sent.wire(),
        sent.valid(pre.role),
        post == (ConnModel { send: post.send, ..pre }),
        post.send.control_pending == (pre.send.control_pending && !(step is Flush)),
        if pre.send.close_sent {
            &&& sent is Nothing
            &&& post.send.close_sent
            &&& step == if pre.send.buf.len() > 0 {
                FlushStep::Write
            } else {
                FlushStep::Flush
            }
        } else if frame is Some && !code_allowed(frame->0.code.0) {
            &&& step == FlushStep::Ready(Err(WebSocketError::CloseCode(frame->0.code)))
            &&& post == pre
        } else if frame is Some && frame->0.reason.len() > 123 {
            step == FlushStep::Ready(Err(WebSocketError::CloseReason)) && post == pre
        } else {
            &&& step is Write
            &&& sent matches Sent::Close(_, queued)
            &&& queued == frame
            &&& post.send.close_sent
            &&& post.send.pong is None
        },
{
    let operation = Operation::Close { frame, flush_step: step };
    let sent = law_stream(pre, operation, post);
    assert(Seq::<u8>::empty() + post.send.buf =~= post.send.buf);
    assert(pre.send.buf + Seq::<u8>::empty() =~= pre.send.buf);
    if !pre.send.close_sent && !(step is Ready) {
        let mask = crate::send::lemma_pushed(
            SendModel { pong: None, close_sent: true, ..pre.send },
            post.send,
            OpCode::Close,
            crate::close::close_payload(frame),
        );
    }
    sent
}

/// The status codes that may appear on the wire.
pub open spec fn code_allowed(code: u16) -> bool {
    1000 <= code < 5000 && !(1003 < code < 1007) && !(1014 < code < 3000)
}

/// The Close frame that was given is the one that the other side receives, whatever follows. It is
/// the last thing that it receives.
pub proof fn law_given_close_received(
    pre: ConnModel,
    frame: Option<CloseModel>,
    post: ConnModel,
    step: FlushStep,
    rules: Rules,
    tail: Seq<u8>,
) -> (wire: Seq<u8>)
    requires
        pre.wf(),
        !pre.send.close_sent,
        pre.open_to(Operation::Close { frame, flush_step: step }),
        pre.close_begun(post, frame, step),
        post.send.close_sent,
        other_side(pre.role, rules),
    ensures
        post.send.buf == pre.send.buf + wire,
        DecoderModel::start(wire + tail).log(rules) == seq![Item::Close(frame)],
{
    let sent = law_close(pre, frame, post, step);
    if let Sent::Close(mask, queued) = sent {
        crate::recv::log::law_close_received(rules, mask, queued, tail);
    }
    sent.wire()
}

/// A flush asks for writes as long as there is anything to be written, a pong that waits included,
/// and then for a flush of the IO.
pub proof fn law_flush(pre: ConnModel, post: ConnModel, step: FlushStep) -> (sent: Sent)
    requires
        pre.wf(),
        pre.flush_begun(post, step),
    ensures
        post.send.buf == pre.send.buf + sent.wire(),
        idle(pre.send, post.send, sent),
        post == (ConnModel { send: post.send, ..pre }),
        post.send.control_pending == (pre.send.control_pending && !(step is Flush)),
        if pre.send.buf.len() > 0 || pre.send.pong is Some {
            &&& step is Write
            &&& post.send.buf.len() > 0
            &&& stages(pre.send, pre.send.buf.len() as int, post.send)
        } else {
            step is Flush && post.send.buf.len() == 0 && !post.send.control_pending
        },
{
    let sent = law_stream(pre, Operation::Flush { flush_step: step }, post);
    assert(Seq::<u8>::empty() + post.send.buf =~= post.send.buf);
    let drain = choose|drain: crate::send::Drain|
        #[trigger] pre.send.draining(post.send, drain) && step == ConnModel::flush_step(drain);
    crate::ws::events::lemma_draining_some(pre.send, post.send, drain);
    sent
}

/// The same of a flush that goes on after the buffer has been written to the IO.
pub proof fn law_flush_resumed(
    pre: ConnModel,
    outcome: Outcome,
    post: ConnModel,
    step: FlushStep,
) -> (sent: Sent)
    requires
        pre.wf(),
        outcome matches Outcome::Ready(n) ==> n <= pre.send.buf.len(),
        pre.flush_resumed(post, outcome, step),
    ensures
        idle(pre.send, post.send, sent),
        post == (ConnModel { send: post.send, ..pre }),
        post.send.control_pending == (pre.send.control_pending && !(step is Flush)),
        if all_taken(pre.send, outcome) {
            step is Flush && post.send.buf.len() == 0 && !post.send.control_pending
        } else {
            match outcome {
                Outcome::Pending => step is Pending && post == pre,
                Outcome::Ready(k) if k > 0 => {
                    &&& step is Write
                    &&& post.send.buf == pre.send.buf.skip(k as int) + sent.wire()
                    &&& post.send.buf.len() > 0
                    &&& stages(pre.send, pre.send.buf.len() - k, post.send)
                },
                _ => step == FlushStep::Ready(Err(io_error(outcome))) && post == pre,
            }
        },
{
    let operation = Operation::ResumeFlush { outcome, flush_step: step };
    let sent = law_stream(pre, operation, post);
    let drain = choose|drain: crate::send::Drain|
        #[trigger] pre.send.drained(outcome, post.send, drain) && step == ConnModel::flush_step(
            drain,
        );
    crate::ws::events::lemma_drained_some(pre.send, outcome, post.send, drain);
    lemma_handed_over(pre, operation, post, sent);
    sent
}

/// A flush is over once the IO has been flushed, or has failed.
pub proof fn law_flush_ends(ack: Ack)
    ensures
        ConnModel::flush_acked(ack) == FlushStep::Ready(Ok(())) <==> ack == Ack::Done,
        ConnModel::flush_acked(ack) == FlushStep::Ready(Err(WebSocketError::Io)) <==> ack
            == Ack::Failed,
        ConnModel::flush_acked(ack) == FlushStep::Pending <==> ack == Ack::Pending,
{
}

/// Closing is over once the IO has been flushed, without the peer's Close frame. With it the IO is
/// shut down, unless that has been done, and whether that succeeds does not matter.
pub proof fn law_close_ends(pre: ConnModel, ack: Ack, post: ConnModel)
    requires
        pre.performs(Operation::ShutDown { ack }, post),
    ensures
        pre.close_acked(Ack::Failed) == FlushStep::Ready(Err(WebSocketError::Io)),
        pre.close_acked(Ack::Pending) == FlushStep::Pending,
        pre.close_received is None || pre.shutdown_done ==> pre.close_acked(Ack::Done)
            == FlushStep::Ready(Ok(())),
        pre.close_received is Some && !pre.shutdown_done ==> pre.close_acked(Ack::Done)
            == FlushStep::Shutdown,
        ack == Ack::Pending ==> post == pre && ConnModel::close_ended(ack) == FlushStep::Pending,
        ack != Ack::Pending ==> post == (ConnModel { shutdown_done: true, ..pre })
            && ConnModel::close_ended(ack) == FlushStep::Ready(Ok(())) && post.close_acked(
            Ack::Done,
        ) == FlushStep::Ready(Ok(())),
{
}

/// Shutting down always succeeds to queue a Close frame, if ours has not been queued before, and
/// the other side receives it: its status code is 1000, and it gives no reason.
pub proof fn law_shutdown_received(
    pre: ConnModel,
    post: ConnModel,
    step: FlushStep,
    rules: Rules,
    tail: Seq<u8>,
) -> (wire: Seq<u8>)
    requires
        pre.wf(),
        !pre.send.close_sent,
        pre.shutdown_begun(post, step),
        other_side(pre.role, rules),
    ensures
        step is Write,
        post.send.close_sent,
        post.send.buf == pre.send.buf + wire,
        ({
            &&& DecoderModel::start(wire + tail).log(rules).len() == 1
            &&& DecoderModel::start(wire + tail).log(rules)[0] matches Item::Close(Some(frame))
            &&& frame.code.0 == 1000
            &&& frame.reason.len() == 0
        }),
{
    let frame = Some(CloseModel { code: crate::close::CloseCode(1000), reason: Seq::empty() });
    assert(vstd::utf8::valid_utf8(Seq::<u8>::empty()));
    let sent = law_close(pre, frame, post, step);
    law_given_close_received(pre, frame, post, step, rules, tail)
}

} // verus!
