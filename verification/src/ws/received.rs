//! What receiving an event comes to, in terms of the incoming stream.
use crate::error::WebSocketError;
use crate::recv::log::{end_if, Item};
use crate::recv::Recv;
use crate::send::Outcome;
use crate::ws::deliver::RecvStep;
use crate::ws::events::{blamed, law_arrive, law_end, law_poll, law_reply, lemma_takes_unique};
use crate::ws::incoming::{
    interrupts, law_received, lemma_takes_nothing, lemma_takes_on, receives, takes,
};
use crate::ws::kept::receiving;
use crate::ws::laws::to_come;
use crate::ws::operation::Operation;
use crate::ws::outgoing::{accounts_for, answers, gives_up, sends, Sent};
use crate::ws::receive::{ReplyModel, SignalModel};
use crate::ws::transmit::Ack;
use crate::ws::ConnModel;
use bytes::Bytes;
use vstd::prelude::*;

verus! {

/// The binary data that a step hands to the caller in the buffer, which holds `filled`.
pub open spec fn data_in(filled: Seq<u8>, step: RecvStep<usize>) -> Seq<u8> {
    match step {
        RecvStep::Ready(Ok(Recv::Binary { data, .. })) => filled.take(data as int),
        _ => Seq::empty(),
    }
}

/// The binary data that a step hands to the caller.
pub open spec fn data_of(step: RecvStep<Bytes>) -> Seq<u8> {
    match step {
        RecvStep::Ready(Ok(Recv::Binary { data, .. })) => crate::buffer::bytes_of(data),
        _ => Seq::empty(),
    }
}

/// Whether a step reports what has been taken of the incoming stream: a piece of a binary message,
/// and whether that ends it, or one event. What is answered is reported after the answer has been
/// written.
pub open spec fn recv_tells<B>(
    pre: ConnModel,
    items: Seq<Item>,
    post: ConnModel,
    data: Seq<u8>,
    step: RecvStep<B>,
) -> bool {
    let pongs = pre.config.auto_pong && !pre.send.close_sent;
    match step {
        RecvStep::Ready(Ok(Recv::Binary { end_of_message, .. })) => {
            items == crate::recv::log::bytes(data) + end_if(end_of_message)
        },
        RecvStep::Ready(Ok(Recv::Text(text))) => items == seq![Item::Text(text@)],
        RecvStep::Ready(Ok(Recv::Ping(payload))) => {
            &&& !pongs
            &&& items == seq![Item::Ping(crate::buffer::bytes_of(payload))]
        },
        RecvStep::Ready(Ok(Recv::Pong(payload))) => items == seq![
            Item::Pong(crate::buffer::bytes_of(payload)),
        ],
        RecvStep::Ready(Ok(Recv::Close(frame))) => {
            &&& post.close_received == Some(crate::close::close_model(frame))
            &&& !post.send.close_sent || post.shutdown_done
            &&& items.len() > 0 ==> items == seq![Item::Close(crate::close::close_model(frame))]
        },
        RecvStep::Ready(Err(error)) => blamed(pre, items, error),
        RecvStep::Read => {
            &&& items.len() == 0
            &&& receiving(post)
            &&& to_come(post, Seq::empty()).len() == 0
        },
        RecvStep::ReadThrough(_) => {
            &&& items.len() == 0
            &&& post.in_binary()
            &&& post.decoder.buf.len() == 0
        },
        RecvStep::Write(reply) => {
            &&& post.send.buf.len() > 0
            &&& match reply@ {
                ReplyModel::Queued => items.len() == 0 && !post.failed,
                ReplyModel::Ping(payload) => pongs && items == seq![Item::Ping(payload)],
                ReplyModel::Failure(violation) => {
                    &&& post.failed
                    &&& items == seq![Item::Violation(violation)]
                },
                ReplyModel::Close => {
                    &&& post.close_received is Some
                    &&& post.send.close_sent
                    &&& !post.shutdown_done
                    &&& items.len() > 0 ==> items == seq![Item::Close(post.close_received->0)]
                },
            }
        },
        RecvStep::Shutdown => {
            &&& post.close_received is Some
            &&& post.send.close_sent
            &&& post.send.buf.len() == 0
            &&& !post.shutdown_done
            &&& items.len() > 0 ==> items == seq![Item::Close(post.close_received->0)]
        },
        RecvStep::Pending => false,
    }
}

/// What a signal comes to for a caller with a buffer.
///
/// Of binary data that is at hand as much is handed out as fits, up to the end of the frame. If
/// none is at hand, the IO is read, straight into the buffer if at least half a read buffer is
/// expected and fits. Anything else is passed on as it is.
pub proof fn law_deliver(
    pre: ConnModel,
    signal: SignalModel,
    dest: Seq<u8>,
    post: ConnModel,
    filled: Seq<u8>,
    step: RecvStep<usize>,
) -> (items: Seq<Item>)
    requires
        pre.wf(),
        dest.len() <= usize::MAX,
        signal is Binary ==> pre.in_binary(),
        pre.delivered(signal, dest, post, filled, step),
    ensures
        takes(pre, Seq::empty(), items, post),
        post == (ConnModel { decoder: post.decoder, ..pre }),
        filled.len() == dest.len(),
        filled.skip(data_in(filled, step).len() as int) == dest.skip(
            data_in(filled, step).len() as int,
        ),
        match signal {
            SignalModel::Binary => if dest.len() == 0 {
                &&& step == RecvStep::Ready(
                    Ok(Recv::Binary { data: 0usize, end_of_message: false }),
                )
                &&& items.len() == 0
            } else if pre.decoder.buf.len() > 0 {
                &&& step matches RecvStep::Ready(Ok(Recv::Binary { data, end_of_message }))
                &&& 0 < data <= dest.len()
                &&& items == crate::recv::log::bytes(filled.take(data as int)) + end_if(
                    end_of_message,
                )
                &&& data == dest.len() || post.decoder.buf.len() == 0
                    || post.decoder.frame is Header
            } else {
                &&& items.len() == 0
                &&& match step {
                    RecvStep::ReadThrough(n) => {
                        &&& pre.config.read_buffer_size / 2 <= n <= pre.decoder.frame.left()
                        &&& n == dest.len() || n == pre.decoder.frame.left() && n < dest.len()
                    },
                    RecvStep::Read => dest.len() < pre.config.read_buffer_size / 2
                        || pre.decoder.frame.left() < pre.config.read_buffer_size / 2,
                    _ => false,
                }
            },
            SignalModel::Empty => {
                &&& step == RecvStep::Ready(
                    Ok(Recv::Binary { data: 0usize, end_of_message: true }),
                )
                &&& items.len() == 0
            },
            _ => items.len() == 0 && passes_on(signal, step),
        },
{
    assert(filled.take(0) =~= Seq::<u8>::empty());
    if signal is Binary && dest.len() > 0 && pre.decoder.buf.len() > 0 {
        let n = pre.deliverable(dest.len());
        let data = pre.decoder.revealed(n);
        let items = crate::recv::log::bytes(data) + end_if(pre.ends_after(n));
        assert(filled.take(n as int) =~= data);
        assert(filled.skip(n as int) =~= dest.skip(n as int));
        assert forall|more: Seq<u8>|
            #![trigger to_come(post, more)]
            to_come(pre, Seq::<u8>::empty() + more) == items + to_come(post, more) by {
            assert(Seq::<u8>::empty() + more =~= more);
            crate::recv::log::law_taken_then_arrives(pre.decoder, pre.rules(), n, more);
        }
        items
    } else {
        lemma_takes_nothing(pre, post);
        Seq::empty()
    }
}

/// Whether a step passes on what a signal says that carries no binary data.
pub open spec fn passes_on<B>(signal: SignalModel, step: RecvStep<B>) -> bool {
    match step {
        RecvStep::Write(reply) => signal == SignalModel::Write(reply@),
        RecvStep::Read => signal is Read,
        RecvStep::ReadThrough(_) => false,
        RecvStep::Shutdown => signal is Shutdown,
        RecvStep::Pending => signal is Pending,
        RecvStep::Ready(Err(error)) => signal == SignalModel::Failed(error),
        RecvStep::Ready(Ok(Recv::Binary { .. })) => false,
        RecvStep::Ready(Ok(Recv::Text(text))) => signal == SignalModel::Text(text@),
        RecvStep::Ready(Ok(Recv::Ping(payload))) => signal == SignalModel::Ping(
            crate::buffer::bytes_of(payload),
        ),
        RecvStep::Ready(Ok(Recv::Pong(payload))) => signal == SignalModel::Pong(
            crate::buffer::bytes_of(payload),
        ),
        RecvStep::Ready(Ok(Recv::Close(frame))) => signal == SignalModel::Closed(
            crate::close::close_model(frame),
        ),
    }
}

/// What a signal comes to for a caller who takes binary data as it was read: all of it that is at
/// hand, up to the end of the frame.
pub proof fn law_deliver_bytes(
    pre: ConnModel,
    signal: SignalModel,
    post: ConnModel,
    step: RecvStep<Bytes>,
) -> (items: Seq<Item>)
    requires
        pre.wf(),
        signal is Binary ==> pre.in_binary(),
        pre.delivered_bytes(signal, post, step),
    ensures
        takes(pre, Seq::empty(), items, post),
        post == (ConnModel { decoder: post.decoder, ..pre }),
        match signal {
            SignalModel::Binary => if pre.decoder.buf.len() > 0 {
                &&& step matches RecvStep::Ready(Ok(Recv::Binary { data, end_of_message }))
                &&& crate::buffer::bytes_of(data).len() > 0
                &&& items == crate::recv::log::bytes(crate::buffer::bytes_of(data)) + end_if(
                    end_of_message,
                )
                &&& post.decoder.buf.len() == 0 || post.decoder.frame is Header
            } else {
                step is Read && items.len() == 0
            },
            SignalModel::Empty => {
                &&& step matches RecvStep::Ready(Ok(Recv::Binary { data, end_of_message }))
                &&& crate::buffer::bytes_of(data).len() == 0
                &&& end_of_message
                &&& items.len() == 0
            },
            _ => items.len() == 0 && passes_on(signal, step),
        },
{
    if signal is Binary && pre.decoder.buf.len() > 0 {
        let n = crate::recv::least(pre.decoder.frame.left(), pre.decoder.buf.len());
        let data = pre.decoder.revealed(n);
        let items = crate::recv::log::bytes(data) + end_if(pre.ends_after(n));
        assert forall|more: Seq<u8>|
            #![trigger to_come(post, more)]
            to_come(pre, Seq::<u8>::empty() + more) == items + to_come(post, more) by {
            assert(Seq::<u8>::empty() + more =~= more);
            crate::recv::log::law_taken_then_arrives(pre.decoder, pre.rules(), n, more);
        }
        items
    } else {
        lemma_takes_nothing(pre, post);
        Seq::empty()
    }
}

/// A piece of a binary message that the IO has read straight into the caller's buffer is what comes
/// first in the incoming stream, and its end is reported with the piece that ends it.
pub proof fn law_recv_through(
    pre: ConnModel,
    dest: Seq<u8>,
    n: usize,
    post: ConnModel,
    filled: Seq<u8>,
    step: RecvStep<usize>,
    more: Seq<u8>,
)
    requires
        pre.wf(),
        0 < n,
        pre.open_to_direct_read(dest, Outcome::Ready(n)),
        pre.delivered_through(dest, Outcome::Ready(n), post, filled, step),
    ensures
        post == (ConnModel { decoder: post.decoder, ..pre }),
        filled.len() == dest.len(),
        filled.skip(n as int) == dest.skip(n as int),
        ({
            &&& step matches RecvStep::Ready(Ok(Recv::Binary { data, end_of_message }))
            &&& data == n
            &&& to_come(pre, dest.take(n as int) + more) == crate::recv::log::bytes(
                filled.take(data as int),
            ) + end_if(end_of_message) + to_come(post, more)
        }),
{
    let wire = dest.take(n as int);
    assert(filled.take(n as int) =~= pre.decoder.frame.reveals(wire));
    assert(filled.skip(n as int) =~= dest.skip(n as int));
    crate::recv::log::law_read_directly_then_arrives(pre.decoder, pre.rules(), wire, more);
}

/// What such a read comes to if the IO gives nothing: it is waited for, or receiving fails. The end
/// of the stream is an error as payload is missing.
pub proof fn law_recv_through_without_data(
    pre: ConnModel,
    dest: Seq<u8>,
    outcome: Outcome,
    post: ConnModel,
    filled: Seq<u8>,
    step: RecvStep<usize>,
)
    requires
        pre.open_to_direct_read(dest, outcome),
        pre.delivered_through(dest, outcome, post, filled, step),
        outcome matches Outcome::Ready(n) ==> n == 0,
    ensures
        filled == dest,
        post == (ConnModel { failed: outcome is Ready, ..pre }),
        match outcome {
            Outcome::Pending => step is Pending,
            Outcome::Failed => step == RecvStep::<usize>::Ready(Err(WebSocketError::Io)),
            Outcome::Ready(_) => step == RecvStep::<usize>::Ready(
                Err(WebSocketError::UnexpectedEof),
            ),
        },
{
    if outcome is Ready {
        let (mid, signal) = choose|mid: ConnModel, signal: SignalModel|
            #[trigger] pre.ended(mid, signal) && mid.delivered(signal, dest, post, filled, step);
    }
}

/// Receiving an event reports what comes first in the incoming stream, takes exactly that, and
/// answers it.
pub proof fn law_recv(
    pre: ConnModel,
    dest: Seq<u8>,
    mid: ConnModel,
    signal: SignalModel,
    post: ConnModel,
    filled: Seq<u8>,
    step: RecvStep<usize>,
) -> (r: (Seq<Item>, Sent))
    requires
        pre.wf(),
        0 < dest.len() <= usize::MAX,
        pre.polled(false, mid, signal),
        mid.delivered(signal, dest, post, filled, step),
    ensures
        takes(pre, Seq::empty(), r.0, post),
        recv_tells(pre, r.0, post, data_in(filled, step), step),
        accounts_for(pre, pre.send, post.send, r.1),
        answers(pre.config, pre.send, r.0, post.send, r.1),
{
    let (first, sent) = law_poll(pre, false, mid, signal);
    if signal is Binary {
        crate::ws::read::lemma_polled_passes(pre, false, mid, signal);
        let others = law_deliver(mid, signal, dest, post, filled, step);
        lemma_takes_on(pre, Seq::empty(), first, mid, others, post);
        assert(first + others =~= others);
        lemma_binary_answered(pre, mid, others);
        if mid.decoder.buf.len() == 0 {
            crate::recv::log::law_arrives_piecewise(mid.decoder, Seq::empty(), Seq::empty());
            assert(mid.decoder.log(mid.rules()) =~= Seq::<Item>::empty());
        }
        assert(pre.send.buf + Seq::<u8>::empty() =~= pre.send.buf);
        (others, Sent::Nothing)
    } else {
        lemma_takes_nothing(mid, post);
        lemma_takes_on(pre, Seq::empty(), first, mid, Seq::empty(), post);
        assert(first + Seq::<Item>::empty() =~= first);
        assert(filled.take(0) =~= Seq::<u8>::empty());
        assert(crate::recv::log::bytes(Seq::empty()) + end_if(true) =~= seq![Item::End]);
        (first, sent)
    }
}

/// The same of receiving an event with binary data as it was read.
pub proof fn law_recv_bytes(
    pre: ConnModel,
    mid: ConnModel,
    signal: SignalModel,
    post: ConnModel,
    step: RecvStep<Bytes>,
) -> (r: (Seq<Item>, Sent))
    requires
        pre.wf(),
        pre.polled(false, mid, signal),
        mid.delivered_bytes(signal, post, step),
    ensures
        takes(pre, Seq::empty(), r.0, post),
        recv_tells(pre, r.0, post, data_of(step), step),
        accounts_for(pre, pre.send, post.send, r.1),
        answers(pre.config, pre.send, r.0, post.send, r.1),
{
    let (first, sent) = law_poll(pre, false, mid, signal);
    if signal is Binary {
        crate::ws::read::lemma_polled_passes(pre, false, mid, signal);
        let others = law_deliver_bytes(mid, signal, post, step);
        lemma_takes_on(pre, Seq::empty(), first, mid, others, post);
        assert(first + others =~= others);
        lemma_binary_answered(pre, mid, others);
        if mid.decoder.buf.len() == 0 {
            crate::recv::log::law_arrives_piecewise(mid.decoder, Seq::empty(), Seq::empty());
            assert(mid.decoder.log(mid.rules()) =~= Seq::<Item>::empty());
        }
        assert(pre.send.buf + Seq::<u8>::empty() =~= pre.send.buf);
        (others, Sent::Nothing)
    } else {
        lemma_takes_nothing(mid, post);
        lemma_takes_on(pre, Seq::empty(), first, mid, Seq::empty(), post);
        assert(first + Seq::<Item>::empty() =~= first);
        assert(crate::recv::log::bytes(Seq::empty()) + end_if(true) =~= seq![Item::End]);
        (first, sent)
    }
}

/// Binary data is not answered.
proof fn lemma_binary_answered(pre: ConnModel, post: ConnModel, items: Seq<Item>)
    requires
        post.send.keys == pre.send.keys,
        post.send.pong == pre.send.pong,
        post.send.close_sent == pre.send.close_sent,
        items.len() > 0 ==> items.last() is Byte || items.last() is End,
        forall|i: int| #![trigger items[i]] 0 <= i < items.len() ==> items[i] is Byte
            || items[i] is End,
    ensures
        answers(pre.config, pre.send, items, post.send, Sent::Nothing),
{
}

/// Whatever comes from the peer is answered as it has to be, by the operation that takes it: every
/// ping with a pong that carries its payload, the peer's Close frame with its status code, and a
/// violation with the status code that fits it. Nothing is sent otherwise but a pong that has been
/// waiting, and that one once.
pub proof fn law_answered(pre: ConnModel, operation: Operation, post: ConnModel) -> (r: (
    Seq<Item>,
    Sent,
))
    requires
        pre.wf(),
        pre.open_to(operation),
        pre.performs(operation, post),
        operation is Poll || operation is Reply || operation is Arrive || operation is Read,
        !gives_up(operation),
    ensures
        receives(pre, operation, post, r.0),
        sends(pre, operation, post, r.1),
        answers(pre.config, pre.send, r.0, post.send, r.1),
{
    let others = law_received(pre, operation, post);
    assert(Seq::<u8>::empty() + post.send.buf =~= post.send.buf);
    match operation {
        Operation::Poll { buffered_only, signal } => {
            let (items, sent) = law_poll(pre, buffered_only, post, signal);
            lemma_takes_unique(pre, Seq::empty(), items, others, post);
            (items, sent)
        },
        Operation::Reply { reply, outcome, signal } => {
            let (items, sent) = law_reply(pre, reply, outcome, post, signal);
            if interrupts(operation) {
                assert(items =~= others);
            } else {
                lemma_takes_unique(pre, Seq::empty(), items, others, post);
            }
            (items, sent)
        },
        Operation::Arrive { data, signal } => if data.len() == 0 {
            let sent = law_end(pre, post, signal);
            (others, sent)
        } else {
            let (items, sent) = law_arrive(pre, data, post, signal);
            lemma_takes_unique(pre, data, items, others, post);
            (items, sent)
        },
        Operation::Read { rounds, dest, post_dest, post_filled, read_step } => {
            let (items, sent) = crate::ws::reads::law_read(
                pre,
                rounds,
                dest,
                0,
                post,
                post_dest,
                post_filled,
                read_step,
            );
            lemma_takes_unique(pre, Seq::empty(), items, others, post);
            (items, sent)
        },
        _ => (others, Sent::Nothing),
    }
}

/// Once the IO has been shut down after both Close frames, or could not be, the peer's Close frame
/// is reported, and is what every later call reports.
pub proof fn law_shut_down(
    pre: ConnModel,
    ack: Ack,
    post: ConnModel,
    later: ConnModel,
    signal: SignalModel,
)
    requires
        pre.wf(),
        !pre.failed,
        pre.pending_error is None,
        pre.open_to(Operation::ShutDown { ack }),
        pre.performs(Operation::ShutDown { ack }, post),
        post.send.buf.len() == 0,
        post.polled(false, later, signal),
    ensures
        ack == Ack::Pending ==> post == pre && pre.shut_down_signal(ack) == SignalModel::Pending,
        ack != Ack::Pending ==> {
            &&& post == (ConnModel { shutdown_done: true, ..pre })
            &&& pre.shut_down_signal(ack) == SignalModel::Closed(pre.close_received->0)
            &&& signal == SignalModel::Closed(pre.close_received->0)
            &&& later.shutdown_done
        },
{
}

/// A read that gives nothing changes nothing: it is waited for, or its failure is reported.
pub proof fn law_missed(pre: ConnModel, io_failed: bool, post: ConnModel, signal: SignalModel)
    requires
        pre.missed(io_failed, post, signal),
    ensures
        post == pre,
        io_failed ==> signal == SignalModel::Failed(WebSocketError::Io),
        !io_failed ==> signal == SignalModel::Pending,
{
}

/// Binary data is handed out at once exactly if it is what receiving an event would hand out.
pub proof fn law_hands_out(pre: ConnModel, dest: Seq<u8>)
    requires
        pre.wf(),
        dest.len() <= usize::MAX,
    ensures
        pre.hands_out(dest.len()) <==> {
            &&& pre.pending_error is None
            &&& !pre.send.control_pending
            &&& pre.polled(false, pre, SignalModel::Binary)
            &&& pre.decoder.buf.len() > 0
            &&& dest.len() > 0
        },
{
    crate::ws::receive::lemma_run_binary(pre.decoder, pre.rules(), false);
    if receiving(pre) {
        crate::recv::log::law_run(pre.decoder, pre.rules(), false);
    }
}

} // verus!
