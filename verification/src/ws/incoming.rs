//! What a connection receives, however the incoming stream arrives and however it is taken.
//!
//! Each operation takes what comes first in the meaning of the incoming stream, and leaves the rest
//! of it, whatever arrives later. What it puts into the caller's buffer are the binary bytes among
//! that, in order.
use crate::recv::log::{binary, end_if, Item};
use crate::recv::Recv;
use crate::send::{Drain, Outcome, SendModel};
use crate::ws::deliver::RecvStep;
use crate::ws::kept::{continues, receiving};
use crate::ws::laws::{signalled, to_come};
use crate::ws::operation::Operation;
use crate::ws::read::{passes, ReadStep};
use crate::ws::receive::{ReplyModel, SignalModel};
use crate::ws::ConnModel;
use vstd::prelude::*;

verus! {

/// The bytes of the incoming stream that arrive with an operation.
pub open spec fn arrived_by(operation: Operation) -> Seq<u8> {
    match operation {
        Operation::Arrive { data, .. } => data,
        Operation::RecvThrough { dest, outcome: Outcome::Ready(n), .. } | Operation::ReadThrough {
            dest,
            outcome: Outcome::Ready(n),
            ..
        } => dest.take(n as int),
        _ => Seq::empty(),
    }
}

/// The binary data that an operation hands to the caller.
pub open spec fn delivered_by(operation: Operation) -> Seq<u8> {
    match operation {
        Operation::Deliver {
            post_dest,
            recv_step: RecvStep::Ready(Ok(Recv::Binary { data, .. })),
            ..
        }
        | Operation::RecvThrough {
            post_dest,
            recv_step: RecvStep::Ready(Ok(Recv::Binary { data, .. })),
            ..
        } => post_dest.take(data as int),
        Operation::DeliverBytes {
            bytes_step: RecvStep::Ready(Ok(Recv::Binary { data, .. })),
            ..
        } => crate::buffer::bytes_of(data),
        Operation::Read { post_dest, post_filled, .. } | Operation::ReadThrough {
            post_dest,
            post_filled,
            ..
        } => post_dest.take(post_filled as int),
        Operation::ResumeRead { post_dest, filled, post_filled, .. } => post_dest.subrange(
            filled as int,
            post_filled as int,
        ),
        _ => Seq::empty(),
    }
}

/// Whether an operation cuts receiving short: the IO has reached its end, or fails on a reply.
pub open spec fn interrupts(operation: Operation) -> bool {
    match operation {
        Operation::Arrive { data, .. } => data.len() == 0,
        Operation::RecvThrough { outcome, .. } | Operation::ReadThrough { outcome, .. } => outcome
            == Outcome::Ready(0),
        Operation::Reply { reply, outcome, .. } => (reply is Queued || reply is Ping) && (
        outcome is Failed || outcome == Outcome::Ready(0)),
        _ => false,
    }
}

/// Whether `items` are what comes first when `arrived` has arrived, and the rest is left to `post`,
/// whatever arrives later.
pub open spec fn takes(
    pre: ConnModel,
    arrived: Seq<u8>,
    items: Seq<Item>,
    post: ConnModel,
) -> bool {
    forall|more: Seq<u8>|
        #![trigger to_come(post, more)]
        to_come(pre, arrived + more) == items + to_come(post, more)
}

/// Whether `items` explain why a connection has failed: the last one is a violation.
pub open spec fn explained(pre: ConnModel, items: Seq<Item>, post: ConnModel) -> bool {
    post.failed && !pre.failed ==> items.len() > 0 && items.last() is Violation
}

/// What asking for an event takes of the incoming stream. A deferred error is none of it.
pub open spec fn polled_items(pre: ConnModel, post: ConnModel, signal: SignalModel) -> Seq<Item> {
    if pre.pending_error is None && receiving(pre) {
        signalled(signal, post)
    } else {
        Seq::empty()
    }
}

/// Taking nothing leaves everything.
pub(crate) proof fn lemma_takes_nothing(pre: ConnModel, post: ConnModel)
    requires
        receiving(post) == receiving(pre),
        post.decoder == pre.decoder,
        post.rules() == pre.rules(),
    ensures
        takes(pre, Seq::empty(), Seq::empty(), post),
        binary(Seq::<Item>::empty()) == Seq::<u8>::empty(),
{
    assert forall|more: Seq<u8>|
        #![trigger to_come(post, more)]
        to_come(pre, Seq::<u8>::empty() + more) == Seq::<Item>::empty() + to_come(post, more) by {
        assert(Seq::<u8>::empty() + more =~= more);
        assert(Seq::<Item>::empty() + to_come(post, more) =~= to_come(post, more));
    }
}

/// What is taken in two steps is taken.
pub(crate) proof fn lemma_takes_on(
    pre: ConnModel,
    arrived: Seq<u8>,
    items: Seq<Item>,
    mid: ConnModel,
    others: Seq<Item>,
    post: ConnModel,
)
    requires
        takes(pre, arrived, items, mid),
        takes(mid, Seq::empty(), others, post),
    ensures
        takes(pre, arrived, items + others, post),
        binary(items + others) == binary(items) + binary(others),
{
    crate::recv::log::lemma_binary_concat(items, others);
    assert forall|more: Seq<u8>|
        #![trigger to_come(post, more)]
        to_come(pre, arrived + more) == items + others + to_come(post, more) by {
        assert(Seq::<u8>::empty() + more =~= more);
        assert(to_come(mid, more) == others + to_come(post, more));
        assert(items + (others + to_come(post, more)) =~= items + others + to_come(post, more));
    }
}

pub(crate) proof fn lemma_advanced(
    pre: ConnModel,
    buffered_only: bool,
    post: ConnModel,
    signal: SignalModel,
) -> (items: Seq<Item>)
    requires
        !pre.failed,
        receiving(pre) ==> pre.decoder.wf(),
        pre.advanced(buffered_only, post, signal),
    ensures
        takes(pre, Seq::empty(), items, post),
        binary(items) == Seq::<u8>::empty(),
        explained(pre, items, post),
        continues(pre, post),
        items == if receiving(pre) {
            signalled(signal, post)
        } else {
            Seq::empty()
        },
{
    if pre.close_received is Some {
        lemma_takes_nothing(pre, post);
        Seq::empty()
    } else {
        let items = signalled(signal, post);
        assert forall|more: Seq<u8>|
        #![trigger to_come(post, more)]
        to_come(pre, Seq::<u8>::empty() + more) == items + to_come(post, more) by {
            assert(Seq::<u8>::empty() + more =~= more);
            crate::ws::laws::law_event(pre, buffered_only, post, signal, more);
        }
        if items.len() > 0 {
            crate::recv::log::lemma_binary_other(items[0]);
            assert(items =~= seq![items[0]]);
        }
        items
    }
}

pub(crate) proof fn lemma_polled(
    pre: ConnModel,
    buffered_only: bool,
    post: ConnModel,
    signal: SignalModel,
) -> (items: Seq<Item>)
    requires
        pre.wf(),
        pre.polled(buffered_only, post, signal),
    ensures
        takes(pre, Seq::empty(), items, post),
        binary(items) == Seq::<u8>::empty(),
        explained(pre, items, post),
        continues(pre, post),
        items == polled_items(pre, post, signal),
{
    if pre.pending_error is Some || pre.failed {
        lemma_takes_nothing(pre, post);
        Seq::empty()
    } else if pre.send.control_pending && !buffered_only {
        if pre.send.pong_due() || pre.send.buf.len() > 0 {
            lemma_takes_nothing(pre, post);
            Seq::empty()
        } else {
            let mid = ConnModel { send: SendModel { control_pending: false, ..pre.send }, ..pre };
            lemma_takes_nothing(pre, mid);
            let items = lemma_advanced(mid, false, post, signal);
            lemma_takes_on(pre, Seq::empty(), Seq::empty(), mid, items, post);
            assert(Seq::<Item>::empty() + items =~= items);
            items
        }
    } else {
        lemma_advanced(pre, buffered_only, post, signal)
    }
}

/// Taking a piece of the binary payload at hand takes its bytes, and the end of the message if the
/// piece ends it.
pub(crate) proof fn lemma_taken(pre: ConnModel, n: nat) -> (items: Seq<Item>)
    requires
        pre.in_binary(),
        pre.decoder.wf(),
        n <= pre.decoder.frame.left(),
        n <= pre.decoder.buf.len(),
    ensures
        takes(
            pre,
            Seq::empty(),
            items,
            ConnModel { decoder: pre.decoder.taken(n), ..pre },
        ),
        binary(items) == pre.decoder.revealed(n),
{
    let post = ConnModel { decoder: pre.decoder.taken(n), ..pre };
    let data = pre.decoder.revealed(n);
    let items = crate::recv::log::bytes(data) + end_if(pre.ends_after(n));
    lemma_binary_piece(data, pre.ends_after(n));
    assert forall|more: Seq<u8>|
        #![trigger to_come(post, more)]
        to_come(pre, Seq::<u8>::empty() + more) == items + to_come(post, more) by {
        assert(Seq::<u8>::empty() + more =~= more);
        crate::recv::log::law_taken_then_arrives(pre.decoder, pre.rules(), n, more);
    }
    items
}

/// Reading a piece of the payload straight from the IO takes the same as buffering it first.
pub(crate) proof fn lemma_read_directly(pre: ConnModel, wire: Seq<u8>) -> (items: Seq<Item>)
    requires
        pre.in_binary(),
        pre.decoder.wf(),
        pre.decoder.buf.len() == 0,
        wire.len() <= pre.decoder.frame.left(),
    ensures
        takes(pre, wire, items, pre.read_directly(wire.len())),
        binary(items) == pre.decoder.frame.reveals(wire),
{
    let post = pre.read_directly(wire.len());
    let data = pre.decoder.frame.reveals(wire);
    let items = crate::recv::log::bytes(data) + end_if(pre.ends_after(wire.len()));
    lemma_binary_piece(data, pre.ends_after(wire.len()));
    assert forall|more: Seq<u8>|
        #![trigger to_come(post, more)]
        to_come(pre, wire + more) == items + to_come(post, more) by {
        crate::recv::log::law_read_directly_then_arrives(pre.decoder, pre.rules(), wire, more);
    }
    items
}

pub(crate) proof fn lemma_binary_piece(data: Seq<u8>, end: bool)
    ensures
        binary(crate::recv::log::bytes(data) + end_if(end)) == data,
{
    crate::recv::log::lemma_binary_concat(crate::recv::log::bytes(data), end_if(end));
    crate::recv::log::lemma_binary_bytes(data);
    crate::recv::log::lemma_binary_other(Item::End);
    assert(binary(end_if(end)) =~= Seq::<u8>::empty());
    assert(data + Seq::<u8>::empty() =~= data);
}

/// A read delivers the binary bytes of the stream, in order, and takes no others away, whatever
/// arrives later: what it takes of the stream are the bytes that it puts into the buffer, besides
/// what carries no binary data. The rest of the buffer stays as it is.
pub proof fn law_read_delivers(
    pre: ConnModel,
    rounds: nat,
    dest: Seq<u8>,
    filled: nat,
    post: ConnModel,
    post_dest: Seq<u8>,
    post_filled: nat,
    step: ReadStep,
) -> (items: Seq<Item>)
    requires
        pre.wf(),
        filled <= dest.len(),
        pre.reading(rounds, dest, filled, post, post_dest, post_filled, step),
    ensures
        filled <= post_filled <= dest.len() == post_dest.len(),
        post_dest.take(filled as int) == dest.take(filled as int),
        post_dest.skip(post_filled as int) == dest.skip(post_filled as int),
        takes(pre, Seq::empty(), items, post),
        binary(items) == post_dest.subrange(filled as int, post_filled as int),
        explained(pre, items, post),
    decreases rounds, 1nat,
{
    if filled >= dest.len() {
        lemma_takes_nothing(pre, post);
        assert(post_dest.subrange(filled as int, filled as int) =~= Seq::<u8>::empty());
        Seq::empty()
    } else {
        let (mid, signal) = choose|mid: ConnModel, signal: SignalModel|
            #[trigger] pre.polled(crate::ws::read::started(filled), mid, signal)
                && mid.read_signalled(
                rounds,
                signal,
                dest,
                filled,
                post,
                post_dest,
                post_filled,
                step,
            );
        let first = lemma_polled(pre, crate::ws::read::started(filled), mid, signal);
        if passes(signal) {
            crate::ws::read::lemma_polled_passes(
                pre,
                crate::ws::read::started(filled),
                mid,
                signal,
            );
        }
        let others = law_resumed_read_delivers(
            mid,
            rounds,
            signal,
            dest,
            filled,
            post,
            post_dest,
            post_filled,
            step,
        );
        lemma_takes_on(pre, Seq::empty(), first, mid, others, post);
        assert(Seq::<u8>::empty() + binary(others) =~= binary(others));
        if !passes(signal) {
            assert(others =~= Seq::<Item>::empty());
            assert(first + others =~= first);
        }
        first + others
    }
}

/// The same of a read that goes on with a signal.
pub proof fn law_resumed_read_delivers(
    pre: ConnModel,
    rounds: nat,
    signal: SignalModel,
    dest: Seq<u8>,
    filled: nat,
    post: ConnModel,
    post_dest: Seq<u8>,
    post_filled: nat,
    step: ReadStep,
) -> (items: Seq<Item>)
    requires
        passes(signal) ==> pre.wf(),
        signal is Binary ==> pre.in_binary(),
        filled < dest.len(),
        pre.read_signalled(rounds, signal, dest, filled, post, post_dest, post_filled, step),
    ensures
        filled <= post_filled <= dest.len() == post_dest.len(),
        post_dest.take(filled as int) == dest.take(filled as int),
        post_dest.skip(post_filled as int) == dest.skip(post_filled as int),
        takes(pre, Seq::empty(), items, post),
        binary(items) == post_dest.subrange(filled as int, post_filled as int),
        explained(pre, items, post),
        !passes(signal) ==> items.len() == 0 && post.failed == pre.failed,
    decreases rounds, 0nat,
{
    if signal is Binary && pre.decoder.buf.len() > 0 {
        let n = pre.deliverable((dest.len() - filled) as nat);
        let data = pre.decoder.revealed(n);
        let mid = ConnModel { decoder: pre.decoder.taken(n), ..pre };
        let mid_dest = dest.take(filled as int) + data + dest.skip((filled + n) as int);
        let first = lemma_taken(pre, n);
        pre.decoder.lemma_taken_wf(n);
        let others = law_read_delivers(
            mid,
            (rounds - 1) as nat,
            mid_dest,
            filled + n,
            post,
            post_dest,
            post_filled,
            step,
        );
        lemma_takes_on(pre, Seq::empty(), first, mid, others, post);
        lemma_filled(dest, filled, data, post_dest, post_filled);
        first + others
    } else if signal is Empty || signal is Ping || signal is Pong {
        law_read_delivers(
            pre,
            (rounds - 1) as nat,
            dest,
            filled,
            post,
            post_dest,
            post_filled,
            step,
        )
    } else {
        lemma_takes_nothing(pre, post);
        assert(post_dest.subrange(filled as int, filled as int) =~= Seq::<u8>::empty());
        Seq::empty()
    }
}

/// A buffer that was filled with `data`, and then on, has been filled from the start.
pub(crate) proof fn lemma_filled(
    dest: Seq<u8>,
    filled: nat,
    data: Seq<u8>,
    post_dest: Seq<u8>,
    post_filled: nat,
)
    requires
        filled + data.len() <= post_filled <= dest.len() == post_dest.len(),
        ({
            let mid = dest.take(filled as int) + data + dest.skip((filled + data.len()) as int);
            &&& post_dest.take((filled + data.len()) as int) == mid.take(
                (filled + data.len()) as int,
            )
            &&& post_dest.skip(post_filled as int) == mid.skip(post_filled as int)
        }),
    ensures
        post_dest.take(filled as int) == dest.take(filled as int),
        post_dest.skip(post_filled as int) == dest.skip(post_filled as int),
        post_dest.subrange(filled as int, post_filled as int) == data + post_dest.subrange(
            (filled + data.len()) as int,
            post_filled as int,
        ),
{
    let n = filled + data.len();
    let mid = dest.take(filled as int) + data + dest.skip(n as int);
    assert(post_dest.take(filled as int) =~= post_dest.take(n as int).take(filled as int));
    assert(mid.take(n as int).take(filled as int) =~= dest.take(filled as int));
    assert(post_dest.subrange(filled as int, n as int) =~= post_dest.take(n as int).skip(
        filled as int,
    ));
    assert(mid.take(n as int).skip(filled as int) =~= data);
    assert(post_dest.subrange(filled as int, post_filled as int) =~= post_dest.subrange(
        filled as int,
        n as int,
    ) + post_dest.subrange(n as int, post_filled as int));
    assert(mid.skip(post_filled as int) =~= dest.skip(post_filled as int));
}

/// Whether `items` are what an operation takes of the incoming stream.
///
/// Nothing is taken where receiving is cut short, and nothing is left if that is no failure.
pub open spec fn receives(
    pre: ConnModel,
    operation: Operation,
    post: ConnModel,
    items: Seq<Item>,
) -> bool {
    &&& binary(items) == delivered_by(operation)
    &&& if interrupts(operation) {
        &&& items.len() == 0
        &&& arrived_by(operation).len() == 0
        &&& !receiving(post)
        &&& !post.failed ==> to_come(pre, Seq::empty()) == Seq::<Item>::empty()
    } else {
        &&& takes(pre, arrived_by(operation), items, post)
        &&& explained(pre, items, post)
    }
}

proof fn lemma_sending(pre: ConnModel, operation: Operation, post: ConnModel) -> (items: Seq<Item>)
    requires
        pre.performs(operation, post),
        operation is Write || operation is ResumeWrite || operation is ResumeWriteVectored
            || operation is Send || operation is ResumeSend || operation is Flush
            || operation is ResumeFlush || operation is Close || operation is ShutDown,
    ensures
        receives(pre, operation, post, items),
{
    lemma_takes_nothing(pre, post);
    Seq::empty()
}

proof fn lemma_replied(
    pre: ConnModel,
    reply: ReplyModel,
    outcome: Outcome,
    post: ConnModel,
    signal: SignalModel,
) -> (items: Seq<Item>)
    requires
        pre.wf(),
        reply is Queued ==> !pre.failed,
        pre.replied(reply, outcome, post, signal),
    ensures
        receives(pre, Operation::Reply { reply, outcome, signal }, post, items),
{
    let (send, drain) = choose|send: SendModel, drain: Drain|
        #[trigger] pre.send.drained(outcome, send, drain) && (ConnModel {
            send,
            ..pre
        }).went_on(reply, drain, post, signal);
    let mid = ConnModel { send, ..pre };
    lemma_takes_nothing(pre, mid);
    lemma_takes_nothing(pre, pre);
    if reply is Queued && (drain is Done || drain is Blocked) {
        let items = lemma_advanced(mid, false, post, signal);
        lemma_takes_on(pre, Seq::empty(), Seq::empty(), mid, items, post);
        assert(Seq::<Item>::empty() + items =~= items);
        items
    } else {
        if !interrupts(Operation::Reply { reply, outcome, signal }) {
            lemma_takes_nothing(pre, post);
        }
        Seq::empty()
    }
}

pub(crate) proof fn lemma_ended(pre: ConnModel, post: ConnModel, signal: SignalModel)
    requires
        receiving(pre),
        pre.ended(post, signal),
    ensures
        !receiving(post),
        !post.failed ==> to_come(pre, Seq::empty()) == Seq::<Item>::empty(),
        pre.decoder.frame is Payload ==> post.failed && signal is Failed,
        binary(Seq::<Item>::empty()) == Seq::<u8>::empty(),
{
    lemma_takes_nothing(pre, pre);
    crate::recv::log::law_arrives_piecewise(pre.decoder, Seq::empty(), Seq::empty());
    if pre.send.close_sent && pre.decoder.at_boundary() {
        assert(pre.decoder.log(pre.rules()) =~= Seq::<Item>::empty());
    }
}

proof fn lemma_delivering(pre: ConnModel, operation: Operation, post: ConnModel) -> (items: Seq<
    Item,
>)
    requires
        pre.wf(),
        pre.open_to(operation),
        pre.performs(operation, post),
        operation is Deliver || operation is DeliverBytes || operation is RecvThrough,
    ensures
        receives(pre, operation, post, items),
{
    lemma_takes_nothing(pre, pre);
    match operation {
        Operation::Deliver { signal, dest, post_dest, recv_step } => if signal is Binary
            && dest.len() > 0 && pre.decoder.buf.len() > 0 {
            let n = pre.deliverable(dest.len());
            assert(post_dest.take(n as int) =~= pre.decoder.revealed(n));
            lemma_taken(pre, n)
        } else {
            assert(post_dest.take(0) =~= Seq::<u8>::empty());
            Seq::empty()
        },
        Operation::DeliverBytes { signal, bytes_step } => if signal is Binary
            && pre.decoder.buf.len() > 0 {
            lemma_taken(
                pre,
                crate::recv::least(pre.decoder.frame.left(), pre.decoder.buf.len()),
            )
        } else {
            Seq::empty()
        },
        Operation::RecvThrough { dest, outcome, post_dest, recv_step } => match outcome {
            Outcome::Ready(n) => if n == 0 {
                let (mid, signal) = choose|mid: ConnModel, signal: SignalModel|
                    #[trigger] pre.ended(mid, signal) && mid.delivered(
                        signal,
                        dest,
                        post,
                        post_dest,
                        recv_step,
                    );
                lemma_ended(pre, mid, signal);
                Seq::empty()
            } else {
                let wire = dest.take(n as int);
                assert(post_dest.take(n as int) =~= pre.decoder.frame.reveals(wire));
                lemma_read_directly(pre, wire)
            },
            _ => Seq::empty(),
        },
        _ => Seq::empty(),
    }
}

proof fn lemma_read_through(
    pre: ConnModel,
    rounds: nat,
    dest: Seq<u8>,
    outcome: Outcome,
    post: ConnModel,
    post_dest: Seq<u8>,
    post_filled: nat,
    read_step: ReadStep,
) -> (items: Seq<Item>)
    requires
        pre.wf(),
        pre.open_to_direct_read(dest, outcome),
        pre.reading_through(rounds, dest, outcome, post, post_dest, post_filled, read_step),
    ensures
        receives(
            pre,
            Operation::ReadThrough { rounds, dest, outcome, post_dest, post_filled, read_step },
            post,
            items,
        ),
{
    lemma_takes_nothing(pre, pre);
    assert(post_dest.take(0) =~= Seq::<u8>::empty());
    match outcome {
        Outcome::Ready(n) => if n == 0 {
            let (mid, signal) = choose|mid: ConnModel, signal: SignalModel|
                #[trigger] pre.ended(mid, signal) && mid.read_signalled(
                    rounds,
                    signal,
                    dest,
                    0,
                    post,
                    post_dest,
                    post_filled,
                    read_step,
                );
            lemma_ended(pre, mid, signal);
            Seq::empty()
        } else {
            let wire = dest.take(n as int);
            let data = pre.decoder.frame.reveals(wire);
            let mid = pre.read_directly(n as nat);
            let first = lemma_read_directly(pre, wire);
            let others = law_read_delivers(
                mid,
                rounds,
                data + dest.skip(n as int),
                n as nat,
                post,
                post_dest,
                post_filled,
                read_step,
            );
            lemma_takes_on(pre, wire, first, mid, others, post);
            assert(dest.take(0) + data + dest.skip(n as int) =~= data + dest.skip(n as int));
            lemma_filled(dest, 0, data, post_dest, post_filled);
            assert(post_dest.subrange(0, post_filled as int) =~= post_dest.take(
                post_filled as int,
            ));
            first + others
        },
        _ => Seq::empty(),
    }
}

/// Whatever is done with a connection, it takes what comes first in the meaning of the incoming
/// stream, and leaves the rest of it, whatever arrives later. The binary bytes among what it takes
/// are the ones that are handed to the caller, in order. Nothing is lost, repeated or reordered,
/// unless the stream is cut off or the IO fails on a reply. A connection fails otherwise only if
/// the peer violates the protocol.
pub proof fn law_received(pre: ConnModel, operation: Operation, post: ConnModel) -> (items: Seq<
    Item,
>)
    requires
        pre.wf(),
        pre.open_to(operation),
        pre.performs(operation, post),
    ensures
        receives(pre, operation, post, items),
{
    match operation {
        Operation::Poll { buffered_only, signal } => lemma_polled(
            pre,
            buffered_only,
            post,
            signal,
        ),
        Operation::Reply { reply, outcome, signal } => lemma_replied(
            pre,
            reply,
            outcome,
            post,
            signal,
        ),
        Operation::Arrive { data, signal } => if data.len() == 0 {
            lemma_ended(pre, post, signal);
            Seq::empty()
        } else {
            let mid = ConnModel { decoder: pre.decoder.with(data), ..pre };
            let items = lemma_advanced(mid, false, post, signal);
            assert forall|more: Seq<u8>|
                #![trigger to_come(post, more)]
                to_come(pre, data + more) == items + to_come(post, more) by {
                crate::recv::log::law_arrives_piecewise(pre.decoder, data, more);
                assert(Seq::<u8>::empty() + more =~= more);
            }
            items
        },
        Operation::Deliver { .. } | Operation::DeliverBytes { .. } | Operation::RecvThrough {
            ..
        } => lemma_delivering(pre, operation, post),
        Operation::Read { rounds, dest, post_dest, post_filled, read_step } => {
            let items = law_read_delivers(
                pre,
                rounds,
                dest,
                0,
                post,
                post_dest,
                post_filled,
                read_step,
            );
            assert(post_dest.subrange(0, post_filled as int) =~= post_dest.take(
                post_filled as int,
            ));
            items
        },
        Operation::ResumeRead {
            rounds,
            signal,
            dest,
            filled,
            post_dest,
            post_filled,
            read_step,
        } => law_resumed_read_delivers(
            pre,
            rounds,
            signal,
            dest,
            filled,
            post,
            post_dest,
            post_filled,
            read_step,
        ),
        Operation::ReadThrough {
            rounds,
            dest,
            outcome,
            post_dest,
            post_filled,
            read_step,
        } => lemma_read_through(
            pre,
            rounds,
            dest,
            outcome,
            post,
            post_dest,
            post_filled,
            read_step,
        ),
        _ => lemma_sending(pre, operation, post),
    }
}

} // verus!
