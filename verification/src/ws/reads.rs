//! What a read of binary data comes to, in terms of the incoming stream.
use crate::config::ConfigModel;
use crate::error::WebSocketError;
use crate::recv::log::{binary, end_if, starts_binary, Item};
use crate::send::{Outcome, SendModel};
use crate::ws::events::{blamed, law_poll};
use crate::ws::incoming::{lemma_filled, lemma_takes_nothing, lemma_takes_on, takes};
use crate::ws::kept::receiving;
use crate::ws::laws::to_come;
use crate::ws::outgoing::{accounts_for, answers, Sent};
use crate::ws::read::{passes, started, ReadStep};
use crate::ws::receive::{ReplyModel, SignalModel};
use crate::ws::ConnModel;
use vstd::prelude::*;

verus! {

/// Whether a read passes over an item: bytes are delivered, and the ends of messages, pongs, and
/// pings that are not answered are of no interest.
pub open spec fn passed_over(config: ConfigModel, send: SendModel, item: Item) -> bool {
    match item {
        Item::Byte(_) | Item::End | Item::Pong(_) => true,
        Item::Ping(_) => !config.auto_pong || send.close_sent,
        _ => false,
    }
}

/// Whether a read comes to what it should, with `items` what it takes of the incoming stream, into
/// a buffer with `len` bytes, of which `filled` have been filled.
///
/// A read is over once the buffer is full, or anything but binary data comes after data that has
/// been delivered. One that has not delivered anything is over only at the end of the stream, which
/// is the peer's Close frame, or with an error, which is otherwise deferred. A text message is an
/// error. Replies are written as soon as there are any. The IO is read if nothing is at hand,
/// straight into the buffer if at least half a read buffer is expected and fits.
pub open spec fn read_tells(
    pre: ConnModel,
    len: nat,
    items: Seq<Item>,
    post: ConnModel,
    filled: nat,
    step: ReadStep,
) -> bool {
    &&& forall|i: int|
        #![trigger items[i]]
        0 <= i < items.len() - 1 ==> passed_over(pre.config, pre.send, items[i])
    &&& post.close_received != pre.close_received ==> post.close_received is Some && items.len()
        > 0 && items.last() == Item::Close(post.close_received->0)
    &&& match step {
        ReadStep::Ready(Ok(())) => {
            ||| filled == len
            ||| filled == 0 && post.close_received is Some && (!post.send.close_sent
                || post.shutdown_done)
            ||| filled > 0 && match post.pending_error {
                Some(error) => blamed(pre, items, error),
                None => !starts_binary(to_come(post, Seq::empty())),
            }
        },
        ReadStep::Ready(Err(error)) => {
            ||| error == WebSocketError::TextMessage && items.len() > 0 && items.last() is Text
            ||| filled == 0 && post.pending_error is None && blamed(pre, items, error)
        },
        ReadStep::Read => {
            &&& filled == 0
            &&& receiving(post)
            &&& to_come(post, Seq::empty()).len() == 0
            &&& post.in_binary() ==> crate::recv::least(post.decoder.frame.left(), len)
                < pre.config.read_buffer_size / 2
        },
        ReadStep::ReadThrough(n) => {
            &&& filled == 0
            &&& post.in_binary()
            &&& post.decoder.buf.len() == 0
            &&& pre.config.read_buffer_size / 2 <= n <= post.decoder.frame.left()
            &&& n == len || n == post.decoder.frame.left() && n < len
        },
        ReadStep::Write(reply) => {
            &&& post.send.buf.len() > 0
            &&& match reply@ {
                ReplyModel::Queued => filled == 0 && !post.failed,
                ReplyModel::Ping(payload) => {
                    &&& items.len() > 0
                    &&& items.last() == Item::Ping(payload)
                    &&& !passed_over(pre.config, pre.send, items.last())
                },
                ReplyModel::Failure(violation) => {
                    &&& post.failed
                    &&& items.len() > 0
                    &&& items.last() == Item::Violation(violation)
                },
                ReplyModel::Close => {
                    &&& post.close_received is Some
                    &&& post.send.close_sent
                    &&& !post.shutdown_done
                },
            }
        },
        ReadStep::Shutdown => {
            &&& post.close_received is Some
            &&& post.send.close_sent
            &&& post.send.buf.len() == 0
            &&& !post.shutdown_done
        },
        ReadStep::Pending => false,
    }
    &&& items.len() > 0 ==> match items.last() {
        Item::Text(_) => step == ReadStep::Ready(Err(WebSocketError::TextMessage)),
        Item::Ping(payload) => {
            ||| passed_over(pre.config, pre.send, items.last())
            ||| step matches ReadStep::Write(reply) && reply@ == ReplyModel::Ping(payload)
        },
        Item::Close(frame) => {
            &&& post.close_received == Some(frame)
            &&& match step {
                ReadStep::Write(reply) => reply@ is Close,
                ReadStep::Ready(result) => result is Ok,
                _ => step is Shutdown,
            }
        },
        Item::Violation(violation) => {
            ||| step matches ReadStep::Write(reply) && reply@ == ReplyModel::Failure(violation)
            ||| step == ReadStep::Ready(Err(WebSocketError::Protocol(violation)))
            ||| post.pending_error == Some(WebSocketError::Protocol(violation))
        },
        _ => true,
    }
}

/// What is answered after items that a read passes over is answered after all of them.
proof fn lemma_answers_on(
    config: ConfigModel,
    pre: SendModel,
    first: Seq<Item>,
    mid: SendModel,
    others: Seq<Item>,
    post: SendModel,
    sent: Sent,
)
    requires
        mid == (SendModel { control_pending: mid.control_pending, ..pre }),
        forall|i: int| #![trigger first[i]] 0 <= i < first.len() ==> passed_over(
            config,
            pre,
            first[i],
        ),
        answers(config, mid, others, post, sent),
    ensures
        answers(config, pre, first + others, post, sent),
{
    let items = first + others;
    assert forall|i: int| #![trigger items[i]] 0 <= i < items.len() - 1 implies items[i] is Byte
        || items[i] is End || items[i] is Pong || items[i] is Ping && !(config.auto_pong
        && !pre.close_sent) by {
        if i < first.len() {
            assert(items[i] == first[i]);
        } else {
            assert(items[i] == others[i - first.len()]);
        }
    }
    if others.len() > 0 {
        assert(items.last() == others.last());
    } else if first.len() > 0 {
        assert(items.last() == first.last());
        assert(passed_over(config, pre, first[first.len() - 1]));
    }
}

/// What a read comes to after items that it passes over, it comes to after all of them.
proof fn lemma_read_tells_on(
    pre: ConnModel,
    len: nat,
    first: Seq<Item>,
    mid: ConnModel,
    others: Seq<Item>,
    post: ConnModel,
    filled: nat,
    step: ReadStep,
)
    requires
        mid == (ConnModel {
            decoder: mid.decoder,
            send: SendModel { control_pending: mid.send.control_pending, ..pre.send },
            ..pre
        }),
        forall|i: int| #![trigger first[i]] 0 <= i < first.len() ==> passed_over(
            pre.config,
            pre.send,
            first[i],
        ),
        read_tells(mid, len, others, post, filled, step),
    ensures
        read_tells(pre, len, first + others, post, filled, step),
{
    let items = first + others;
    assert forall|i: int| #![trigger items[i]] 0 <= i < items.len() - 1 implies passed_over(
        pre.config,
        pre.send,
        items[i],
    ) by {
        if i < first.len() {
            assert(items[i] == first[i]);
        } else {
            assert(items[i] == others[i - first.len()]);
        }
    }
    if others.len() > 0 {
        assert(items.last() == others.last());
    } else if first.len() > 0 {
        assert(items.last() == first.last());
        assert(passed_over(pre.config, pre.send, first[first.len() - 1]));
    }
}

/// A read delivers the binary data of the incoming stream, in order, answers what has to be
/// answered, and comes to what it should: pings, pongs and the ends of messages are passed over,
/// and nothing but the peer's Close frame reads as the end of the stream.
#[verifier::rlimit(30)]
pub proof fn law_read(
    pre: ConnModel,
    rounds: nat,
    dest: Seq<u8>,
    filled: nat,
    post: ConnModel,
    post_dest: Seq<u8>,
    post_filled: nat,
    step: ReadStep,
) -> (r: (Seq<Item>, Sent))
    requires
        pre.wf(),
        filled <= dest.len() <= usize::MAX,
        pre.reading(rounds, dest, filled, post, post_dest, post_filled, step),
    ensures
        filled <= post_filled <= dest.len() == post_dest.len(),
        post_dest.take(filled as int) == dest.take(filled as int),
        post_dest.skip(post_filled as int) == dest.skip(post_filled as int),
        takes(pre, Seq::empty(), r.0, post),
        binary(r.0) == post_dest.subrange(filled as int, post_filled as int),
        read_tells(pre, dest.len(), r.0, post, post_filled, step),
        accounts_for(pre, pre.send, post.send, r.1),
        answers(pre.config, pre.send, r.0, post.send, r.1),
    decreases rounds, 1nat,
{
    if filled >= dest.len() {
        lemma_takes_nothing(pre, post);
        assert(post_dest.subrange(filled as int, filled as int) =~= Seq::<u8>::empty());
        assert(pre.send.buf + Seq::<u8>::empty() =~= pre.send.buf);
        (Seq::empty(), Sent::Nothing)
    } else {
        let (mid, signal) = choose|mid: ConnModel, signal: SignalModel|
            #[trigger] pre.polled(started(filled), mid, signal) && mid.read_signalled(
                rounds,
                signal,
                dest,
                filled,
                post,
                post_dest,
                post_filled,
                step,
            );
        let (first, sent) = law_poll(pre, started(filled), mid, signal);
        if passes(signal) {
            crate::ws::read::lemma_polled_passes(pre, started(filled), mid, signal);
            let (others, later) = law_passing_read(
                mid,
                rounds,
                signal,
                dest,
                filled,
                post,
                post_dest,
                post_filled,
                step,
            );
            lemma_takes_on(pre, Seq::empty(), first, mid, others, post);
            assert(Seq::<u8>::empty() + binary(others) =~= binary(others));
            assert forall|i: int| #![trigger first[i]] 0 <= i < first.len() implies passed_over(
                pre.config,
                pre.send,
                first[i],
            ) by {}
            lemma_answers_on(pre.config, pre.send, first, mid.send, others, post.send, later);
            lemma_read_tells_on(pre, dest.len(), first, mid, others, post, post_filled, step);
            (first + others, later)
        } else {
            lemma_takes_nothing(mid, post);
            lemma_takes_on(pre, Seq::empty(), first, mid, Seq::empty(), post);
            assert(first + Seq::<Item>::empty() =~= first);
            assert(post_dest.subrange(filled as int, filled as int) =~= Seq::<u8>::empty());
            (first, sent)
        }
    }
}

/// The same of a read that goes on with a signal that it passes over, or with binary data.
#[verifier::rlimit(30)]
pub proof fn law_passing_read(
    pre: ConnModel,
    rounds: nat,
    signal: SignalModel,
    dest: Seq<u8>,
    filled: nat,
    post: ConnModel,
    post_dest: Seq<u8>,
    post_filled: nat,
    step: ReadStep,
) -> (r: (Seq<Item>, Sent))
    requires
        pre.wf(),
        passes(signal),
        signal is Binary ==> pre.in_binary() && pre.pending_error is None,
        filled < dest.len() <= usize::MAX,
        pre.read_signalled(rounds, signal, dest, filled, post, post_dest, post_filled, step),
    ensures
        filled <= post_filled <= dest.len() == post_dest.len(),
        post_dest.take(filled as int) == dest.take(filled as int),
        post_dest.skip(post_filled as int) == dest.skip(post_filled as int),
        takes(pre, Seq::empty(), r.0, post),
        binary(r.0) == post_dest.subrange(filled as int, post_filled as int),
        read_tells(pre, dest.len(), r.0, post, post_filled, step),
        accounts_for(pre, pre.send, post.send, r.1),
        answers(pre.config, pre.send, r.0, post.send, r.1),
    decreases rounds, 0nat,
{
    if signal is Binary && pre.decoder.buf.len() > 0 {
        let n = pre.deliverable((dest.len() - filled) as nat);
        let data = pre.decoder.revealed(n);
        let mid = ConnModel { decoder: pre.decoder.taken(n), ..pre };
        let mid_dest = dest.take(filled as int) + data + dest.skip((filled + n) as int);
        let first = lemma_piece_taken(pre, n);
        pre.decoder.lemma_taken_wf(n);
        let (others, sent) = law_read(
            mid,
            (rounds - 1) as nat,
            mid_dest,
            filled + n,
            post,
            post_dest,
            post_filled,
            step,
        );
        lemma_takes_on(pre, Seq::empty(), first, mid, others, post);
        lemma_filled(dest, filled, data, post_dest, post_filled);
        lemma_answers_on(pre.config, pre.send, first, mid.send, others, post.send, sent);
        lemma_read_tells_on(pre, dest.len(), first, mid, others, post, post_filled, step);
        (first + others, sent)
    } else if signal is Binary {
        lemma_takes_nothing(pre, post);
        crate::recv::log::law_arrives_piecewise(pre.decoder, Seq::empty(), Seq::empty());
        assert(pre.decoder.log(pre.rules()) =~= Seq::<Item>::empty());
        assert(post_dest.subrange(filled as int, filled as int) =~= Seq::<u8>::empty());
        assert(pre.send.buf + Seq::<u8>::empty() =~= pre.send.buf);
        (Seq::empty(), Sent::Nothing)
    } else {
        law_read(
            pre,
            (rounds - 1) as nat,
            dest,
            filled,
            post,
            post_dest,
            post_filled,
            step,
        )
    }
}

/// A piece of the binary payload at hand comes first in the incoming stream, followed by the end
/// of its message if the piece ends it.
proof fn lemma_piece_taken(pre: ConnModel, n: nat) -> (items: Seq<Item>)
    requires
        pre.in_binary(),
        pre.decoder.wf(),
        n <= pre.decoder.frame.left(),
        n <= pre.decoder.buf.len(),
    ensures
        takes(pre, Seq::empty(), items, ConnModel { decoder: pre.decoder.taken(n), ..pre }),
        binary(items) == pre.decoder.revealed(n),
        forall|i: int| #![trigger items[i]] 0 <= i < items.len() ==> items[i] is Byte
            || items[i] is End,
{
    let post = ConnModel { decoder: pre.decoder.taken(n), ..pre };
    let data = pre.decoder.revealed(n);
    let items = crate::recv::log::bytes(data) + end_if(pre.ends_after(n));
    crate::ws::incoming::lemma_binary_piece(data, pre.ends_after(n));
    assert forall|more: Seq<u8>|
        #![trigger to_come(post, more)]
        to_come(pre, Seq::<u8>::empty() + more) == items + to_come(post, more) by {
        assert(Seq::<u8>::empty() + more =~= more);
        crate::recv::log::law_taken_then_arrives(pre.decoder, pre.rules(), n, more);
    }
    items
}

/// What a read comes to when it goes on with a signal that it does not pass over: what the signal
/// calls for is passed on, a text message is an error, and the peer's Close frame the end of the
/// stream. An error that comes after data is deferred.
pub proof fn law_resumed_read(
    pre: ConnModel,
    rounds: nat,
    signal: SignalModel,
    dest: Seq<u8>,
    filled: nat,
    post: ConnModel,
    post_dest: Seq<u8>,
    post_filled: nat,
    step: ReadStep,
)
    requires
        filled < dest.len(),
        !passes(signal),
        pre.read_signalled(rounds, signal, dest, filled, post, post_dest, post_filled, step),
    ensures
        post_dest == dest,
        post_filled == filled,
        post == (ConnModel { pending_error: post.pending_error, ..pre }),
        match signal {
            SignalModel::Failed(error) if filled > 0 => post.pending_error == Some(error),
            _ => post.pending_error == pre.pending_error,
        },
        match signal {
            SignalModel::Write(reply) => step matches ReadStep::Write(r) && r@ == reply,
            SignalModel::Read => step is Read,
            SignalModel::Shutdown => step is Shutdown,
            SignalModel::Pending => if filled > 0 {
                step == ReadStep::Ready(Ok(()))
            } else {
                step is Pending
            },
            SignalModel::Failed(error) => step == ReadStep::Ready(
                if filled > 0 {
                    Ok(())
                } else {
                    Err(error)
                },
            ),
            SignalModel::Text(_) => step == ReadStep::Ready(Err(WebSocketError::TextMessage)),
            SignalModel::Closed(_) => step == ReadStep::Ready(Ok(())),
            _ => false,
        },
{
}

/// A read that ends without an error and without data has reached the end of the stream: the
/// peer's Close frame has been received. No ping, pong or empty message reads as the end.
pub proof fn law_end_of_stream(
    pre: ConnModel,
    rounds: nat,
    dest: Seq<u8>,
    post: ConnModel,
    post_dest: Seq<u8>,
    step: ReadStep,
)
    requires
        pre.wf(),
        0 < dest.len() <= usize::MAX,
        pre.reading(rounds, dest, 0, post, post_dest, 0, step),
        step == ReadStep::Ready(Ok(())),
    ensures
        post.close_received is Some,
{
    let (items, sent) = law_read(pre, rounds, dest, 0, post, post_dest, 0, step);
}

/// The same of a read that goes on with a signal. If that is the peer's Close frame, it has been
/// received before.
pub proof fn law_resumed_end_of_stream(
    pre: ConnModel,
    rounds: nat,
    signal: SignalModel,
    dest: Seq<u8>,
    post: ConnModel,
    post_dest: Seq<u8>,
    step: ReadStep,
)
    requires
        pre.wf(),
        0 < dest.len() <= usize::MAX,
        signal is Binary ==> pre.in_binary(),
        signal is Closed ==> pre.close_received is Some,
        pre.read_signalled(rounds, signal, dest, 0, post, post_dest, 0, step),
        step == ReadStep::Ready(Ok(())),
    ensures
        post.close_received is Some,
{
    if signal is Binary && pre.decoder.buf.len() > 0 {
        let n = pre.deliverable(dest.len());
        pre.decoder.lemma_taken_wf(n);
        let (items, sent) = law_read(
            ConnModel { decoder: pre.decoder.taken(n), ..pre },
            (rounds - 1) as nat,
            dest.take(0) + pre.decoder.revealed(n) + dest.skip(n as int),
            n,
            post,
            post_dest,
            0,
            step,
        );
    } else if signal is Empty || signal is Ping || signal is Pong {
        law_end_of_stream(pre, (rounds - 1) as nat, dest, post, post_dest, step);
    }
}

/// The same of a read for which the IO has read straight into the buffer: the bytes are delivered
/// as if they had been buffered first, and the read goes on with what is at hand.
pub proof fn law_direct_read(
    pre: ConnModel,
    rounds: nat,
    dest: Seq<u8>,
    n: usize,
    post: ConnModel,
    post_dest: Seq<u8>,
    post_filled: nat,
    step: ReadStep,
) -> (r: (Seq<Item>, Sent))
    requires
        pre.wf(),
        0 < n,
        pre.open_to_direct_read(dest, Outcome::Ready(n)),
        pre.reading_through(
            rounds,
            dest,
            Outcome::Ready(n),
            post,
            post_dest,
            post_filled,
            step,
        ),
    ensures
        n <= post_filled <= dest.len() == post_dest.len(),
        post_dest.skip(post_filled as int) == dest.skip(post_filled as int),
        takes(pre, dest.take(n as int), r.0, post),
        binary(r.0) == post_dest.take(post_filled as int),
        read_tells(pre, dest.len(), r.0, post, post_filled, step),
        accounts_for(pre, pre.send, post.send, r.1),
        answers(pre.config, pre.send, r.0, post.send, r.1),
{
    let wire = dest.take(n as int);
    let data = pre.decoder.frame.reveals(wire);
    let mid = pre.read_directly(n as nat);
    let first = crate::recv::log::bytes(data) + end_if(pre.ends_after(n as nat));
    crate::ws::incoming::lemma_binary_piece(data, pre.ends_after(n as nat));
    assert forall|more: Seq<u8>|
        #![trigger to_come(mid, more)]
        to_come(pre, wire + more) == first + to_come(mid, more) by {
        crate::recv::log::law_read_directly_then_arrives(pre.decoder, pre.rules(), wire, more);
    }
    let (others, sent) = law_read(
        mid,
        rounds,
        data + dest.skip(n as int),
        n as nat,
        post,
        post_dest,
        post_filled,
        step,
    );
    lemma_takes_on(pre, wire, first, mid, others, post);
    assert(dest.take(0) + data + dest.skip(n as int) =~= data + dest.skip(n as int));
    lemma_filled(dest, 0, data, post_dest, post_filled);
    assert(post_dest.subrange(0, post_filled as int) =~= post_dest.take(post_filled as int));
    lemma_answers_on(pre.config, pre.send, first, mid.send, others, post.send, sent);
    lemma_read_tells_on(pre, dest.len(), first, mid, others, post, post_filled, step);
    (first + others, sent)
}

/// What a direct read comes to if the IO gives nothing: it is waited for, or the read fails. The
/// end of the stream is an error as payload is missing.
pub proof fn law_direct_read_without_data(
    pre: ConnModel,
    rounds: nat,
    dest: Seq<u8>,
    outcome: Outcome,
    post: ConnModel,
    post_dest: Seq<u8>,
    post_filled: nat,
    step: ReadStep,
)
    requires
        pre.open_to_direct_read(dest, outcome),
        pre.reading_through(rounds, dest, outcome, post, post_dest, post_filled, step),
        outcome matches Outcome::Ready(n) ==> n == 0,
    ensures
        post_dest == dest,
        post_filled == 0,
        post == (ConnModel { failed: outcome is Ready, ..pre }),
        match outcome {
            Outcome::Pending => step is Pending,
            Outcome::Failed => step == ReadStep::Ready(Err(WebSocketError::Io)),
            Outcome::Ready(_) => step == ReadStep::Ready(Err(WebSocketError::UnexpectedEof)),
        },
{
    if outcome is Ready {
        crate::ws::laws::law_missing_payload_detected(
            pre,
            rounds,
            dest,
            post,
            post_dest,
            post_filled,
            step,
        );
    }
}

} // verus!
