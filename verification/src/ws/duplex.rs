//! A connection is a byte duplex: what one side writes is what the other side reads.
//!
//! The life of a connection is whatever may be done with it, in any order: writes and messages,
//! flushes and closes, reads into the read buffer and straight into the caller's, events asked for
//! and replies written, with an IO that takes and gives bytes in pieces of any size and may not be
//! ready at any time. What the lives of the two sides of a connection have in common is the stream
//! of bytes that the one hands over and that arrives at the other.
use crate::recv::log::{binary, Item, Message};
use crate::recv::{DecoderModel, Rules};
use crate::ws::incoming::{arrived_by, delivered_by, interrupts, law_received, receives};
use crate::ws::kept::{
    continues, law_closing_is_final, law_start_well_formed, law_well_formed, receiving,
};
use crate::ws::laws::to_come;
use crate::ws::operation::Operation;
use crate::ws::outgoing::{accepted_by, gives_up, handed_over, law_stream, text_of, Sent};
use crate::ws::ConnModel;
use vstd::prelude::*;

verus! {

/// The life of a connection: the states that it goes through, and the operations that take it from
/// each to the next.
pub struct Trace {
    /// The states, one more than there are operations.
    pub states: Seq<ConnModel>,
    /// The operations.
    pub operations: Seq<Operation>,
}

impl Trace {
    /// Whether a connection may live like this, from the end of the HTTP upgrade on.
    pub open spec fn valid(self) -> bool {
        &&& self.states.len() == self.operations.len() + 1
        &&& self.first().config.valid()
        &&& self.first() == ConnModel::start(
            self.first().role,
            self.first().config,
            self.first().decoder.buf,
        )
        &&& forall|i: int|
            #![trigger self.operations[i]]
            0 <= i < self.operations.len() ==> self.states[i].open_to(self.operations[i])
                && self.states[i].performs(self.operations[i], self.states[i + 1])
    }

    /// The connection as it was at first.
    pub open spec fn first(self) -> ConnModel {
        self.states[0]
    }

    /// The connection as it is in the end.
    pub open spec fn last(self) -> ConnModel {
        self.states.last()
    }

    /// Whether all text messages that are sent are within a limit.
    pub open spec fn texts_within(self, limit: usize) -> bool {
        forall|i: int|
            #![trigger self.operations[i]]
            0 <= i < self.operations.len() ==> (text_of(self.operations[i]) matches Some(text)
                ==> text.len() <= limit)
    }

    /// Whether the reply to the peer's Close frame was given up, because the IO failed.
    pub open spec fn gave_up(self) -> bool {
        exists|i: int| 0 <= i < self.operations.len() && gives_up(#[trigger] self.operations[i])
    }

    /// Whether receiving was cut short: the IO reached its end, or failed on a reply.
    pub open spec fn interrupted(self) -> bool {
        exists|i: int| 0 <= i < self.operations.len() && interrupts(#[trigger] self.operations[i])
    }

    /// The same life without its last operation.
    pub open spec fn before(self) -> Trace {
        Trace { states: self.states.drop_last(), operations: self.operations.drop_last() }
    }

    /// All bytes that the IO took.
    pub open spec fn handed_over(self) -> Seq<u8>
        decreases self.operations.len(),
    {
        if self.operations.len() == 0 {
            Seq::empty()
        } else {
            let last = self.operations.len() - 1;
            self.before().handed_over() + handed_over(self.states[last], self.operations[last])
        }
    }

    /// All data that writes reported as accepted.
    pub open spec fn accepted(self) -> Seq<u8>
        decreases self.operations.len(),
    {
        if self.operations.len() == 0 {
            Seq::empty()
        } else {
            self.before().accepted() + accepted_by(self.operations.last())
        }
    }

    /// The outgoing stream: what the IO took, and what is still buffered.
    pub open spec fn stream(self) -> Seq<u8> {
        self.handed_over() + self.last().send.buf
    }

    /// All bytes that have arrived: those that were read past the end of the HTTP upgrade, and
    /// those that the IO gave.
    pub open spec fn arrived(self) -> Seq<u8>
        decreases self.operations.len(),
    {
        if self.operations.len() == 0 {
            self.first().decoder.buf
        } else {
            self.before().arrived() + arrived_by(self.operations.last())
        }
    }

    /// All binary data that was handed to the caller.
    pub open spec fn delivered(self) -> Seq<u8>
        decreases self.operations.len(),
    {
        if self.operations.len() == 0 {
            Seq::empty()
        } else {
            self.before().delivered() + delivered_by(self.operations.last())
        }
    }

    /// The binary data that has arrived and is still to be handed to the caller.
    pub open spec fn unread(self) -> Seq<u8> {
        binary(to_come(self.last(), Seq::empty()))
    }
}

proof fn lemma_wire_push(
    frames: Seq<(Option<Seq<u8>>, Message)>,
    mask: Option<Seq<u8>>,
    message: Message,
)
    ensures
        crate::recv::log::wire(frames.push((mask, message))) == crate::recv::log::wire(frames)
            + crate::send::frame_bytes(mask, message.opcode(), message.payload()),
        crate::recv::log::payloads(frames.push((mask, message))) == crate::recv::log::payloads(
            frames,
        ) + Sent::Frame(mask, message).data(),
    decreases frames.len(),
{
    let more = frames.push((mask, message));
    let frame = crate::send::frame_bytes(mask, message.opcode(), message.payload());
    if frames.len() == 0 {
        assert(more.drop_first() =~= frames);
        assert(crate::recv::log::wire(more) =~= crate::recv::log::wire(frames) + frame);
        assert(crate::recv::log::payloads(more) =~= crate::recv::log::payloads(frames)
            + Sent::Frame(mask, message).data());
    } else {
        assert(more.drop_first() =~= frames.drop_first().push((mask, message)));
        lemma_wire_push(frames.drop_first(), mask, message);
        assert(more.first() == frames.first());
        assert(crate::recv::log::wire(more) =~= crate::recv::log::wire(frames) + frame);
        assert(crate::recv::log::payloads(more) =~= crate::recv::log::payloads(frames)
            + Sent::Frame(mask, message).data());
    }
}

/// Whether a receiver with such rules takes all the frames.
spec fn all_acceptable(rules: Rules, frames: Seq<(Option<Seq<u8>>, Message)>) -> bool {
    forall|i: int|
        #![trigger frames[i]]
        0 <= i < frames.len() ==> crate::recv::log::mask_acceptable(rules, frames[i].0)
            && frames[i].1.acceptable(rules)
}

/// A life without its last operation is one.
proof fn lemma_before_valid(trace: Trace)
    requires
        trace.valid(),
        trace.operations.len() > 0,
    ensures
        trace.before().valid(),
        trace.before().first() == trace.first(),
        ({
            let k = trace.operations.len() - 1;
            &&& trace.before().last() == trace.states[k]
            &&& trace.states[k].open_to(trace.operations[k])
            &&& trace.states[k].performs(trace.operations[k], trace.last())
        }),
        !trace.gave_up() ==> !trace.before().gave_up() && !gives_up(trace.operations.last()),
        trace.before().interrupted() || interrupts(trace.operations.last()) <==>
            trace.interrupted(),
{
    let before = trace.before();
    let k = trace.operations.len() - 1;
    assert forall|i: int|
        #![trigger before.operations[i]]
        0 <= i < before.operations.len() implies before.states[i].open_to(before.operations[i])
        && before.states[i].performs(before.operations[i], before.states[i + 1]) by {
        assert(before.operations[i] == trace.operations[i]);
    }
    assert(trace.operations[k] == trace.operations.last());
    if before.gave_up() {
        let i = choose|i: int|
            0 <= i < before.operations.len() && gives_up(#[trigger] before.operations[i]);
        assert(gives_up(trace.operations[i]));
    }
    if before.interrupted() {
        let i = choose|i: int|
            0 <= i < before.operations.len() && interrupts(#[trigger] before.operations[i]);
        assert(interrupts(trace.operations[i]));
    }
    if trace.interrupted() {
        let i = choose|i: int|
            0 <= i < trace.operations.len() && interrupts(#[trigger] trace.operations[i]);
        if i < k {
            assert(interrupts(before.operations[i]));
        }
    }
}

/// The parts of a connection fit together in all its life, and our side and the configuration never
/// change.
pub proof fn law_life(trace: Trace)
    requires
        trace.valid(),
    ensures
        trace.last().wf(),
        continues(trace.first(), trace.last()),
    decreases trace.operations.len(),
{
    if trace.operations.len() > 0 {
        lemma_before_valid(trace);
        law_life(trace.before());
        let pre = trace.before().last();
        law_well_formed(pre, trace.operations.last(), trace.last());
        law_closing_is_final(pre, trace.operations.last(), trace.last());
    } else {
        law_start_well_formed(
            trace.first().role,
            trace.first().config,
            trace.first().decoder.buf,
        );
    }
}

/// What the last operation of a life adds to the outgoing stream.
proof fn lemma_last_sent(trace: Trace, limit: usize) -> (sent: Sent)
    requires
        trace.valid(),
        !trace.gave_up(),
        trace.texts_within(limit),
        trace.operations.len() > 0,
    ensures
        trace.stream() == trace.before().stream() + sent.wire(),
        trace.accepted() == trace.before().accepted() + sent.data(),
        trace.before().texts_within(limit),
        sent.valid(trace.first().role),
        sent.text() matches Some(text) ==> text.len() <= limit,
        trace.before().last().send.close_sent ==> sent is Nothing && trace.last().send.close_sent,
        sent is Close <==> !trace.before().last().send.close_sent && trace.last().send.close_sent,
{
    lemma_before_valid(trace);
    law_life(trace.before());
    let k = trace.operations.len() - 1;
    let operation = trace.operations[k];
    let pre = trace.states[k];
    let post = trace.last();
    let sent = law_stream(pre, operation, post);
    law_closing_is_final(pre, operation, post);
    let handed = handed_over(pre, operation);
    let all = trace.before().handed_over();
    assert(trace.stream() =~= all + (handed + post.send.buf));
    assert(all + (pre.send.buf + sent.wire()) =~= trace.before().stream() + sent.wire());
    assert forall|i: int|
        #![trigger trace.before().operations[i]]
        0 <= i < trace.before().operations.len() implies (text_of(
        trace.before().operations[i],
    ) matches Some(text) ==> text.len() <= limit) by {
        assert(trace.before().operations[i] == trace.operations[i]);
    }
    sent
}

/// The outgoing stream consists of frames, and of our Close frame at its end once it is queued.
proof fn lemma_sent(trace: Trace, rules: Rules) -> (r: (Seq<(Option<Seq<u8>>, Message)>, Sent))
    requires
        trace.valid(),
        !trace.gave_up(),
        trace.texts_within(rules.max_message_size),
        rules.role != trace.first().role,
    ensures
        trace.stream() == crate::recv::log::wire(r.0) + r.1.wire(),
        crate::recv::log::payloads(r.0) == trace.accepted(),
        all_acceptable(rules, r.0),
        r.1 is Nothing || r.1 is Close,
        r.1.valid(trace.first().role),
        r.1 is Close <==> trace.last().send.close_sent,
    decreases trace.operations.len(),
{
    let none = Seq::<u8>::empty();
    if trace.operations.len() == 0 {
        let frames = Seq::<(Option<Seq<u8>>, Message)>::empty();
        assert(trace.stream() =~= none);
        assert(crate::recv::log::wire(frames) + none =~= none);
        (frames, Sent::Nothing)
    } else {
        lemma_before_valid(trace);
        let sent = lemma_last_sent(trace, rules.max_message_size);
        let (frames, close) = lemma_sent(trace.before(), rules);
        lemma_trace_step(trace.before().stream(), frames, close, sent);
        match sent {
            Sent::Nothing => {
                assert(trace.before().accepted() + none =~= trace.before().accepted());
                (frames, close)
            },
            Sent::Frame(mask, message) => {
                let more = frames.push((mask, message));
                lemma_acceptable_push(rules, frames, mask, message);
                (more, Sent::Nothing)
            },
            Sent::Close(_, _) => {
                assert(trace.before().accepted() + none =~= trace.before().accepted());
                (frames, sent)
            },
        }
    }
}

proof fn lemma_acceptable_push(
    rules: Rules,
    frames: Seq<(Option<Seq<u8>>, Message)>,
    mask: Option<Seq<u8>>,
    message: Message,
)
    requires
        all_acceptable(rules, frames),
        crate::recv::log::mask_acceptable(rules, mask),
        message.acceptable(rules),
    ensures
        all_acceptable(rules, frames.push((mask, message))),
{
    let more = frames.push((mask, message));
    assert forall|i: int| #![trigger more[i]] 0 <= i < more.len() implies
        crate::recv::log::mask_acceptable(rules, more[i].0) && more[i].1.acceptable(rules) by {
        if i < frames.len() {
            assert(more[i] == frames[i]);
        }
    }
}

/// What is added to a stream of frames becomes its end, or one more frame.
proof fn lemma_trace_step(
    stream: Seq<u8>,
    frames: Seq<(Option<Seq<u8>>, Message)>,
    close: Sent,
    sent: Sent,
)
    requires
        stream == crate::recv::log::wire(frames) + close.wire(),
        close is Nothing || sent is Nothing,
    ensures
        sent is Nothing ==> stream + sent.wire() == crate::recv::log::wire(frames) + close.wire(),
        sent is Close ==> stream + sent.wire() == crate::recv::log::wire(frames) + sent.wire(),
        sent matches Sent::Frame(mask, message) ==> stream + sent.wire() == crate::recv::log::wire(
            frames.push((mask, message)),
        ) + Sent::Nothing.wire() && crate::recv::log::payloads(frames.push((mask, message)))
            == crate::recv::log::payloads(frames) + sent.data(),
{
    let none = Seq::<u8>::empty();
    match sent {
        Sent::Nothing => assert(stream + none =~= stream),
        Sent::Frame(mask, message) => {
            lemma_wire_push(frames, mask, message);
            assert(crate::recv::log::wire(frames) + none =~= crate::recv::log::wire(frames));
            let more = crate::recv::log::wire(frames.push((mask, message)));
            assert(more + none =~= more);
        },
        Sent::Close(_, _) => {
            assert(crate::recv::log::wire(frames) + none =~= crate::recv::log::wire(frames));
        },
    }
}

/// Whether no item is a violation.
spec fn no_violation(items: Seq<Item>) -> bool {
    forall|i: int| #![trigger items[i]] 0 <= i < items.len() ==> !(items[i] is Violation)
}

proof fn lemma_no_violation(frames: Seq<(Option<Seq<u8>>, Message)>)
    ensures
        no_violation(crate::recv::log::all_items(frames)),
    decreases frames.len(),
{
    if frames.len() > 0 {
        lemma_no_violation(frames.drop_first());
    }
}

/// The outgoing stream means what was sent, and nothing else.
proof fn lemma_stream_meaning(trace: Trace, rules: Rules)
    requires
        trace.valid(),
        !trace.gave_up(),
        trace.texts_within(rules.max_message_size),
        rules.role != trace.first().role,
    ensures
        binary(DecoderModel::start(trace.stream()).log(rules)) == trace.accepted(),
        no_violation(DecoderModel::start(trace.stream()).log(rules)),
{
    let (frames, close) = lemma_sent(trace, rules);
    crate::recv::log::law_byte_stream(rules, frames, close.wire());
    crate::recv::log::law_conversation_received(rules, frames, close.wire());
    lemma_no_violation(frames);
    let ended = DecoderModel::start(close.wire()).log(rules);
    match close {
        Sent::Close(mask, frame) => {
            crate::recv::log::law_close_received(rules, mask, frame, Seq::empty());
            assert(close.wire() + Seq::<u8>::empty() =~= close.wire());
            crate::recv::log::lemma_binary_other(Item::Close(frame));
        },
        _ => {
            assert(ended =~= Seq::<Item>::empty());
        },
    }
    assert(trace.accepted() + Seq::<u8>::empty() =~= trace.accepted());
}

/// The sending half of the duplex: whatever has been done with a connection, the outgoing stream
/// means to the other side exactly the data that writes have accepted, in order.
pub proof fn law_outgoing(trace: Trace, rules: Rules)
    requires
        trace.valid(),
        !trace.gave_up(),
        trace.texts_within(rules.max_message_size),
        rules.role != trace.first().role,
    ensures
        binary(DecoderModel::start(trace.stream()).log(rules)) == trace.accepted(),
{
    lemma_stream_meaning(trace, rules);
}

/// Whether `items` are what a life takes of the incoming stream, as far as it goes.
spec fn took(trace: Trace, items: Seq<Item>) -> bool {
    let rules = trace.first().rules();
    let log = DecoderModel::start(trace.arrived()).log(rules);
    &&& binary(items) == trace.delivered()
    &&& items.is_prefix_of(log)
    &&& !trace.last().failed ==> log == items + to_come(trace.last(), Seq::empty())
    &&& if trace.interrupted() {
        !receiving(trace.last())
    } else {
        &&& trace.last().failed ==> items.len() > 0 && items.last() is Violation
        &&& took_whatever_arrives(trace, items)
    }
}

/// Whether the rest of the stream is left, whatever arrives later.
spec fn took_whatever_arrives(trace: Trace, items: Seq<Item>) -> bool {
    forall|more: Seq<u8>|
        #![trigger to_come(trace.last(), more)]
        DecoderModel::start(trace.arrived() + more).log(trace.first().rules()) == items + to_come(
            trace.last(),
            more,
        )
}

/// What is left whatever arrives later is left if nothing does.
proof fn lemma_took(trace: Trace, items: Seq<Item>)
    requires
        took_whatever_arrives(trace, items),
    ensures
        ({
            let log = DecoderModel::start(trace.arrived()).log(trace.first().rules());
            &&& log == items + to_come(trace.last(), Seq::empty())
            &&& items.is_prefix_of(log)
        }),
{
    let none = Seq::<u8>::empty();
    assert(trace.arrived() + none =~= trace.arrived());
    assert(DecoderModel::start(trace.arrived() + none).log(trace.first().rules()) == items
        + to_come(trace.last(), none));
}

proof fn lemma_took_nothing(trace: Trace)
    requires
        trace.valid(),
        trace.operations.len() == 0,
    ensures
        took(trace, Seq::empty()),
{
    let nothing = Seq::<Item>::empty();
    let start = DecoderModel::start(trace.arrived());
    assert forall|more: Seq<u8>|
        #![trigger to_come(trace.last(), more)]
        DecoderModel::start(trace.arrived() + more).log(trace.first().rules()) == nothing
            + to_come(trace.last(), more) by {
        assert(start.with(more) == DecoderModel::start(trace.arrived() + more));
        assert(nothing + to_come(trace.last(), more) =~= to_come(trace.last(), more));
    }
    lemma_took(trace, nothing);
    assert(!trace.interrupted());
    assert(binary(nothing) == Seq::<u8>::empty());
}

/// What a life takes that was cut short before, or is now.
proof fn lemma_took_no_more(trace: Trace, first: Seq<Item>, others: Seq<Item>)
    requires
        trace.valid(),
        trace.operations.len() > 0,
        trace.interrupted(),
        took(trace.before(), first),
        receives(trace.before().last(), trace.operations.last(), trace.last(), others),
    ensures
        took(trace, first + others),
{
    lemma_before_valid(trace);
    law_life(trace.before());
    let before = trace.before();
    let operation = trace.operations.last();
    law_closing_is_final(before.last(), operation, trace.last());
    lemma_taken_no_more(before.last(), operation, trace.last(), others);
    assert(first + others =~= first);
    assert(trace.arrived() =~= before.arrived());
    assert(trace.delivered() =~= before.delivered() + binary(others));
    crate::recv::log::lemma_binary_concat(first, others);
    if !before.interrupted() {
        lemma_took(before, first);
    }
    assert(first + Seq::<Item>::empty() =~= first);
}

/// What a life takes that was not cut short.
proof fn lemma_took_on(trace: Trace, first: Seq<Item>, others: Seq<Item>)
    requires
        trace.valid(),
        trace.operations.len() > 0,
        !trace.interrupted(),
        took(trace.before(), first),
        receives(trace.before().last(), trace.operations.last(), trace.last(), others),
    ensures
        took(trace, first + others),
{
    lemma_before_valid(trace);
    let before = trace.before();
    let pre = before.last();
    let post = trace.last();
    let arrived = arrived_by(trace.operations.last());
    let rules = trace.first().rules();
    let items = first + others;
    crate::recv::log::lemma_binary_concat(first, others);
    assert forall|more: Seq<u8>|
        #![trigger to_come(post, more)]
        DecoderModel::start(trace.arrived() + more).log(rules) == items + to_come(post, more) by {
        assert(before.arrived() + (arrived + more) =~= trace.arrived() + more);
        assert(to_come(pre, arrived + more) == others + to_come(post, more));
        assert(first + (others + to_come(post, more)) =~= items + to_come(post, more));
    }
    lemma_took(trace, items);
    if pre.failed {
        let none = Seq::<u8>::empty();
        assert(to_come(pre, arrived + none) == others + to_come(post, none));
        assert(items =~= first);
    }
}

/// What a life takes of the incoming stream.
proof fn lemma_taken(trace: Trace) -> (items: Seq<Item>)
    requires
        trace.valid(),
    ensures
        took(trace, items),
    decreases trace.operations.len(),
{
    if trace.operations.len() == 0 {
        lemma_took_nothing(trace);
        Seq::empty()
    } else {
        lemma_before_valid(trace);
        law_life(trace.before());
        let first = lemma_taken(trace.before());
        let others = law_received(
            trace.before().last(),
            trace.operations.last(),
            trace.last(),
        );
        if trace.interrupted() {
            lemma_took_no_more(trace, first, others);
        } else {
            lemma_took_on(trace, first, others);
        }
        first + others
    }
}

/// Once receiving was cut short, nothing arrives and nothing is taken.
proof fn lemma_taken_no_more(
    pre: ConnModel,
    operation: Operation,
    post: ConnModel,
    items: Seq<Item>,
)
    requires
        pre.open_to(operation),
        continues(pre, post),
        receives(pre, operation, post, items),
        interrupts(operation) || !receiving(pre),
    ensures
        items.len() == 0,
        arrived_by(operation).len() == 0,
        !receiving(post),
{
    if !interrupts(operation) {
        let none = Seq::<u8>::empty();
        assert(to_come(pre, arrived_by(operation) + none) == items + to_come(post, none));
        assert(items.len() + to_come(post, none).len() == 0);
    }
}

/// The receiving half of the duplex: whatever has been done with a connection, and in whatever
/// pieces the incoming stream has arrived, the data that was handed to the caller, followed by what
/// is still to be, are the binary bytes of the stream, in order. That holds for all that arrives
/// later, too, unless receiving was cut short. If it was, what was handed out is the start of them,
/// and all of them unless the connection has failed.
pub proof fn law_incoming(trace: Trace, more: Seq<u8>)
    requires
        trace.valid(),
    ensures
        ({
            let rules = trace.first().rules();
            let bytes = binary(DecoderModel::start(trace.arrived()).log(rules));
            &&& trace.delivered().is_prefix_of(bytes)
            &&& !trace.interrupted() || !trace.last().failed ==> trace.delivered() + trace.unread()
                == bytes
            &&& !trace.interrupted() ==> trace.delivered() + binary(to_come(trace.last(), more))
                == binary(DecoderModel::start(trace.arrived() + more).log(rules))
        }),
{
    let rules = trace.first().rules();
    let none = Seq::<u8>::empty();
    let items = lemma_taken(trace);
    let log = DecoderModel::start(trace.arrived()).log(rules);
    let rest = log.skip(items.len() as int);
    assert(log =~= items + rest);
    crate::recv::log::lemma_binary_concat(items, rest);
    crate::recv::log::lemma_binary_concat(items, to_come(trace.last(), none));
    if !trace.interrupted() {
        assert(trace.arrived() + none =~= trace.arrived());
        assert(DecoderModel::start(trace.arrived() + none).log(rules) == items + to_come(
            trace.last(),
            none,
        ));
        assert(DecoderModel::start(trace.arrived() + more).log(rules) == items + to_come(
            trace.last(),
            more,
        ));
        crate::recv::log::lemma_binary_concat(items, to_come(trace.last(), more));
    }
}

/// A connection is a byte duplex: what one side writes is what the other side reads.
///
/// Whatever has been done with both sides, in whatever pieces the IO has taken and given the bytes
/// between them, the data that the receiver has handed out is the start of the data that the
/// sender's writes have accepted. Nothing is lost, repeated or reordered. Once the sender's Close
/// frame has been received, it is all of it. As long as the receiver has not failed, all that has
/// arrived is handed out or at hand. And it does not fail, unless the stream is cut off or its IO
/// fails.
pub proof fn law_duplex(sender: Trace, receiver: Trace)
    requires
        sender.valid(),
        receiver.valid(),
        sender.first().role != receiver.first().role,
        !sender.gave_up(),
        sender.texts_within(receiver.first().config.max_message_size),
        receiver.arrived().is_prefix_of(sender.handed_over()),
    ensures
        receiver.delivered().is_prefix_of(sender.accepted()),
        !receiver.interrupted() && receiver.last().close_received is Some ==> receiver.delivered()
            == sender.accepted(),
        !receiver.last().failed && receiver.arrived() == sender.stream() ==> receiver.delivered()
            + receiver.unread() == sender.accepted(),
        !receiver.interrupted() ==> !receiver.last().failed,
{
    let rules = receiver.first().rules();
    let all = sender.stream();
    let arrived = receiver.arrived();
    let missing = all.skip(arrived.len() as int);
    assert(all =~= arrived + missing);
    let start = DecoderModel::start(arrived);
    assert(start.with(missing) == DecoderModel::start(all));
    lemma_stream_meaning(sender, rules);
    law_incoming(receiver, missing);
    law_start_well_formed(receiver.first().role, receiver.first().config, arrived);
    law_received_so_far(start, rules, missing);
    let items = lemma_taken(receiver);
    if !receiver.interrupted() {
        assert(DecoderModel::start(arrived + missing).log(rules) == items + to_come(
            receiver.last(),
            missing,
        ));
        if receiver.last().failed {
            assert(DecoderModel::start(all).log(rules)[items.len() - 1] is Violation);
        }
        assert(receiver.delivered() + Seq::<u8>::empty() =~= receiver.delivered());
        assert(binary(Seq::<Item>::empty()) == Seq::<u8>::empty());
    }
}

/// What has been received of a stream is the start of what will be.
pub proof fn law_received_so_far(decoder: DecoderModel, rules: Rules, more: Seq<u8>)
    requires
        decoder.wf(),
    ensures
        decoder.log(rules).is_prefix_of(decoder.with(more).log(rules)),
        crate::recv::log::binary(decoder.log(rules)).is_prefix_of(
            crate::recv::log::binary(decoder.with(more).log(rules)),
        ),
{
    crate::recv::log::law_arrival(decoder, rules, more);
    if let Some(rest) = decoder.rest(rules) {
        crate::recv::log::lemma_binary_concat(decoder.log(rules), rest.with(more).log(rules));
    }
}

} // verus!
