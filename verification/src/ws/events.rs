//! What is received is reported, once and as it is, and answered.
//!
//! The incoming stream is a sequence of items. The laws below relate the items that an operation
//! takes to what the operation tells its caller, and to what it sends in return.
use crate::error::WebSocketError;
use crate::recv::log::{binary, starts_binary, Item};
use crate::send::{Drain, Outcome, SendModel};
use crate::ws::incoming::{polled_items, takes};
use crate::ws::kept::receiving;
use crate::ws::laws::to_come;
use crate::ws::operation::Operation;
use crate::ws::outgoing::{accounts_for, answers, idle, sends, Sent};
use crate::ws::receive::{ReplyModel, SignalModel};
use crate::ws::ConnModel;
use vstd::prelude::*;

verus! {

/// Whether a pong that waits is moved into the write buffer, which holds `buffered` bytes, unless
/// the buffer is full. An empty one never is.
pub open spec fn stages(pre: SendModel, buffered: int, post: SendModel) -> bool {
    pre.pong is Some ==> (post.pong is None <==> buffered == 0 || buffered
        < pre.write_buffer_size)
}

/// Whether a signal tells what comes next in the incoming stream, with `items` the part of it that
/// is taken: one event, or nothing if binary data is next, more bytes are needed, or (where only
/// binary data at hand was asked for) something else is next.
///
/// An event that is answered is reported after the answer has been written. Once the peer's Close
/// frame has been received, it is what is reported, as soon as our reply is out and the IO shut
/// down. A reply that is queued waits to be written by the receiving side.
pub open spec fn tells(
    pre: ConnModel,
    buffered_only: bool,
    items: Seq<Item>,
    post: ConnModel,
    signal: SignalModel,
) -> bool {
    let pongs = pre.config.auto_pong && !pre.send.close_sent;
    &&& signal is Write ==> post.send.buf.len() > 0
    &&& post == (ConnModel {
        decoder: post.decoder,
        send: post.send,
        close_received: post.close_received,
        failed: post.failed,
        ..pre
    })
    &&& post.failed != pre.failed ==> post.failed && items.len() > 0 && items[0] is Violation
    &&& if items.len() > 0 && signal is Write && !(items[0] is Violation) && !pre.send.close_sent {
        post.send.control_pending
    } else {
        post.send.control_pending == (pre.send.control_pending && (post.send.buf.len() > 0
            || post.send.pong is Some || !(signal is Shutdown)))
    }
    &&& post.close_received != pre.close_received ==> post.close_received is Some && items == seq![
        Item::Close(post.close_received->0),
    ]
    &&& match signal {
        SignalModel::Write(ReplyModel::Queued) => false,
        SignalModel::Write(ReplyModel::Ping(payload)) => {
            &&& pongs
            &&& items == seq![Item::Ping(payload)]
            &&& post.send.pong is None <==> pre.send.buf.len() == 0 || pre.send.buf.len()
                < pre.send.write_buffer_size
        },
        SignalModel::Write(ReplyModel::Failure(error)) => {
            &&& !pre.send.close_sent
            &&& post.failed
            &&& items == seq![Item::Violation(error)]
        },
        SignalModel::Write(ReplyModel::Close) => {
            &&& post.send.close_sent
            &&& !post.shutdown_done
            &&& post.close_received is Some
            &&& items.len() > 0 ==> items == seq![Item::Close(post.close_received->0)]
        },
        SignalModel::Shutdown => {
            &&& post.send.close_sent
            &&& post.send.buf.len() == 0
            &&& !post.shutdown_done
            &&& post.close_received is Some
            &&& items.len() > 0 ==> items == seq![Item::Close(post.close_received->0)]
        },
        SignalModel::Closed(frame) => {
            &&& !post.send.close_sent || post.shutdown_done
            &&& post.close_received == Some(frame)
            &&& items.len() > 0 ==> items == seq![Item::Close(frame)]
        },
        SignalModel::Read => {
            &&& !buffered_only
            &&& items.len() == 0
            &&& receiving(post)
            &&& !post.in_binary()
            &&& to_come(post, Seq::empty()).len() == 0
        },
        SignalModel::Pending => {
            &&& buffered_only
            &&& items.len() == 0
            &&& !starts_binary(to_come(post, Seq::empty()))
        },
        SignalModel::Failed(error) => {
            &&& pre.send.close_sent
            &&& post.failed
            &&& error matches WebSocketError::Protocol(violation) && items == seq![
                Item::Violation(violation),
            ]
        },
        SignalModel::Binary => items.len() == 0 && post.in_binary(),
        SignalModel::Empty => items == seq![Item::End],
        SignalModel::Text(text) => items == seq![Item::Text(text)],
        SignalModel::Ping(payload) => !pongs && items == seq![Item::Ping(payload)],
        SignalModel::Pong(payload) => items == seq![Item::Pong(payload)],
    }
}

proof fn lemma_pushed_some(
    pre: SendModel,
    post: SendModel,
    opcode: crate::frame::OpCode,
    payload: Seq<u8>,
)
    requires
        pre.wf(),
        pre.pushed(post, opcode, payload),
        payload.len() < 0x8000_0000_0000_0000,
    ensures
        post.buf.len() > 0,
{
    crate::send::lemma_pushed_len(pre, post, opcode, payload);
}

pub(crate) proof fn lemma_draining_some(pre: SendModel, post: SendModel, drain: Drain)
    requires
        pre.wf(),
        pre.draining(post, drain),
    ensures
        stages(pre, pre.buf.len() as int, post),
        drain is Write ==> post.buf.len() > 0,
        drain is Done ==> post.buf.len() == 0 && post.pong is None,
        drain is Write || drain is Done,
{
    if pre.pong_due() {
        let start = SendModel { pong: None, ..pre };
        lemma_pushed_some(start, post, crate::frame::OpCode::Pong, pre.pong->0);
        let mask = crate::send::lemma_pushed(
            start,
            post,
            crate::frame::OpCode::Pong,
            pre.pong->0,
        );
    }
}

proof fn lemma_close_queued_some(
    pre: SendModel,
    post: SendModel,
    frame: Option<crate::close::CloseModel>,
)
    requires
        pre.wf(),
        pre.close_queued(post, frame),
        frame matches Some(frame) ==> frame.reason.len() == 0,
    ensures
        post.buf.len() > 0,
        post.close_sent,
{
    lemma_pushed_some(
        SendModel { pong: None, close_sent: true, ..pre },
        post,
        crate::frame::OpCode::Close,
        crate::close::close_payload(frame),
    );
}

proof fn lemma_finishing_tells(
    pre: ConnModel,
    post: ConnModel,
    signal: SignalModel,
    items: Seq<Item>,
)
    requires
        pre.wf(),
        pre.close_received is Some,
        pre.finishing(post, signal),
        items.len() > 0 ==> items == seq![Item::Close(pre.close_received->0)],
    ensures
        tells(pre, false, items, post, signal),
{
    if pre.send.close_sent && !pre.shutdown_done {
        let drain = choose|drain: Drain|
            #[trigger] pre.send.draining(post.send, drain) && signal == if drain is Write {
                SignalModel::Write(ReplyModel::Close)
            } else {
                SignalModel::Shutdown
            };
        lemma_draining_some(pre.send, post.send, drain);
    }
}

/// What the bytes at hand come to is told as it is.
#[verifier::rlimit(30)]
pub proof fn law_advance_tells(
    pre: ConnModel,
    buffered_only: bool,
    post: ConnModel,
    signal: SignalModel,
) -> (items: Seq<Item>)
    requires
        pre.wf(),
        !pre.failed,
        pre.advanced(buffered_only, post, signal),
    ensures
        takes(pre, Seq::empty(), items, post),
        tells(pre, buffered_only, items, post, signal),
        items.len() <= 1,
{
    let items = crate::ws::incoming::lemma_advanced(pre, buffered_only, post, signal);
    let none = Seq::<u8>::empty();
    if pre.close_received is Some {
        if !buffered_only {
            lemma_finishing_tells(pre, post, signal, items);
        }
    } else {
        let rules = pre.rules();
        let (turn, decoder) = pre.decoder.run(rules, buffered_only);
        let mid = ConnModel { decoder, ..pre };
        crate::recv::log::law_run(pre.decoder, rules, buffered_only);
        crate::recv::log::law_arrives_piecewise(decoder, none, none);
        crate::ws::receive::lemma_run_binary(pre.decoder, rules, buffered_only);
        crate::ws::receive::lemma_run_ping(pre.decoder, rules, buffered_only);
        lemma_run_kind(pre.decoder, rules, buffered_only);
        match turn {
            crate::recv::TurnModel::Wait => {
                crate::recv::log::law_run_stops_at_other(pre.decoder, rules);
            },
            crate::recv::TurnModel::Ping(payload) => {
                if pre.config.auto_pong && !pre.send.close_sent {
                    let queued = SendModel {
                        pong: Some(payload),
                        control_pending: true,
                        ..pre.send
                    };
                    lemma_draining_some(queued, post.send, Drain::Write);
                }
            },
            crate::recv::TurnModel::Close(frame) => {
                if !pre.send.close_sent && !pre.config.defer_close_reply {
                    lemma_close_queued_some(
                        SendModel { control_pending: true, ..pre.send },
                        post.send,
                        match frame {
                            Some(frame) => Some(
                                crate::close::CloseModel {
                                    code: frame.code,
                                    reason: Seq::empty(),
                                },
                            ),
                            None => None,
                        },
                    );
                } else {
                    lemma_finishing_tells(
                        ConnModel { close_received: Some(frame), ..mid },
                        post,
                        signal,
                        items,
                    );
                }
            },
            crate::recv::TurnModel::Violation(error) => {
                if !pre.send.close_sent {
                    lemma_close_queued_some(
                        pre.send,
                        post.send,
                        Some(
                            crate::close::CloseModel {
                                code: error.spec_close_code(),
                                reason: Seq::empty(),
                            },
                        ),
                    );
                }
            },
            _ => {},
        }
    }
    items
}

/// Only what was asked for is waited for.
proof fn lemma_run_kind(
    decoder: crate::recv::DecoderModel,
    rules: crate::recv::Rules,
    buffered_only: bool,
)
    requires
        decoder.wf(),
    ensures
        decoder.run(rules, buffered_only).0 is Wait ==> buffered_only,
        decoder.run(rules, buffered_only).0 is Fill ==> !buffered_only,
        decoder.run(rules, buffered_only).0 !is Next,
        decoder.run(rules, buffered_only).0 is Fill ==> !decoder.run(
            rules,
            buffered_only,
        ).1.frame.carries(crate::recv::MessageKind::Binary),
    decreases decoder.buf.len(),
{
    let (turn, post) = decoder.turn(rules, buffered_only);
    decoder.lemma_turn(rules, buffered_only);
    crate::recv::log::law_turn(decoder, rules, buffered_only);
    if turn is Next {
        lemma_run_kind(post, rules, buffered_only);
    }
}

/// Whether asking for an event comes to what it should: a deferred error comes first, a failed
/// connection stays so, and replies that were queued before are written before anything else.
pub open spec fn poll_tells(
    pre: ConnModel,
    buffered_only: bool,
    items: Seq<Item>,
    post: ConnModel,
    signal: SignalModel,
) -> bool {
    if let Some(error) = pre.pending_error {
        &&& signal == SignalModel::Failed(error)
        &&& items.len() == 0
        &&& post == (ConnModel { pending_error: None, ..pre })
    } else if pre.failed {
        &&& signal == SignalModel::Failed(WebSocketError::Failed)
        &&& items.len() == 0
        &&& post == pre
    } else if pre.send.control_pending && !buffered_only && (pre.send.buf.len() > 0
        || pre.send.pong is Some) {
        &&& signal == SignalModel::Write(ReplyModel::Queued)
        &&& items.len() == 0
        &&& post.send.buf.len() > 0
        &&& post.send.control_pending
        &&& stages(pre.send, pre.send.buf.len() as int, post.send)
        &&& post == (ConnModel { send: post.send, ..pre })
    } else {
        let waiting = pre.send.control_pending && buffered_only;
        tells(
            ConnModel { send: SendModel { control_pending: waiting, ..pre.send }, ..pre },
            buffered_only,
            items,
            post,
            signal,
        )
    }
}

/// Asking for an event takes what comes first in the incoming stream, tells it, and answers it.
pub proof fn law_poll(
    pre: ConnModel,
    buffered_only: bool,
    post: ConnModel,
    signal: SignalModel,
) -> (r: (Seq<Item>, Sent))
    requires
        pre.wf(),
        pre.polled(buffered_only, post, signal),
    ensures
        takes(pre, Seq::empty(), r.0, post),
        binary(r.0) == Seq::<u8>::empty(),
        poll_tells(pre, buffered_only, r.0, post, signal),
        accounts_for(pre, pre.send, post.send, r.1),
        answers(pre.config, pre.send, r.0, post.send, r.1),
        r.0 == polled_items(pre, post, signal),
{
    let items = crate::ws::incoming::lemma_polled(pre, buffered_only, post, signal);
    let sent = crate::ws::outgoing::lemma_polled(pre, buffered_only, post, signal);
    if pre.pending_error is None && !pre.failed {
        if pre.send.control_pending && !buffered_only {
            if pre.send.pong_due() || pre.send.buf.len() > 0 {
                lemma_draining_some(pre.send, post.send, Drain::Write);
            } else {
                let mid = ConnModel {
                    send: SendModel { control_pending: false, ..pre.send },
                    ..pre
                };
                let same = law_advance_tells(mid, false, post, signal);
                let others = crate::ws::incoming::lemma_advanced(mid, false, post, signal);
                lemma_takes_unique(mid, Seq::empty(), same, others, post);
            }
        } else {
            let same = law_advance_tells(pre, buffered_only, post, signal);
            lemma_takes_unique(pre, Seq::empty(), same, items, post);
        }
    }
    (items, sent)
}

/// What is taken is determined by what is left.
pub(crate) proof fn lemma_takes_unique(
    pre: ConnModel,
    arrived: Seq<u8>,
    a: Seq<Item>,
    b: Seq<Item>,
    post: ConnModel,
)
    requires
        takes(pre, arrived, a, post),
        takes(pre, arrived, b, post),
    ensures
        a == b,
{
    let none = Seq::<u8>::empty();
    let rest = to_come(post, none);
    assert(to_come(pre, arrived + none) == a + rest);
    assert(to_come(pre, arrived + none) == b + rest);
    assert(a.len() == b.len());
    assert forall|i: int| 0 <= i < a.len() implies a[i] == b[i] by {
        assert((a + rest)[i] == (b + rest)[i]);
    }
    assert(a =~= b);
}

/// The error that an IO which failed, or took nothing, is reported as.
pub open spec fn io_error(outcome: Outcome) -> WebSocketError {
    if outcome is Failed {
        WebSocketError::Io
    } else {
        WebSocketError::WriteZero
    }
}

/// Whether going on after a write of replies comes to what it should.
///
/// As long as the IO takes something, writing goes on until nothing is left. Then, or when the IO
/// is not ready, the event that was answered is reported, except that our reply to the peer's Close
/// frame is waited for. If the IO fails, or takes nothing, so does the connection, unless it was
/// done anyway.
pub open spec fn reply_tells(
    pre: ConnModel,
    reply: ReplyModel,
    outcome: Outcome,
    items: Seq<Item>,
    post: ConnModel,
    signal: SignalModel,
) -> bool {
    let failed = outcome is Failed || outcome == Outcome::Ready(0);
    if outcome matches Outcome::Ready(n) && n > 0 && (n < pre.send.buf.len()
        || pre.send.pong is Some) {
        &&& signal == SignalModel::Write(reply)
        &&& items.len() == 0
        &&& post == (ConnModel { send: post.send, ..pre })
        &&& post.send.buf.len() > 0
        &&& post.send.control_pending == pre.send.control_pending
        &&& stages(pre.send, pre.send.buf.len() - outcome->Ready_0, post.send)
    } else {
        let now = if outcome is Ready && !failed {
            SendModel { buf: Seq::empty(), control_pending: false, ..pre.send }
        } else {
            pre.send
        };
        match reply {
            ReplyModel::Queued => if failed {
                &&& signal == SignalModel::Failed(io_error(outcome))
                &&& items.len() == 0
                &&& post == (ConnModel { failed: true, ..pre })
            } else {
                tells(ConnModel { send: now, ..pre }, false, items, post, signal)
            },
            ReplyModel::Ping(payload) => {
                &&& items.len() == 0
                &&& post == (ConnModel { send: now, failed: pre.failed || failed, ..pre })
                &&& signal == if failed {
                    SignalModel::Failed(io_error(outcome))
                } else {
                    SignalModel::Ping(payload)
                }
            },
            ReplyModel::Failure(error) => {
                &&& items.len() == 0
                &&& post == (ConnModel { send: now, ..pre })
                &&& signal == SignalModel::Failed(WebSocketError::Protocol(error))
            },
            ReplyModel::Close => {
                &&& items.len() == 0
                &&& if outcome is Pending {
                    signal is Pending && post == pre
                } else {
                    &&& signal is Shutdown
                    &&& post == (ConnModel { send: SendModel { buf: Seq::empty(), ..now }, ..pre })
                }
            },
        }
    }
}

/// Going on after a write of replies reports the event that was answered, or takes what comes first
/// in the incoming stream, tells it, and answers it.
pub proof fn law_reply(
    pre: ConnModel,
    reply: ReplyModel,
    outcome: Outcome,
    post: ConnModel,
    signal: SignalModel,
) -> (r: (Seq<Item>, Sent))
    requires
        pre.wf(),
        reply is Queued ==> !pre.failed,
        outcome matches Outcome::Ready(n) ==> n <= pre.send.buf.len(),
        pre.replied(reply, outcome, post, signal),
    ensures
        reply_tells(pre, reply, outcome, r.0, post, signal),
        binary(r.0) == Seq::<u8>::empty(),
        !post.failed || pre.failed || r.0.len() > 0 ==> takes(pre, Seq::empty(), r.0, post),
        answers(pre.config, pre.send, r.0, post.send, r.1),
        ({
            let operation = Operation::Reply { reply, outcome, signal };
            !crate::ws::outgoing::gives_up(operation) ==> sends(pre, operation, post, r.1)
        }),
{
    let (send, drain) = choose|send: SendModel, drain: Drain|
        #[trigger] pre.send.drained(outcome, send, drain) && (ConnModel {
            send,
            ..pre
        }).went_on(reply, drain, post, signal);
    let mid = ConnModel { send, ..pre };
    let first = crate::ws::outgoing::lemma_drained(pre, outcome, send, drain);
    lemma_drained_some(pre.send, outcome, send, drain);
    let nothing = Seq::<Item>::empty();
    crate::ws::incoming::lemma_takes_nothing(pre, mid);
    if reply is Queued && (drain is Done || drain is Blocked) {
        let items = law_advance_tells(mid, false, post, signal);
        let others = crate::ws::incoming::lemma_advanced(mid, false, post, signal);
        lemma_takes_unique(mid, Seq::empty(), items, others, post);
        crate::ws::incoming::lemma_takes_on(pre, Seq::empty(), nothing, mid, items, post);
        assert(nothing + items =~= items);
        let sent = crate::ws::outgoing::lemma_advanced(mid, false, post, signal);
        let taken = crate::ws::outgoing::handed_over(
            pre,
            Operation::Reply { reply, outcome, signal },
        );
        assert(taken + post.send.buf =~= pre.send.buf + sent.wire());
        (items, sent)
    } else {
        if receiving(post) == receiving(pre) {
            crate::ws::incoming::lemma_takes_nothing(pre, post);
        }
        (nothing, first)
    }
}

pub(crate) proof fn lemma_drained_some(
    pre: SendModel,
    outcome: Outcome,
    post: SendModel,
    drain: Drain,
)
    requires
        pre.wf(),
        outcome matches Outcome::Ready(n) ==> n <= pre.buf.len(),
        pre.drained(outcome, post, drain),
    ensures
        post.wf(),
        post.close_sent == pre.close_sent,
        match outcome {
            Outcome::Ready(n) => if n == 0 {
                drain == Drain::Failed(WebSocketError::WriteZero) && post == pre
            } else if n < pre.buf.len() || pre.pong is Some {
                drain is Write && post.buf.len() > 0 && stages(pre, pre.buf.len() - n, post)
            } else {
                &&& drain is Done
                &&& post == (SendModel { buf: Seq::empty(), control_pending: false, ..pre })
            },
            Outcome::Pending => drain is Blocked && post == pre,
            Outcome::Failed => drain == Drain::Failed(WebSocketError::Io) && post == pre,
        },
{
    if let Outcome::Ready(n) = outcome {
        if n > 0 {
            let mid = SendModel { buf: pre.buf.skip(n as int), ..pre };
            lemma_draining_some(mid, post, drain);
            if mid.pong_due() {
                let mask = crate::send::lemma_pushed(
                    SendModel { pong: None, ..mid },
                    post,
                    crate::frame::OpCode::Pong,
                    mid.pong->0,
                );
            }
            if n == pre.buf.len() && pre.pong is None {
                assert(post.buf =~= Seq::<u8>::empty());
            }
        }
    }
}

/// Whether an error is the one that has to be reported: one that was deferred, that the connection
/// has failed before, or the violation that comes last.
pub open spec fn blamed(pre: ConnModel, items: Seq<Item>, error: WebSocketError) -> bool {
    match pre.pending_error {
        Some(deferred) => error == deferred,
        None => if pre.failed {
            error == WebSocketError::Failed
        } else {
            &&& items.len() > 0
            &&& error matches WebSocketError::Protocol(violation)
            &&& items.last() == Item::Violation(violation)
        },
    }
}

/// What arrives is taken, told and answered, like anything that is at hand.
pub proof fn law_arrive(
    pre: ConnModel,
    data: Seq<u8>,
    post: ConnModel,
    signal: SignalModel,
) -> (r: (Seq<Item>, Sent))
    requires
        pre.wf(),
        receiving(pre),
        data.len() > 0,
        pre.arrived(data, post, signal),
    ensures
        takes(pre, data, r.0, post),
        tells(pre, false, r.0, post, signal),
        accounts_for(pre, pre.send, post.send, r.1),
        answers(pre.config, pre.send, r.0, post.send, r.1),
{
    let mid = ConnModel { decoder: pre.decoder.with(data), ..pre };
    let items = law_advance_tells(mid, false, post, signal);
    let others = crate::ws::incoming::lemma_advanced(mid, false, post, signal);
    lemma_takes_unique(mid, Seq::empty(), items, others, post);
    let sent = crate::ws::outgoing::lemma_advanced(mid, false, post, signal);
    assert forall|more: Seq<u8>|
        #![trigger to_come(post, more)]
        to_come(pre, data + more) == items + to_come(post, more) by {
        crate::recv::log::law_arrives_piecewise(pre.decoder, data, more);
        assert(Seq::<u8>::empty() + more =~= more);
    }
    (items, sent)
}

/// What the end of the stream comes to. If our Close frame has been queued and no frame is cut off,
/// it counts as a Close frame without a status code, and what is left to be done is done: our
/// frames are written, and the IO is shut down. It is an error otherwise.
pub proof fn law_end(pre: ConnModel, post: ConnModel, signal: SignalModel) -> (sent: Sent)
    requires
        pre.wf(),
        receiving(pre),
        pre.arrived(Seq::empty(), post, signal),
    ensures
        accounts_for(pre, pre.send, post.send, sent),
        idle(pre.send, post.send, sent),
        if pre.send.close_sent && pre.decoder.buf.len() == 0 && pre.decoder.frame is Header {
            &&& post == (ConnModel { close_received: Some(None), send: post.send, ..pre })
            &&& signal == if pre.shutdown_done {
                SignalModel::Closed(None)
            } else if pre.send.buf.len() > 0 {
                SignalModel::Write(ReplyModel::Close)
            } else {
                SignalModel::Shutdown
            }
        } else {
            &&& post == (ConnModel { failed: true, ..pre })
            &&& signal == SignalModel::Failed(WebSocketError::UnexpectedEof)
        },
{
    crate::ws::outgoing::lemma_ended(pre, post, signal)
}

} // verus!
