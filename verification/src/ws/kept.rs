//! What everything that is done with a connection keeps.
use crate::config::{ConfigModel, Role};
use crate::send::{Drain, Outcome, SendModel};
use crate::ws::operation::Operation;
use crate::ws::read::{lemma_polled_passes, passes, started, ReadStep};
use crate::ws::receive::{ReplyModel, SignalModel};
use crate::ws::ConnModel;
use vstd::prelude::*;

verus! {

/// Whether there is anything to come from the peer.
pub open spec fn receiving(conn: ConnModel) -> bool {
    !conn.failed && conn.close_received is None
}

/// Whether a connection that was once `pre` may be `post`: our side and the configuration are the
/// same, our Close frame stays queued, the peer's Close frame received and a failed connection
/// failed.
pub open spec fn continues(pre: ConnModel, post: ConnModel) -> bool {
    &&& post.role == pre.role
    &&& post.config == pre.config
    &&& pre.send.close_sent ==> post.send.close_sent
    &&& pre.close_received is Some ==> post.close_received == pre.close_received
    &&& pre.failed ==> post.failed
}

proof fn lemma_advanced_continues(
    pre: ConnModel,
    buffered_only: bool,
    post: ConnModel,
    signal: SignalModel,
)
    requires
        pre.wf(),
        !pre.failed,
        pre.advanced(buffered_only, post, signal),
    ensures
        post.wf(),
        continues(pre, post),
{
    if pre.close_received is None {
        crate::recv::log::law_run(pre.decoder, pre.rules(), buffered_only);
        crate::ws::receive::lemma_run_ping(pre.decoder, pre.rules(), buffered_only);
    }
}

proof fn lemma_polled_continues(
    pre: ConnModel,
    buffered_only: bool,
    post: ConnModel,
    signal: SignalModel,
)
    requires
        pre.wf(),
        pre.polled(buffered_only, post, signal),
    ensures
        post.wf(),
        continues(pre, post),
{
    if pre.pending_error is None && !pre.failed {
        if pre.send.control_pending && !buffered_only {
            if !pre.send.pong_due() && pre.send.buf.len() == 0 {
                let mid = ConnModel {
                    send: SendModel { control_pending: false, ..pre.send },
                    ..pre
                };
                lemma_advanced_continues(mid, false, post, signal);
            }
        } else {
            lemma_advanced_continues(pre, buffered_only, post, signal);
        }
    }
}

proof fn lemma_ended_continues(pre: ConnModel, post: ConnModel, signal: SignalModel)
    requires
        pre.wf(),
        receiving(pre),
        pre.ended(post, signal),
    ensures
        post.wf(),
        continues(pre, post),
{
    if pre.send.close_sent && pre.decoder.at_boundary() {
        lemma_advanced_continues(
            ConnModel { close_received: Some(None), ..pre },
            false,
            post,
            signal,
        );
    }
}

proof fn lemma_replied_continues(
    pre: ConnModel,
    reply: ReplyModel,
    outcome: Outcome,
    post: ConnModel,
    signal: SignalModel,
)
    requires
        pre.wf(),
        reply is Queued ==> !pre.failed,
        pre.replied(reply, outcome, post, signal),
    ensures
        post.wf(),
        continues(pre, post),
{
    let (send, drain) = choose|send: SendModel, drain: Drain|
        #[trigger] pre.send.drained(outcome, send, drain) && (ConnModel {
            send,
            ..pre
        }).went_on(reply, drain, post, signal);
    let mid = ConnModel { send, ..pre };
    if reply is Queued && (drain is Done || drain is Blocked) {
        lemma_advanced_continues(mid, false, post, signal);
    }
}

proof fn lemma_sending_continues(pre: ConnModel, operation: Operation, post: ConnModel)
    requires
        pre.wf(),
        pre.open_to(operation),
        pre.performs(operation, post),
        operation is Write || operation is ResumeWrite || operation is ResumeWriteVectored
            || operation is Send || operation is ResumeSend || operation is Flush
            || operation is ResumeFlush || operation is Close,
    ensures
        post.wf(),
        continues(pre, post),
{
}

proof fn lemma_reading_continues(
    pre: ConnModel,
    rounds: nat,
    dest: Seq<u8>,
    filled: nat,
    post: ConnModel,
    post_dest: Seq<u8>,
    post_filled: nat,
    step: ReadStep,
)
    requires
        pre.wf(),
        pre.reading(rounds, dest, filled, post, post_dest, post_filled, step),
    ensures
        post.wf(),
        continues(pre, post),
    decreases rounds, 1nat,
{
    if filled < dest.len() {
        let (mid, signal) = choose|mid: ConnModel, signal: SignalModel|
            #[trigger] pre.polled(started(filled), mid, signal)
                && mid.read_signalled(
                rounds,
                signal,
                dest,
                filled,
                post,
                post_dest,
                post_filled,
                step,
            );
        lemma_polled_continues(pre, started(filled), mid, signal);
        if passes(signal) {
            lemma_polled_passes(pre, started(filled), mid, signal);
        }
        lemma_signal_continues(
            mid,
            rounds,
            signal,
            dest,
            filled,
            post,
            post_dest,
            post_filled,
            step,
        );
    }
}

proof fn lemma_signal_continues(
    pre: ConnModel,
    rounds: nat,
    signal: SignalModel,
    dest: Seq<u8>,
    filled: nat,
    post: ConnModel,
    post_dest: Seq<u8>,
    post_filled: nat,
    step: ReadStep,
)
    requires
        pre.wf(),
        signal is Binary ==> pre.in_binary(),
        filled < dest.len(),
        pre.read_signalled(rounds, signal, dest, filled, post, post_dest, post_filled, step),
    ensures
        post.wf(),
        continues(pre, post),
    decreases rounds, 0nat,
{
    if signal is Binary && pre.decoder.buf.len() > 0 {
        let n = pre.deliverable((dest.len() - filled) as nat);
        lemma_reading_continues(
            ConnModel { decoder: pre.decoder.taken(n), ..pre },
            (rounds - 1) as nat,
            dest.take(filled as int) + pre.decoder.revealed(n) + dest.skip((filled + n) as int),
            filled + n,
            post,
            post_dest,
            post_filled,
            step,
        );
    } else if signal is Empty || signal is Ping || signal is Pong {
        lemma_reading_continues(
            pre,
            (rounds - 1) as nat,
            dest,
            filled,
            post,
            post_dest,
            post_filled,
            step,
        );
    }
}

proof fn lemma_continues(pre: ConnModel, operation: Operation, post: ConnModel)
    requires
        pre.wf(),
        pre.open_to(operation),
        pre.performs(operation, post),
    ensures
        post.wf(),
        continues(pre, post),
{
    match operation {
        Operation::Poll { buffered_only, signal } => {
            lemma_polled_continues(pre, buffered_only, post, signal);
        },
        Operation::Reply { reply, outcome, signal } => {
            lemma_replied_continues(pre, reply, outcome, post, signal);
        },
        Operation::Arrive { data, signal } => {
            if data.len() == 0 {
                lemma_ended_continues(pre, post, signal);
            } else {
                lemma_advanced_continues(
                    ConnModel { decoder: pre.decoder.with(data), ..pre },
                    false,
                    post,
                    signal,
                );
            }
        },
        Operation::ShutDown { .. } | Operation::Deliver { .. } | Operation::DeliverBytes { .. } => {
        },
        Operation::RecvThrough { dest, outcome, post_dest, recv_step } => {
            if outcome == Outcome::Ready(0) {
                let (mid, signal) = choose|mid: ConnModel, signal: SignalModel|
                    #[trigger] pre.ended(mid, signal) && mid.delivered(
                        signal,
                        dest,
                        post,
                        post_dest,
                        recv_step,
                    );
                lemma_ended_continues(pre, mid, signal);
            }
        },
        Operation::Read { rounds, dest, post_dest, post_filled, read_step } => {
            lemma_reading_continues(
                pre,
                rounds,
                dest,
                0,
                post,
                post_dest,
                post_filled,
                read_step,
            );
        },
        Operation::ResumeRead {
            rounds,
            signal,
            dest,
            filled,
            post_dest,
            post_filled,
            read_step,
        } => {
            lemma_signal_continues(
                pre,
                rounds,
                signal,
                dest,
                filled,
                post,
                post_dest,
                post_filled,
                read_step,
            );
        },
        Operation::ReadThrough {
            rounds,
            dest,
            outcome,
            post_dest,
            post_filled,
            read_step,
        } => if let Outcome::Ready(n) = outcome {
            if n > 0 {
                lemma_reading_continues(
                    pre.read_directly(n as nat),
                    rounds,
                    pre.decoder.frame.reveals(dest.take(n as int)) + dest.skip(n as int),
                    n as nat,
                    post,
                    post_dest,
                    post_filled,
                    read_step,
                );
            } else {
                let (mid, signal) = choose|mid: ConnModel, signal: SignalModel|
                    #[trigger] pre.ended(mid, signal) && mid.read_signalled(
                        rounds,
                        signal,
                        dest,
                        0,
                        post,
                        post_dest,
                        post_filled,
                        read_step,
                    );
                lemma_ended_continues(pre, mid, signal);
                lemma_signal_continues(
                    mid,
                    rounds,
                    signal,
                    dest,
                    0,
                    post,
                    post_dest,
                    post_filled,
                    read_step,
                );
            }
        },
        _ => lemma_sending_continues(pre, operation, post),
    }
}

/// Whatever is done with a connection, its parts go on to fit together.
pub proof fn law_well_formed(pre: ConnModel, operation: Operation, post: ConnModel)
    requires
        pre.wf(),
        pre.open_to(operation),
        pre.performs(operation, post),
    ensures
        post.wf(),
{
    lemma_continues(pre, operation, post);
}

/// Our side and the configuration never change, our Close frame stays queued, the peer's Close
/// frame received and a failed connection failed, whatever happens.
pub proof fn law_closing_is_final(pre: ConnModel, operation: Operation, post: ConnModel)
    requires
        pre.wf(),
        pre.open_to(operation),
        pre.performs(operation, post),
    ensures
        continues(pre, post),
{
    lemma_continues(pre, operation, post);
}

/// The parts of a new connection fit together.
pub proof fn law_start_well_formed(role: Role, config: ConfigModel, buf: Seq<u8>)
    requires
        config.valid(),
    ensures
        ConnModel::start(role, config, buf).wf(),
{
    assert(vstd::utf8::valid_utf8(Seq::<u8>::empty()));
    crate::utf8::scan::law_valid_extendable(Seq::<u8>::empty());
}

/// A new connection has sent and received nothing. What was read past the end of the upgrade is the
/// start of what it receives.
pub proof fn law_start(role: Role, config: ConfigModel, buf: Seq<u8>, more: Seq<u8>)
    ensures
        ({
            let conn = ConnModel::start(role, config, buf);
            &&& conn.role == role
            &&& conn.config == config
            &&& receiving(conn)
            &&& conn.pending_error is None
            &&& !conn.shutdown_done
            &&& conn.send.buf.len() == 0
            &&& conn.send.pong is None
            &&& !conn.send.close_sent
            &&& !conn.send.control_pending
            &&& conn.send.write_buffer_size == config.write_buffer_size
            &&& crate::ws::laws::to_come(conn, more) == crate::recv::DecoderModel::start(
                buf + more,
            ).log(conn.rules())
            &&& role == Role::Server <==> conn.send.keys is Unmasked
            &&& role == Role::Client && config.zero_mask_key <==> conn.send.keys is Zero
        }),
{
}

} // verus!
