//! Everything that can be done with a connection.
use crate::close::CloseModel;
use crate::frame::OpCode;
use crate::send::Outcome;
use crate::ws::deliver::RecvStep;
use crate::ws::read::ReadStep;
use crate::ws::receive::{ReplyModel, SignalModel};
use crate::ws::transmit::{Ack, FlushStep, SendStep, WriteStep};
use crate::ws::ConnModel;
use bytes::Bytes;
use vstd::prelude::*;

verus! {

/// What can be done with a connection, and what came of it.
pub enum Operation {
    /// [`WebSocketIO::poll_write`](crate::WebSocketIO::poll_write).
    Write {
        /// The data.
        data: Seq<u8>,
        /// Whether the IO supports vectored writes.
        vectored: bool,
        /// What came next.
        write_step: WriteStep,
    },
    /// [`WebSocketIO::resume_write`](crate::WebSocketIO::resume_write).
    ResumeWrite {
        /// The data.
        data: Seq<u8>,
        /// What became of the write to the IO.
        outcome: Outcome,
        /// What came next.
        write_step: WriteStep,
    },
    /// [`WebSocketIO::resume_write_vectored`](crate::WebSocketIO::resume_write_vectored).
    ResumeWriteVectored {
        /// The data.
        data: Seq<u8>,
        /// What became of the write to the IO.
        outcome: Outcome,
        /// What came next.
        write_step: WriteStep,
    },
    /// [`WebSocketIO::poll_send_text`](crate::WebSocketIO::poll_send_text) and the like.
    Send {
        /// What is sent.
        opcode: OpCode,
        /// The payload.
        payload: Seq<u8>,
        /// What came next.
        send_step: SendStep,
    },
    /// [`WebSocketIO::resume_send`](crate::WebSocketIO::resume_send).
    ResumeSend {
        /// What is sent.
        opcode: OpCode,
        /// The payload.
        payload: Seq<u8>,
        /// What became of the write to the IO.
        outcome: Outcome,
        /// What came next.
        send_step: SendStep,
    },
    /// [`WebSocketIO::poll_flush`](crate::WebSocketIO::poll_flush).
    Flush {
        /// What came next.
        flush_step: FlushStep,
    },
    /// [`WebSocketIO::resume_flush`](crate::WebSocketIO::resume_flush).
    ResumeFlush {
        /// What became of the write to the IO.
        outcome: Outcome,
        /// What came next.
        flush_step: FlushStep,
    },
    /// [`WebSocketIO::poll_close`](crate::WebSocketIO::poll_close).
    Close {
        /// The Close frame.
        frame: Option<CloseModel>,
        /// What came next.
        flush_step: FlushStep,
    },
    /// [`WebSocketIO::poll_event`](crate::WebSocketIO::poll_event).
    Poll {
        /// Whether only binary data that is at hand was asked for.
        buffered_only: bool,
        /// What came next.
        signal: SignalModel,
    },
    /// [`WebSocketIO::on_reply_written`](crate::WebSocketIO::on_reply_written).
    Reply {
        /// What was written.
        reply: ReplyModel,
        /// What became of the write to the IO.
        outcome: Outcome,
        /// What came next.
        signal: SignalModel,
    },
    /// [`WebSocketIO::on_read`](crate::WebSocketIO::on_read) with data, or the end of the stream.
    /// Any other outcome leaves the connection as it is.
    Arrive {
        /// The bytes.
        data: Seq<u8>,
        /// What came next.
        signal: SignalModel,
    },
    /// [`WebSocketIO::on_shutdown`](crate::WebSocketIO::on_shutdown) and
    /// [`WebSocketIO::close_shut_down`](crate::WebSocketIO::close_shut_down).
    ShutDown {
        /// What became of the shutdown of the IO.
        ack: Ack,
    },
    /// [`WebSocketIO::deliver`](crate::WebSocketIO::deliver), and
    /// [`WebSocketIO::read_buffered`](crate::WebSocketIO::read_buffered) if it hands anything out.
    /// After [`Poll`](Operation::Poll), it makes up
    /// [`WebSocketIO::poll_recv`](crate::WebSocketIO::poll_recv).
    Deliver {
        /// What came before.
        signal: SignalModel,
        /// What the caller's buffer held.
        dest: Seq<u8>,
        /// What it holds now.
        post_dest: Seq<u8>,
        /// What came next.
        recv_step: RecvStep<usize>,
    },
    /// [`WebSocketIO::deliver_bytes`](crate::WebSocketIO::deliver_bytes). After
    /// [`Poll`](Operation::Poll), it makes up
    /// [`WebSocketIO::poll_recv_bytes`](crate::WebSocketIO::poll_recv_bytes).
    DeliverBytes {
        /// What came before.
        signal: SignalModel,
        /// What came next.
        bytes_step: RecvStep<Bytes>,
    },
    /// [`WebSocketIO::recv_through`](crate::WebSocketIO::recv_through).
    RecvThrough {
        /// What the caller's buffer held, with what the IO put there.
        dest: Seq<u8>,
        /// What became of the read from the IO.
        outcome: Outcome,
        /// What the buffer holds now.
        post_dest: Seq<u8>,
        /// What came next.
        recv_step: RecvStep<usize>,
    },
    /// [`WebSocketIO::poll_read`](crate::WebSocketIO::poll_read).
    Read {
        /// How many rounds it took at most.
        rounds: nat,
        /// What the caller's buffer held.
        dest: Seq<u8>,
        /// What it holds now.
        post_dest: Seq<u8>,
        /// How many bytes of it have been filled.
        post_filled: nat,
        /// What came next.
        read_step: ReadStep,
    },
    /// [`WebSocketIO::resume_read`](crate::WebSocketIO::resume_read).
    ResumeRead {
        /// How many rounds it took at most.
        rounds: nat,
        /// What came before.
        signal: SignalModel,
        /// What the caller's buffer held.
        dest: Seq<u8>,
        /// How many bytes of it had been filled.
        filled: nat,
        /// What it holds now.
        post_dest: Seq<u8>,
        /// How many bytes of it have been filled.
        post_filled: nat,
        /// What came next.
        read_step: ReadStep,
    },
    /// [`WebSocketIO::read_through`](crate::WebSocketIO::read_through).
    ReadThrough {
        /// How many rounds it took at most.
        rounds: nat,
        /// What the caller's buffer held, with what the IO put there.
        dest: Seq<u8>,
        /// What became of the read from the IO.
        outcome: Outcome,
        /// What the buffer holds now.
        post_dest: Seq<u8>,
        /// How many bytes of it have been filled.
        post_filled: nat,
        /// What came next.
        read_step: ReadStep,
    },
}

/// Whether a payload may be sent as a text message, a ping or a pong.
pub open spec fn sendable(opcode: OpCode, payload: Seq<u8>) -> bool {
    &&& opcode is Text || opcode is Ping || opcode is Pong
    &&& opcode is Text ==> vstd::utf8::valid_utf8(payload)
    &&& payload.len() <= isize::MAX
}

impl ConnModel {
    /// Whether the IO may have read straight into a buffer which holds `dest`.
    pub open spec fn open_to_direct_read(self, dest: Seq<u8>, outcome: Outcome) -> bool {
        &&& self.in_binary()
        &&& self.decoder.buf.len() == 0
        &&& 0 < dest.len() <= isize::MAX
        &&& outcome matches Outcome::Ready(n) ==> n <= dest.len() && n <= self.decoder.frame.left()
    }

    /// Whether an operation is open to the caller: messages are what their type says they are,
    /// writes are only gone on with that were not refused, the IO takes no more than it was given
    /// and gives no more than it was asked for, it is read only as long as there is something to
    /// come, and shut down only after both Close frames.
    pub open spec fn open_to(self, operation: Operation) -> bool {
        match operation {
            Operation::Write { data, .. } => data.len() <= isize::MAX,
            Operation::ResumeWrite { data, outcome, .. } => {
                &&& data.len() <= isize::MAX
                &&& !self.send.close_sent
                &&& outcome matches Outcome::Ready(n) ==> n <= self.send.buf.len()
            },
            Operation::ResumeWriteVectored { data, outcome, .. } => {
                &&& data.len() <= isize::MAX
                &&& !self.send.close_sent
                &&& !(self.send.keys is Random)
                &&& outcome matches Outcome::Ready(n) ==> n <= self.send.buf.len()
                    + self.direct_frame(data).len()
            },
            Operation::Send { opcode, payload, .. } => sendable(opcode, payload),
            Operation::ResumeSend { opcode, payload, outcome, .. } => {
                &&& sendable(opcode, payload)
                &&& opcode.control() ==> payload.len() <= crate::frame::MAX_CONTROL_PAYLOAD
                &&& !self.send.close_sent
                &&& outcome matches Outcome::Ready(n) ==> n <= self.send.buf.len()
            },
            Operation::Close { frame, .. } => frame matches Some(frame) ==> vstd::utf8::valid_utf8(
                frame.reason,
            ),
            Operation::ResumeFlush { outcome, .. } => {
                outcome matches Outcome::Ready(n) ==> n <= self.send.buf.len()
            },
            Operation::Reply { reply, outcome, .. } => {
                &&& outcome matches Outcome::Ready(n) ==> n <= self.send.buf.len()
                &&& reply is Queued ==> !self.failed
            },
            Operation::Arrive { .. } => !self.failed && self.close_received is None,
            Operation::ShutDown { .. } => self.close_received is Some && self.send.close_sent,
            Operation::Deliver { signal, dest, .. } => {
                &&& dest.len() <= isize::MAX
                &&& signal is Binary ==> self.in_binary()
            },
            Operation::DeliverBytes { signal, .. } => signal is Binary ==> self.in_binary(),
            Operation::Read { dest, .. } => dest.len() <= isize::MAX,
            Operation::ResumeRead { signal, dest, filled, .. } => {
                &&& filled < dest.len() <= isize::MAX
                &&& signal is Binary ==> self.in_binary()
            },
            Operation::RecvThrough { dest, outcome, .. } | Operation::ReadThrough {
                dest,
                outcome,
                ..
            } => self.open_to_direct_read(dest, outcome),
            Operation::Flush { .. } | Operation::Poll { .. } => true,
        }
    }

    /// Whether an operation takes the connection to `post`.
    pub open spec fn performs(self, operation: Operation, post: ConnModel) -> bool {
        match operation {
            Operation::Write { data, vectored, write_step } => self.write_begun(
                post,
                data,
                vectored,
                write_step,
            ),
            Operation::ResumeWrite { data, outcome, write_step } => self.write_resumed(
                post,
                data,
                outcome,
                write_step,
            ),
            Operation::ResumeWriteVectored { data, outcome, write_step } => self.directly_written(
                post,
                data,
                outcome,
                write_step,
            ),
            Operation::Send { opcode, payload, send_step } => self.send_begun(
                post,
                opcode,
                payload,
                send_step,
            ),
            Operation::ResumeSend { opcode, payload, outcome, send_step } => self.send_resumed(
                post,
                opcode,
                payload,
                outcome,
                send_step,
            ),
            Operation::Flush { flush_step } => self.flush_begun(post, flush_step),
            Operation::ResumeFlush { outcome, flush_step } => self.flush_resumed(
                post,
                outcome,
                flush_step,
            ),
            Operation::Close { frame, flush_step } => self.close_begun(post, frame, flush_step),
            Operation::Poll { buffered_only, signal } => self.polled(buffered_only, post, signal),
            Operation::Reply { reply, outcome, signal } => self.replied(
                reply,
                outcome,
                post,
                signal,
            ),
            Operation::Arrive { data, signal } => self.arrived(data, post, signal),
            Operation::ShutDown { ack } => post == if ack is Pending {
                self
            } else {
                ConnModel { shutdown_done: true, ..self }
            },
            Operation::Deliver { signal, dest, post_dest, recv_step } => self.delivered(
                signal,
                dest,
                post,
                post_dest,
                recv_step,
            ),
            Operation::DeliverBytes { signal, bytes_step } => self.delivered_bytes(
                signal,
                post,
                bytes_step,
            ),
            Operation::RecvThrough { dest, outcome, post_dest, recv_step } => {
                self.delivered_through(dest, outcome, post, post_dest, recv_step)
            },
            Operation::Read { rounds, dest, post_dest, post_filled, read_step } => self.reading(
                rounds,
                dest,
                0,
                post,
                post_dest,
                post_filled,
                read_step,
            ),
            Operation::ResumeRead {
                rounds,
                signal,
                dest,
                filled,
                post_dest,
                post_filled,
                read_step,
            } => self.read_signalled(
                rounds,
                signal,
                dest,
                filled,
                post,
                post_dest,
                post_filled,
                read_step,
            ),
            Operation::ReadThrough {
                rounds,
                dest,
                outcome,
                post_dest,
                post_filled,
                read_step,
            } => self.reading_through(
                rounds,
                dest,
                outcome,
                post,
                post_dest,
                post_filled,
                read_step,
            ),
        }
    }
}

} // verus!
