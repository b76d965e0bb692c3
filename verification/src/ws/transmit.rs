//! Sending: binary data, text, pings and pongs, flushing and closing.
use crate::close::{validate, CloseCode, CloseFrame, CloseModel};
use crate::error::WebSocketError;
use crate::frame::{HeaderModel, OpCode, MAX_CONTROL_PAYLOAD, MAX_HEADER_LEN};
use crate::send::{Drain, FrameHead, Outcome, SendModel, MAX_CONTROL_FRAME};
use crate::ws::operation::Operation;
use crate::ws::{ConnModel, WebSocketIO};
use vstd::prelude::*;

verus! {

/// What became of a flush or a shutdown of the IO.
#[derive(Clone, Copy, Debug, PartialEq, Eq, Structural)]
pub enum Ack {
    /// The IO is not ready.
    Pending,
    /// The IO failed.
    Failed,
    /// It is done.
    Done,
}

/// What comes next in a write of binary data.
pub enum WriteStep {
    /// Write [`WebSocketIO::buffered`] to the IO and go on with [`WebSocketIO::resume_write`].
    Write,
    /// Write [`WebSocketIO::buffered`], this header and the accepted data to the IO, in one
    /// vectored write, and go on with [`WebSocketIO::resume_write_vectored`].
    WriteVectored(FrameHead),
    /// The IO is not ready.
    Pending,
    /// The write is over, with the number of bytes accepted.
    Ready(Result<usize, WebSocketError>),
}

/// What comes next in sending a text message, a ping or a pong.
#[derive(Clone, Copy, Debug, PartialEq, Eq)]
pub enum SendStep {
    /// Write [`WebSocketIO::buffered`] to the IO and go on with [`WebSocketIO::resume_send`].
    Write,
    /// The IO is not ready.
    Pending,
    /// The message is queued, or refused.
    Ready(Result<(), WebSocketError>),
}

/// What comes next in flushing or closing.
#[derive(Clone, Copy, Debug, PartialEq, Eq)]
pub enum FlushStep {
    /// Write [`WebSocketIO::buffered`] to the IO and go on with [`WebSocketIO::resume_flush`].
    Write,
    /// Flush the IO and go on with [`WebSocketIO::flushed`] or [`WebSocketIO::close_flushed`].
    Flush,
    /// Shut the IO down and go on with [`WebSocketIO::close_shut_down`].
    Shutdown,
    /// The IO is not ready.
    Pending,
    /// It is over.
    Ready(Result<(), WebSocketError>),
}

impl ConnModel {
    /// The part of `data` that a single write accepts at most.
    pub open spec fn accepted(self, data: Seq<u8>) -> Seq<u8> {
        data.take(crate::recv::least(data.len(), self.config.max_frame_size as nat) as int)
    }

    /// Whether the write buffer has room for what a write of `len` bytes may add to it: the frame
    /// for the part that is accepted, and a pong. A write that is refused, or empty, adds nothing.
    pub open spec fn fits_write(self, len: nat) -> bool {
        self.send.close_sent || len == 0 || self.send.fits(
            crate::recv::least(len, self.config.max_frame_size as nat) + MAX_HEADER_LEN
                + MAX_CONTROL_FRAME,
        )
    }

    /// Whether the write buffer has room for what sending a message with `len` bytes may add to it:
    /// its frame, and a pong. A message that is refused adds nothing.
    pub open spec fn fits_send(self, opcode: OpCode, len: nat) -> bool {
        self.send.close_sent || (opcode.control() && len > MAX_CONTROL_PAYLOAD) || self.send.fits(
            len + MAX_HEADER_LEN + MAX_CONTROL_FRAME,
        )
    }

    /// The header of a binary frame that is sent straight from the caller's buffer.
    pub open spec fn direct_header(self, len: nat) -> Seq<u8> {
        crate::frame::encoded(
            HeaderModel {
                fin: true,
                opcode: OpCode::Binary,
                mask: self.send.keys.fixed_mask(),
                len,
            },
        )
    }

    /// The frame for the accepted part of `data`, if it is sent straight from the caller's buffer.
    pub open spec fn direct_frame(self, data: Seq<u8>) -> Seq<u8> {
        crate::send::frame_bytes(
            self.send.keys.fixed_mask(),
            OpCode::Binary,
            self.accepted(data),
        )
    }

    /// How a write of binary data starts.
    ///
    /// Large unmasked frames go straight to the IO, together with what is buffered. Others are
    /// appended to the buffer, which is drained first if they would overflow it.
    pub open spec fn write_begun(
        self,
        post: ConnModel,
        data: Seq<u8>,
        vectored: bool,
        step: WriteStep,
    ) -> bool {
        let accepted = self.accepted(data);
        if self.send.close_sent {
            post == self && step == WriteStep::Ready(Err(WebSocketError::Closed))
        } else if data.len() == 0 {
            post == self && step == WriteStep::Ready(Ok(0))
        } else {
            &&& post == (ConnModel { send: post.send, ..self })
            &&& if self.send.writes_through(accepted.len(), vectored) {
                &&& self.send.staged(post.send)
                &&& step matches WriteStep::WriteVectored(head) && head@ == self.direct_header(
                    accepted.len(),
                )
            } else if self.send.overflows(accepted.len()) {
                &&& self.send.draining(post.send, Drain::Write)
                &&& step is Write
            } else {
                &&& self.send.pushed(post.send, OpCode::Binary, accepted)
                &&& step == WriteStep::Ready(Ok(accepted.len() as usize))
            }
        }
    }

    /// How a write of binary data goes on after the buffer has been written to the IO.
    pub open spec fn write_resumed(
        self,
        post: ConnModel,
        data: Seq<u8>,
        outcome: Outcome,
        step: WriteStep,
    ) -> bool {
        exists|send: SendModel, drain: Drain|
            #[trigger] self.send.drained(outcome, send, drain) && self.write_resumed_after(
                send,
                drain,
                post,
                data,
                step,
            )
    }

    /// How a write of binary data goes on once the buffer has been drained so far.
    pub open spec fn write_resumed_after(
        self,
        send: SendModel,
        drain: Drain,
        post: ConnModel,
        data: Seq<u8>,
        step: WriteStep,
    ) -> bool {
        &&& post == (ConnModel { send: post.send, ..self })
        &&& match drain {
            Drain::Write => post.send == send && step is Write,
            Drain::Blocked => post.send == send && step is Pending,
            Drain::Failed(error) => post.send == send && step == WriteStep::Ready(Err(error)),
            Drain::Done => {
                &&& send.pushed(post.send, OpCode::Binary, self.accepted(data))
                &&& step == WriteStep::Ready(Ok(self.accepted(data).len() as usize))
            },
        }
    }

    /// How a write of binary data goes on after a vectored write to the IO.
    ///
    /// Once the IO has taken any byte of the new frame, all of its payload is accepted, and what
    /// the IO has not taken is buffered. Before that nothing is accepted. A pong that did not fit
    /// into the buffer still waits for the receiving side.
    pub open spec fn directly_written(
        self,
        post: ConnModel,
        data: Seq<u8>,
        outcome: Outcome,
        step: WriteStep,
    ) -> bool {
        let accepted = self.accepted(data);
        match outcome {
            Outcome::Pending => post == self && step is Pending,
            Outcome::Failed => post == self && step == WriteStep::Ready(Err(WebSocketError::Io)),
            Outcome::Ready(n) => if n == 0 {
                post == self && step == WriteStep::Ready(Err(WebSocketError::WriteZero))
            } else if n <= self.send.buf.len() {
                &&& post == (ConnModel { send: post.send, ..self })
                &&& (SendModel { buf: self.send.buf.skip(n as int), ..self.send }).staged(post.send)
                &&& step matches WriteStep::WriteVectored(head) && head@ == self.direct_header(
                    accepted.len(),
                )
            } else {
                &&& post == (ConnModel {
                    send: SendModel {
                        buf: (self.send.buf + self.direct_frame(data)).skip(n as int),
                        control_pending: self.send.control_pending && self.send.pong is Some,
                        ..self.send
                    },
                    ..self
                })
                &&& step == WriteStep::Ready(Ok(accepted.len() as usize))
            },
        }
    }

    /// How sending a single-frame message starts.
    pub open spec fn send_begun(
        self,
        post: ConnModel,
        opcode: OpCode,
        payload: Seq<u8>,
        step: SendStep,
    ) -> bool {
        if self.send.close_sent {
            post == self && step == SendStep::Ready(Err(WebSocketError::Closed))
        } else if opcode.control() && payload.len() > MAX_CONTROL_PAYLOAD {
            post == self && step == SendStep::Ready(Err(WebSocketError::ControlTooLarge))
        } else {
            &&& post == (ConnModel { send: post.send, ..self })
            &&& if self.send.overflows(payload.len()) {
                self.send.draining(post.send, Drain::Write) && step is Write
            } else {
                self.send.pushed(post.send, opcode, payload) && step == SendStep::Ready(Ok(()))
            }
        }
    }

    /// How sending a single-frame message goes on after the buffer has been written to the IO.
    pub open spec fn send_resumed(
        self,
        post: ConnModel,
        opcode: OpCode,
        payload: Seq<u8>,
        outcome: Outcome,
        step: SendStep,
    ) -> bool {
        exists|send: SendModel, drain: Drain|
            #[trigger] self.send.drained(outcome, send, drain) && self.send_resumed_after(
                send,
                drain,
                post,
                opcode,
                payload,
                step,
            )
    }

    /// How sending a single-frame message goes on once the buffer has been drained so far.
    pub open spec fn send_resumed_after(
        self,
        send: SendModel,
        drain: Drain,
        post: ConnModel,
        opcode: OpCode,
        payload: Seq<u8>,
        step: SendStep,
    ) -> bool {
        &&& post == (ConnModel { send: post.send, ..self })
        &&& match drain {
            Drain::Write => post.send == send && step is Write,
            Drain::Blocked => post.send == send && step is Pending,
            Drain::Failed(error) => post.send == send && step == SendStep::Ready(Err(error)),
            Drain::Done => {
                &&& send.pushed(post.send, opcode, payload)
                &&& step == SendStep::Ready(Ok(()))
            },
        }
    }

    /// What a flush comes to, given how far the buffer has been drained.
    pub open spec fn flush_step(drain: Drain) -> FlushStep {
        match drain {
            Drain::Write => FlushStep::Write,
            Drain::Done => FlushStep::Flush,
            Drain::Blocked => FlushStep::Pending,
            Drain::Failed(error) => FlushStep::Ready(Err(error)),
        }
    }

    /// How a flush starts.
    pub open spec fn flush_begun(self, post: ConnModel, step: FlushStep) -> bool {
        &&& post == (ConnModel { send: post.send, ..self })
        &&& exists|drain: Drain|
            #[trigger] self.send.draining(post.send, drain) && step == ConnModel::flush_step(drain)
    }

    /// How a flush goes on after the buffer has been written to the IO.
    pub open spec fn flush_resumed(
        self,
        post: ConnModel,
        outcome: Outcome,
        step: FlushStep,
    ) -> bool {
        &&& post == (ConnModel { send: post.send, ..self })
        &&& exists|drain: Drain|
            #[trigger] self.send.drained(outcome, post.send, drain) && step
                == ConnModel::flush_step(drain)
    }

    /// What a flush comes to once the IO has been flushed.
    pub open spec fn flush_acked(ack: Ack) -> FlushStep {
        match ack {
            Ack::Pending => FlushStep::Pending,
            Ack::Failed => FlushStep::Ready(Err(WebSocketError::Io)),
            Ack::Done => FlushStep::Ready(Ok(())),
        }
    }

    /// What closing comes to once the IO has been flushed: it is shut down after the peer's Close
    /// frame, once.
    pub open spec fn close_acked(self, ack: Ack) -> FlushStep {
        if ack is Done && self.close_received is Some && !self.shutdown_done {
            FlushStep::Shutdown
        } else {
            ConnModel::flush_acked(ack)
        }
    }

    /// What closing comes to once the IO has been shut down, or could not be.
    pub open spec fn close_ended(ack: Ack) -> FlushStep {
        if ack is Pending {
            FlushStep::Pending
        } else {
            FlushStep::Ready(Ok(()))
        }
    }

    /// How shutting down starts: closing, with the status code for a purpose that was fulfilled.
    pub open spec fn shutdown_begun(self, post: ConnModel, step: FlushStep) -> bool {
        self.close_begun(
            post,
            Some(CloseModel { code: CloseCode(1000), reason: Seq::empty() }),
            step,
        )
    }

    /// How closing starts: our Close frame is queued, unless it has been already.
    pub open spec fn close_begun(
        self,
        post: ConnModel,
        frame: Option<CloseModel>,
        step: FlushStep,
    ) -> bool {
        if self.send.close_sent {
            self.flush_begun(post, step)
        } else if frame matches Some(frame) && !frame.code.sendable() {
            post == self && step == FlushStep::Ready(
                Err(WebSocketError::CloseCode(frame->0.code)),
            )
        } else if frame matches Some(frame) && !frame.sendable() {
            post == self && step == FlushStep::Ready(Err(WebSocketError::CloseReason))
        } else {
            &&& post == (ConnModel { send: post.send, ..self })
            &&& self.send.close_queued(post.send, frame)
            &&& step is Write
        }
    }
}

impl WebSocketIO {
    /// Writes a prefix of `data` as one binary message and returns its length.
    ///
    /// This is the byte-stream half of the connection: the returned count may be shorter than
    /// `data` (at most [`Config::max_frame_size`](crate::Config::max_frame_size)), and small writes
    /// are buffered until [`poll_flush`](Self::poll_flush) or until the buffer fills up.
    ///
    /// Clients mask the payload while copying it into the write buffer. Servers send writes of at
    /// least half the write buffer straight from `data`, if the IO supports vectored writes, and
    /// copy only the part the IO did not accept.
    ///
    /// Fails with [`WebSocketError::Closed`] once our Close frame has been queued.
    pub fn poll_write(&mut self, data: &[u8], vectored: bool) -> (step: WriteStep)
        requires
            old(self).wf(),
            old(self)@.fits_write(data@.len()),
        ensures
            final(self).wf(),
            old(self)@.write_begun(final(self)@, data@, vectored, step),
    {
        if self.send.is_close_sent() {
            return WriteStep::Ready(Err(WebSocketError::Closed));
        }
        if data.len() == 0 {
            return WriteStep::Ready(Ok(0));
        }
        let ghost pre = self@;
        let len: usize = self.accepted_len(data.len());
        if self.send.is_write_through(len, vectored) {
            self.send.stage_pong();
            return WriteStep::WriteVectored(self.send.direct_header(len));
        }
        if self.send.would_overflow(len) {
            let _ = self.send.start_drain();
            return WriteStep::Write;
        }
        let accepted: &[u8] = vstd::slice::slice_subrange(data, 0, len);
        assert(accepted@ =~= pre.accepted(data@));
        self.send.push_frame(OpCode::Binary, accepted);
        WriteStep::Ready(Ok(len))
    }

    /// How many of `len` bytes a single write accepts.
    pub fn accepted_len(&self, len: usize) -> (n: usize)
        ensures
            n == crate::recv::least(len as nat, self@.config.max_frame_size as nat),
    {
        proof {
            self.config.lemma_options();
        }
        if len <= self.config.max_frame_size {
            len
        } else {
            self.config.max_frame_size
        }
    }

    /// Goes on with a write of `data` after [`buffered`](Self::buffered) has been written to the
    /// IO.
    pub fn resume_write(&mut self, data: &[u8], outcome: Outcome) -> (step: WriteStep)
        requires
            old(self).wf(),
            !old(self)@.send.close_sent,
            old(self)@.send.fits(
                old(self)@.accepted(data@).len() + MAX_HEADER_LEN + MAX_CONTROL_FRAME,
            ),
            outcome matches Outcome::Ready(n) ==> n <= old(self)@.send.buf.len(),
        ensures
            final(self).wf(),
            old(self)@.write_resumed(final(self)@, data@, outcome, step),
    {
        let ghost pre = self@;
        let drain: Drain = self.send.on_write(outcome);
        let ghost mid = self@.send;
        assert(pre.send.drained(outcome, mid, drain));
        match drain {
            Drain::Write => WriteStep::Write,
            Drain::Blocked => WriteStep::Pending,
            Drain::Failed(error) => WriteStep::Ready(Err(error)),
            Drain::Done => {
                let len: usize = self.accepted_len(data.len());
                let accepted: &[u8] = vstd::slice::slice_subrange(data, 0, len);
                assert(accepted@ =~= pre.accepted(data@));
                self.send.push_frame(OpCode::Binary, accepted);
                WriteStep::Ready(Ok(len))
            },
        }
    }

    /// Goes on with a write of `data` after a vectored write to the IO.
    pub fn resume_write_vectored(&mut self, data: &[u8], outcome: Outcome) -> (step: WriteStep)
        requires
            old(self).wf(),
            !old(self)@.send.close_sent,
            !(old(self)@.send.keys is Random),
            old(self)@.send.fits(
                old(self)@.accepted(data@).len() + MAX_HEADER_LEN + MAX_CONTROL_FRAME,
            ),
            outcome matches Outcome::Ready(n) ==> n <= old(self)@.send.buf.len()
                + old(self)@.direct_frame(data@).len(),
        ensures
            final(self).wf(),
            old(self)@.directly_written(final(self)@, data@, outcome, step),
    {
        let n: usize = match outcome {
            Outcome::Pending => return WriteStep::Pending,
            Outcome::Failed => return WriteStep::Ready(Err(WebSocketError::Io)),
            Outcome::Ready(n) => n,
        };
        if n == 0 {
            return WriteStep::Ready(Err(WebSocketError::WriteZero));
        }
        let ghost pre = self@;
        let len: usize = self.accepted_len(data.len());
        let accepted: &[u8] = vstd::slice::slice_subrange(data, 0, len);
        assert(accepted@ =~= pre.accepted(data@));
        if self.send.on_direct_write(accepted, n) {
            WriteStep::Ready(Ok(len))
        } else {
            self.send.stage_pong();
            WriteStep::WriteVectored(self.send.direct_header(len))
        }
    }

    /// Queues a text message. Buffered like [`poll_write`](Self::poll_write).
    ///
    /// The message is sent as a single frame, regardless of its length.
    pub fn poll_send_text(&mut self, text: &str) -> (step: SendStep)
        requires
            old(self).wf(),
            old(self)@.fits_send(OpCode::Text, vstd::utf8::encode_utf8(text@).len()),
        ensures
            final(self).wf(),
            old(self)@.send_begun(
                final(self)@,
                OpCode::Text,
                vstd::utf8::encode_utf8(text@),
                step,
            ),
    {
        self.poll_send_frame(OpCode::Text, text.as_bytes())
    }

    /// Queues a Ping frame. Buffered like [`poll_write`](Self::poll_write).
    ///
    /// Fails with [`WebSocketError::ControlTooLarge`] if `payload` exceeds 125 bytes.
    pub fn poll_send_ping(&mut self, payload: &[u8]) -> (step: SendStep)
        requires
            old(self).wf(),
            old(self)@.fits_send(OpCode::Ping, payload@.len()),
        ensures
            final(self).wf(),
            old(self)@.send_begun(final(self)@, OpCode::Ping, payload@, step),
    {
        self.poll_send_frame(OpCode::Ping, payload)
    }

    /// Queues an unsolicited Pong frame. Buffered like [`poll_write`](Self::poll_write).
    ///
    /// Fails with [`WebSocketError::ControlTooLarge`] if `payload` exceeds 125 bytes.
    pub fn poll_send_pong(&mut self, payload: &[u8]) -> (step: SendStep)
        requires
            old(self).wf(),
            old(self)@.fits_send(OpCode::Pong, payload@.len()),
        ensures
            final(self).wf(),
            old(self)@.send_begun(final(self)@, OpCode::Pong, payload@, step),
    {
        self.poll_send_frame(OpCode::Pong, payload)
    }

    fn poll_send_frame(&mut self, opcode: OpCode, payload: &[u8]) -> (step: SendStep)
        requires
            old(self).wf(),
            old(self)@.fits_send(opcode, payload@.len()),
        ensures
            final(self).wf(),
            old(self)@.send_begun(final(self)@, opcode, payload@, step),
    {
        if self.send.is_close_sent() {
            return SendStep::Ready(Err(WebSocketError::Closed));
        }
        if opcode.is_control() && payload.len() > MAX_CONTROL_PAYLOAD {
            return SendStep::Ready(Err(WebSocketError::ControlTooLarge));
        }
        if self.send.would_overflow(payload.len()) {
            let _ = self.send.start_drain();
            return SendStep::Write;
        }
        self.send.push_frame(opcode, payload);
        SendStep::Ready(Ok(()))
    }

    /// Goes on with sending a text message, a ping or a pong after [`buffered`](Self::buffered) has
    /// been written to the IO.
    pub fn resume_send(&mut self, opcode: OpCode, payload: &[u8], outcome: Outcome) -> (step:
        SendStep)
        requires
            old(self).wf(),
            !old(self)@.send.close_sent,
            old(self)@.send.fits(payload@.len() + MAX_HEADER_LEN + MAX_CONTROL_FRAME),
            outcome matches Outcome::Ready(n) ==> n <= old(self)@.send.buf.len(),
        ensures
            final(self).wf(),
            old(self)@.send_resumed(final(self)@, opcode, payload@, outcome, step),
    {
        let ghost pre = self@;
        let drain: Drain = self.send.on_write(outcome);
        assert(pre.send.drained(outcome, self@.send, drain));
        match drain {
            Drain::Write => SendStep::Write,
            Drain::Blocked => SendStep::Pending,
            Drain::Failed(error) => SendStep::Ready(Err(error)),
            Drain::Done => {
                self.send.push_frame(opcode, payload);
                SendStep::Ready(Ok(()))
            },
        }
    }

    /// What a flush comes to, given how far the buffer has been drained.
    fn flush_step(&mut self, drain: Drain) -> (step: FlushStep)
        requires
            old(self).wf(),
        ensures
            final(self).wf(),
            final(self)@ == old(self)@,
            step == ConnModel::flush_step(drain),
    {
        match drain {
            Drain::Write => FlushStep::Write,
            Drain::Done => {
                self.send.release_buf();
                FlushStep::Flush
            },
            Drain::Blocked => FlushStep::Pending,
            Drain::Failed(error) => FlushStep::Ready(Err(error)),
        }
    }

    /// Writes all buffered frames to the IO and flushes it.
    pub fn poll_flush(&mut self) -> (step: FlushStep)
        requires
            old(self).wf(),
            old(self)@.roomy(),
        ensures
            final(self).wf(),
            old(self)@.flush_begun(final(self)@, step),
    {
        let ghost pre = self@;
        let drain: Drain = self.send.start_drain();
        assert(pre.send.draining(self@.send, drain));
        self.flush_step(drain)
    }

    /// Goes on with flushing or closing after [`buffered`](Self::buffered) has been written to the
    /// IO.
    pub fn resume_flush(&mut self, outcome: Outcome) -> (step: FlushStep)
        requires
            old(self).wf(),
            old(self)@.roomy(),
            outcome matches Outcome::Ready(n) ==> n <= old(self)@.send.buf.len(),
        ensures
            final(self).wf(),
            old(self)@.flush_resumed(final(self)@, outcome, step),
    {
        let ghost pre = self@;
        let drain: Drain = self.send.on_write(outcome);
        assert(pre.send.drained(outcome, self@.send, drain));
        self.flush_step(drain)
    }

    /// Ends a flush after the IO has been flushed.
    pub fn flushed(&self, ack: Ack) -> (step: FlushStep)
        ensures
            step == match ack {
                Ack::Pending => FlushStep::Pending,
                Ack::Failed => FlushStep::Ready(Err(WebSocketError::Io)),
                Ack::Done => FlushStep::Ready(Ok(())),
            },
            step == ConnModel::flush_acked(ack),
    {
        match ack {
            Ack::Pending => FlushStep::Pending,
            Ack::Failed => FlushStep::Ready(Err(WebSocketError::Io)),
            Ack::Done => FlushStep::Ready(Ok(())),
        }
    }

    /// Queues our Close frame (on the first call) and flushes it.
    ///
    /// `frame` is used only if our Close frame has not been queued yet, e.g. automatically in
    /// reply to the peer's Close frame. Without a frame, the Close frame carries no status code.
    ///
    /// Completes once our Close frame is flushed, it does not wait for the peer's reply. Keep
    /// receiving to observe the reply: data sent by the peer before its Close frame is still
    /// delivered. Once both Close frames have been exchanged, the IO is shut down.
    pub fn poll_close(&mut self, frame: Option<&CloseFrame>) -> (step: FlushStep)
        requires
            old(self).wf(),
            old(self)@.roomy(),
        ensures
            final(self).wf(),
            old(self)@.close_begun(
                final(self)@,
                match frame {
                    Some(frame) => Some(frame@),
                    None => None,
                },
                step,
            ),
    {
        if self.send.is_close_sent() {
            return self.poll_flush();
        }
        let ghost pre = self@;
        match frame {
            Some(frame) => {
                if let Err(error) = validate(frame) {
                    return FlushStep::Ready(Err(error));
                }
                let reason: &str = frame.reason.as_str();
                self.send.queue_close(Some(frame.code), reason.as_bytes());
                assert(frame@ == (CloseModel { code: frame.code, reason: frame.reason@ }));
            },
            None => {
                let no_reason: [u8; 0] = [];
                self.send.queue_close(None, &no_reason);
            },
        }
        FlushStep::Write
    }

    /// Sends a Close frame with [`CloseCode::normal`] and flushes it.
    pub fn poll_shutdown(&mut self) -> (step: FlushStep)
        requires
            old(self).wf(),
            old(self)@.roomy(),
        ensures
            final(self).wf(),
            old(self)@.close_begun(
                final(self)@,
                Some(CloseModel { code: CloseCode(1000), reason: Seq::empty() }),
                step,
            ),
            old(self)@.shutdown_begun(final(self)@, step),
    {
        let normal: CloseFrame = CloseFrame::new(CloseCode::normal());
        self.poll_close(Some(&normal))
    }

    /// Goes on with closing after the IO has been flushed.
    pub fn close_flushed(&self, ack: Ack) -> (step: FlushStep)
        ensures
            step == match ack {
                Ack::Pending => FlushStep::Pending,
                Ack::Failed => FlushStep::Ready(Err(WebSocketError::Io)),
                Ack::Done => if self@.close_received is Some && !self@.shutdown_done {
                    FlushStep::Shutdown
                } else {
                    FlushStep::Ready(Ok(()))
                },
            },
            step == self@.close_acked(ack),
    {
        match ack {
            Ack::Pending => FlushStep::Pending,
            Ack::Failed => FlushStep::Ready(Err(WebSocketError::Io)),
            Ack::Done => if self.close_received.is_some() && !self.shutdown_done {
                FlushStep::Shutdown
            } else {
                FlushStep::Ready(Ok(()))
            },
        }
    }

    /// Ends closing after the IO has been shut down.
    ///
    /// The handshake is complete, a failure to shut down cannot lose any data.
    pub fn close_shut_down(&mut self, ack: Ack) -> (step: FlushStep)
        requires
            old(self).wf(),
            old(self)@.close_received is Some,
            old(self)@.send.close_sent,
        ensures
            final(self).wf(),
            ack is Pending ==> final(self)@ == old(self)@ && step is Pending,
            !(ack is Pending) ==> final(self)@ == (ConnModel { shutdown_done: true, ..old(self)@ })
                && step == FlushStep::Ready(Ok(())),
            old(self)@.performs(Operation::ShutDown { ack }, final(self)@),
            step == ConnModel::close_ended(ack),
    {
        match ack {
            Ack::Pending => FlushStep::Pending,
            _ => {
                self.shutdown_done = true;
                FlushStep::Ready(Ok(()))
            },
        }
    }
}

} // verus!
