//! Receiving: the events of the incoming stream, and the replies they call for.
use crate::close::{CloseFrame, CloseModel};
use crate::error::{ProtocolError, WebSocketError};
use crate::recv::{DecoderModel, MessageKind, Rules, Turn, TurnModel};
use crate::send::{Drain, Outcome, SendModel, MAX_CONTROL_FRAME};
use crate::utf8::Utf8Bytes;
use crate::ws::operation::Operation;
use crate::ws::transmit::Ack;
use crate::ws::{ConnModel, WebSocketIO};
use bytes::Bytes;
use vstd::prelude::*;

verus! {

/// What the frames that the receiving side is writing are for.
pub enum Reply {
    /// They have been queued by an earlier call.
    Queued,
    /// They answer a ping, which is reported next.
    Ping(Bytes),
    /// They fail the connection because of a violation, which is reported next.
    Failure(ProtocolError),
    /// They reply to the peer's Close frame.
    Close,
}

/// What the frames that the receiving side is writing are for, as a mathematical value.
#[verifier::ext_equal]
pub enum ReplyModel {
    /// They have been queued by an earlier call.
    Queued,
    /// They answer a ping, which is reported next.
    Ping(Seq<u8>),
    /// They fail the connection because of a violation, which is reported next.
    Failure(ProtocolError),
    /// They reply to the peer's Close frame.
    Close,
}

impl View for Reply {
    type V = ReplyModel;

    open spec fn view(&self) -> ReplyModel {
        match self {
            Reply::Queued => ReplyModel::Queued,
            Reply::Ping(payload) => ReplyModel::Ping(crate::buffer::bytes_of(*payload)),
            Reply::Failure(error) => ReplyModel::Failure(*error),
            Reply::Close => ReplyModel::Close,
        }
    }
}

/// What comes next on the receiving side.
pub enum Signal {
    /// Write [`WebSocketIO::buffered`] to the IO and go on with [`WebSocketIO::on_reply_written`].
    Write(Reply),
    /// Read from the IO and go on with [`WebSocketIO::on_read`].
    Read,
    /// Shut the IO down and go on with [`WebSocketIO::on_shutdown`].
    Shutdown,
    /// The IO is not ready, or nothing but binary data was asked for.
    Pending,
    /// Receiving failed.
    Failed(WebSocketError),
    /// Binary payload is next.
    Binary,
    /// A binary message ended without data.
    Empty,
    /// A text message.
    Text(Utf8Bytes),
    /// A Ping frame.
    Ping(Bytes),
    /// A Pong frame.
    Pong(Bytes),
    /// The peer's Close frame.
    Closed(Option<CloseFrame>),
}

/// What comes next on the receiving side, as a mathematical value.
#[verifier::ext_equal]
pub enum SignalModel {
    /// The buffered frames have to be written.
    Write(ReplyModel),
    /// More bytes are needed.
    Read,
    /// The IO has to be shut down.
    Shutdown,
    /// The IO is not ready, or nothing but binary data was asked for.
    Pending,
    /// Receiving failed.
    Failed(WebSocketError),
    /// Binary payload is next.
    Binary,
    /// A binary message ended without data.
    Empty,
    /// A text message.
    Text(Seq<u8>),
    /// A Ping frame.
    Ping(Seq<u8>),
    /// A Pong frame.
    Pong(Seq<u8>),
    /// The peer's Close frame.
    Closed(Option<CloseModel>),
}

impl View for Signal {
    type V = SignalModel;

    open spec fn view(&self) -> SignalModel {
        match self {
            Signal::Write(reply) => SignalModel::Write(reply@),
            Signal::Read => SignalModel::Read,
            Signal::Shutdown => SignalModel::Shutdown,
            Signal::Pending => SignalModel::Pending,
            Signal::Failed(error) => SignalModel::Failed(*error),
            Signal::Binary => SignalModel::Binary,
            Signal::Empty => SignalModel::Empty,
            Signal::Text(text) => SignalModel::Text(text@),
            Signal::Ping(payload) => SignalModel::Ping(crate::buffer::bytes_of(*payload)),
            Signal::Pong(payload) => SignalModel::Pong(crate::buffer::bytes_of(*payload)),
            Signal::Closed(frame) => SignalModel::Closed(crate::close::close_model(*frame)),
        }
    }
}

/// What became of a read from the IO.
pub enum ReadOutcome<'a> {
    /// The IO is not ready.
    Pending,
    /// The IO failed.
    Failed,
    /// These bytes arrived, none if the IO has reached its end.
    Data(&'a [u8]),
}

impl ConnModel {
    /// Whether binary payload is next.
    pub open spec fn in_binary(self) -> bool {
        &&& !self.failed
        &&& self.close_received is None
        &&& self.decoder.frame.carries(MessageKind::Binary)
    }

    /// Whether what a signal calls for can be gone on with: queued replies are written and the IO
    /// is read only while the connection has not failed, and the IO is shut down, and our reply to
    /// the peer's Close frame written, only after both Close frames.
    pub open spec fn ready_for(self, signal: SignalModel) -> bool {
        match signal {
            SignalModel::Write(ReplyModel::Queued) => !self.failed,
            SignalModel::Read => crate::ws::kept::receiving(self),
            SignalModel::Write(ReplyModel::Close) | SignalModel::Shutdown => {
                self.close_received is Some && self.send.close_sent
            },
            SignalModel::Binary => self.in_binary(),
            _ => true,
        }
    }

    /// The peer's Close frame as it is reported.
    pub open spec fn reported_close(self) -> Option<CloseModel> {
        match self.close_received {
            Some(frame) => frame,
            None => None,
        }
    }

    /// What remains to be done once the peer's Close frame has been received: our reply is written,
    /// unless there is none yet, and the IO is shut down.
    pub open spec fn finishing(self, post: ConnModel, signal: SignalModel) -> bool {
        if !self.send.close_sent || self.shutdown_done {
            post == self && signal == SignalModel::Closed(self.reported_close())
        } else {
            &&& post == (ConnModel { send: post.send, ..self })
            &&& exists|drain: Drain|
                #[trigger] self.send.draining(post.send, drain) && signal == if drain is Write {
                    SignalModel::Write(ReplyModel::Close)
                } else {
                    SignalModel::Shutdown
                }
        }
    }

    /// What the peer's Close frame calls for: unless the reply is deferred, its status code is
    /// echoed.
    pub open spec fn peer_closed(
        self,
        frame: Option<CloseModel>,
        post: ConnModel,
        signal: SignalModel,
    ) -> bool {
        if !self.send.close_sent && !self.config.defer_close_reply {
            &&& post == (ConnModel { close_received: Some(frame), send: post.send, ..self })
            &&& (SendModel { control_pending: true, ..self.send }).close_queued(
                post.send,
                match frame {
                    Some(frame) => Some(CloseModel { code: frame.code, reason: Seq::empty() }),
                    None => None,
                },
            )
            &&& signal == SignalModel::Write(ReplyModel::Close)
        } else {
            (ConnModel { close_received: Some(frame), ..self }).finishing(post, signal)
        }
    }

    /// What a ping calls for: it is answered, if that is enabled and our Close frame has not been
    /// queued, and reported.
    pub open spec fn pinged(
        self,
        payload: Seq<u8>,
        post: ConnModel,
        signal: SignalModel,
    ) -> bool {
        if self.config.auto_pong && !self.send.close_sent {
            let queued = SendModel { pong: Some(payload), control_pending: true, ..self.send };
            &&& post == (ConnModel { send: post.send, ..self })
            &&& queued.draining(post.send, Drain::Write)
            &&& signal == SignalModel::Write(ReplyModel::Ping(payload))
        } else {
            post == self && signal == SignalModel::Ping(payload)
        }
    }

    /// What a violation calls for: the connection is failed, and a Close frame with a matching
    /// status code is sent, unless ours has been queued. The incoming bytes are of no interest any
    /// more, and do not become more.
    pub open spec fn violated(
        self,
        error: ProtocolError,
        post: ConnModel,
        signal: SignalModel,
    ) -> bool {
        &&& post == (ConnModel {
            failed: true,
            decoder: post.decoder,
            send: post.send,
            ..self
        })
        &&& post.decoder.buf.len() + post.decoder.text.len() <= self.decoder.buf.len()
            + self.decoder.text.len()
        &&& if self.send.close_sent {
            &&& post.send == self.send
            &&& signal == SignalModel::Failed(WebSocketError::Protocol(error))
        } else {
            &&& self.send.close_queued(
                post.send,
                Some(CloseModel { code: error.spec_close_code(), reason: Seq::empty() }),
            )
            &&& signal == SignalModel::Write(ReplyModel::Failure(error))
        }
    }

    /// What the bytes at hand call for.
    pub open spec fn advanced(
        self,
        buffered_only: bool,
        post: ConnModel,
        signal: SignalModel,
    ) -> bool {
        if self.close_received is Some {
            if buffered_only {
                post == self && signal is Pending
            } else {
                self.finishing(post, signal)
            }
        } else {
            let (turn, decoder) = self.decoder.run(self.rules(), buffered_only);
            let mid = ConnModel { decoder, ..self };
            match turn {
                TurnModel::Fill => post == mid && signal is Read,
                TurnModel::Wait => post == mid && signal is Pending,
                TurnModel::Next => false,
                TurnModel::Binary => post == mid && signal is Binary,
                TurnModel::Empty => post == mid && signal is Empty,
                TurnModel::Text(text) => post == mid && signal == SignalModel::Text(text),
                TurnModel::Ping(payload) => mid.pinged(payload, post, signal),
                TurnModel::Pong(payload) => post == mid && signal == SignalModel::Pong(payload),
                TurnModel::Close(frame) => mid.peer_closed(frame, post, signal),
                TurnModel::Violation(error) => self.violated(error, post, signal),
            }
        }
    }

    /// What comes next when the receiving side is asked for an event.
    ///
    /// A deferred error comes first. A failed connection stays so. Replies that have been queued by
    /// an earlier call are written before anything else.
    pub open spec fn polled(
        self,
        buffered_only: bool,
        post: ConnModel,
        signal: SignalModel,
    ) -> bool {
        if let Some(error) = self.pending_error {
            &&& post == (ConnModel { pending_error: None, ..self })
            &&& signal == SignalModel::Failed(error)
        } else if self.failed {
            post == self && signal == SignalModel::Failed(WebSocketError::Failed)
        } else if self.send.control_pending && !buffered_only {
            if self.send.pong_due() || self.send.buf.len() > 0 {
                &&& post == (ConnModel { send: post.send, ..self })
                &&& self.send.draining(post.send, Drain::Write)
                &&& signal == SignalModel::Write(ReplyModel::Queued)
            } else {
                (ConnModel {
                    send: SendModel { control_pending: false, ..self.send },
                    ..self
                }).advanced(false, post, signal)
            }
        } else {
            self.advanced(buffered_only, post, signal)
        }
    }

    /// What comes next after a reply has been written to the IO.
    ///
    /// Receiving does not wait for a blocked write, except for the reply to the peer's Close frame.
    /// Once that reply is out, or cannot be, the IO is shut down.
    pub open spec fn replied(
        self,
        reply: ReplyModel,
        outcome: Outcome,
        post: ConnModel,
        signal: SignalModel,
    ) -> bool {
        exists|send: SendModel, drain: Drain|
            #[trigger] self.send.drained(outcome, send, drain) && (ConnModel {
                send,
                ..self
            }).went_on(reply, drain, post, signal)
    }

    /// What comes next once the buffer has been drained so far for a reply.
    pub open spec fn went_on(
        self,
        reply: ReplyModel,
        drain: Drain,
        post: ConnModel,
        signal: SignalModel,
    ) -> bool {
        if drain is Write {
            post == self && signal == SignalModel::Write(reply)
        } else {
            match reply {
                ReplyModel::Queued => if let Drain::Failed(error) = drain {
                    &&& post == (ConnModel { failed: true, ..self })
                    &&& signal == SignalModel::Failed(error)
                } else {
                    self.advanced(false, post, signal)
                },
                ReplyModel::Ping(payload) => if let Drain::Failed(error) = drain {
                    &&& post == (ConnModel { failed: true, ..self })
                    &&& signal == SignalModel::Failed(error)
                } else {
                    post == self && signal == SignalModel::Ping(payload)
                },
                ReplyModel::Failure(error) => {
                    &&& post == self
                    &&& signal == SignalModel::Failed(WebSocketError::Protocol(error))
                },
                ReplyModel::Close => if drain is Blocked {
                    post == self && signal is Pending
                } else if drain is Failed {
                    &&& post == (ConnModel {
                        send: SendModel { buf: Seq::empty(), ..self.send },
                        ..self
                    })
                    &&& signal is Shutdown
                } else {
                    post == self && signal is Shutdown
                },
            }
        }
    }

    /// What the end of the stream comes to: the peer need not reply to our Close frame, but must
    /// not go without one otherwise, nor in the middle of a frame.
    pub open spec fn ended(self, post: ConnModel, signal: SignalModel) -> bool {
        if self.send.close_sent && self.decoder.at_boundary() {
            (ConnModel { close_received: Some(None), ..self }).advanced(false, post, signal)
        } else {
            &&& post == (ConnModel { failed: true, ..self })
            &&& signal == SignalModel::Failed(WebSocketError::UnexpectedEof)
        }
    }

    /// What comes next after a read from the IO that gave nothing: it failed, or is not ready.
    pub open spec fn missed(self, io_failed: bool, post: ConnModel, signal: SignalModel) -> bool {
        &&& post == self
        &&& signal == if io_failed {
            SignalModel::Failed(WebSocketError::Io)
        } else {
            SignalModel::Pending
        }
    }

    /// What comes next after the IO has been shut down, or could not be.
    pub open spec fn shut_down_signal(self, ack: Ack) -> SignalModel {
        if ack is Pending {
            SignalModel::Pending
        } else {
            SignalModel::Closed(self.reported_close())
        }
    }

    /// What comes next after `data` has been read from the IO.
    pub open spec fn arrived(self, data: Seq<u8>, post: ConnModel, signal: SignalModel) -> bool {
        if data.len() == 0 {
            self.ended(post, signal)
        } else {
            (ConnModel { decoder: self.decoder.with(data), ..self }).advanced(false, post, signal)
        }
    }
}

/// Only a binary payload is reported as one.
pub proof fn lemma_run_binary(decoder: DecoderModel, rules: Rules, buffered_only: bool)
    ensures
        decoder.run(rules, buffered_only).0 is Binary ==> decoder.run(
            rules,
            buffered_only,
        ).1.frame.carries(MessageKind::Binary),
    decreases decoder.buf.len(),
{
    let (turn, post) = decoder.turn(rules, buffered_only);
    if turn is Next && post.buf.len() < decoder.buf.len() {
        lemma_run_binary(post, rules, buffered_only);
    }
}

/// Pings fit in a control frame.
pub proof fn lemma_run_ping(decoder: DecoderModel, rules: Rules, buffered_only: bool)
    ensures
        decoder.run(rules, buffered_only).0 matches TurnModel::Ping(payload) ==> payload.len()
            <= crate::frame::MAX_CONTROL_PAYLOAD,
    decreases decoder.buf.len(),
{
    let (turn, post) = decoder.turn(rules, buffered_only);
    if turn is Next && post.buf.len() < decoder.buf.len() {
        lemma_run_ping(post, rules, buffered_only);
    } else if crate::frame::parsed(decoder.buf) matches Ok(Some(_)) {
        crate::frame::law_header_valid(decoder.buf);
    }
}

impl WebSocketIO {
    /// What the connection demands of incoming frames.
    fn rules(&self) -> (rules: Rules)
        ensures
            rules == self@.rules(),
    {
        proof {
            self.config.lemma_options();
        }
        Rules {
            role: self.role,
            accept_unmasked_frames: self.config.accept_unmasked_frames,
            max_message_size: self.config.max_message_size,
        }
    }

    /// Writes our reply to the peer's Close frame and shuts the IO down.
    fn finish_close(&mut self) -> (signal: Signal)
        requires
            old(self).wf(),
            old(self)@.close_received is Some,
            old(self)@.send.fits(MAX_CONTROL_FRAME as int),
        ensures
            final(self).wf(),
            old(self)@.finishing(final(self)@, signal@),
            final(self)@.ready_for(signal@),
    {
        if !self.send.is_close_sent() || self.shutdown_done {
            return Signal::Closed(self.reported_close());
        }
        let ghost pre = self@;
        let drain: Drain = self.send.start_drain();
        assert(pre.send.draining(self@.send, drain));
        match drain {
            Drain::Write => Signal::Write(Reply::Close),
            _ => {
                self.send.release_buf();
                Signal::Shutdown
            },
        }
    }

    /// The peer's Close frame as it is reported.
    fn reported_close(&self) -> (frame: Option<CloseFrame>)
        ensures
            crate::close::close_model(frame) == self@.reported_close(),
    {
        match &self.close_received {
            Some(Some(frame)) => Some(frame.clone()),
            _ => None,
        }
    }

    /// Takes note of the peer's Close frame and replies to it.
    fn on_peer_close(&mut self, frame: Option<CloseFrame>) -> (signal: Signal)
        requires
            old(self).wf(),
            !old(self)@.failed,
            old(self)@.close_received is None,
            old(self)@.send.fits(2 * MAX_CONTROL_FRAME),
        ensures
            final(self).wf(),
            old(self)@.peer_closed(crate::close::close_model(frame), final(self)@, signal@),
            final(self)@.ready_for(signal@),
    {
        let ghost pre = self@;
        proof {
            self.config.lemma_options();
        }
        if !self.send.is_close_sent() && !self.config.defer_close_reply {
            // Echo the status code, as RFC 6455 suggests.
            let no_reason: [u8; 0] = [];
            assert(no_reason@ =~= Seq::<u8>::empty());
            self.send.mark_control_pending();
            self.send.queue_close(
                match &frame {
                    Some(frame) => Some(frame.code),
                    None => None,
                },
                &no_reason,
            );
            self.close_received = Some(frame);
            return Signal::Write(Reply::Close);
        }
        self.close_received = Some(frame);
        self.finish_close()
    }

    /// Answers a ping, if that is enabled, and reports it.
    fn on_ping(&mut self, payload: Bytes) -> (signal: Signal)
        requires
            old(self).wf(),
            !old(self)@.failed,
            old(self)@.send.fits(MAX_CONTROL_FRAME as int),
            crate::buffer::bytes_of(payload).len() <= crate::frame::MAX_CONTROL_PAYLOAD,
        ensures
            final(self).wf(),
            old(self)@.pinged(crate::buffer::bytes_of(payload), final(self)@, signal@),
            final(self)@.ready_for(signal@),
    {
        proof {
            self.config.lemma_options();
        }
        if self.config.auto_pong && !self.send.is_close_sent() {
            self.send.queue_pong(payload.clone());
            let _ = self.send.start_drain();
            return Signal::Write(Reply::Ping(payload));
        }
        Signal::Ping(payload)
    }

    /// Fails the connection, sending a Close frame with a matching status code on a best-effort
    /// basis.
    fn fail_protocol(&mut self, error: ProtocolError) -> (signal: Signal)
        requires
            old(self)@.wf(),
            old(self)@.failed,
            old(self)@.send.fits(MAX_CONTROL_FRAME as int),
        ensures
            final(self).wf(),
            old(self)@.violated(error, final(self)@, signal@),
            final(self)@.decoder == old(self)@.decoder,
            final(self)@.ready_for(signal@),
    {
        if self.send.is_close_sent() {
            return Signal::Failed(WebSocketError::Protocol(error));
        }
        let no_reason: [u8; 0] = [];
        assert(no_reason@ =~= Seq::<u8>::empty());
        self.send.queue_close(Some(error.close_code()), &no_reason);
        Signal::Write(Reply::Failure(error))
    }

    /// Goes on with the bytes at hand until there is something to report or to do.
    fn advance(&mut self, buffered_only: bool) -> (signal: Signal)
        requires
            old(self).wf(),
            !old(self)@.failed,
            old(self)@.roomy(),
        ensures
            final(self).wf(),
            old(self)@.advanced(buffered_only, final(self)@, signal@),
            final(self)@.ready_for(signal@),
    {
        if self.close_received.is_some() {
            if buffered_only {
                return Signal::Pending;
            }
            return self.finish_close();
        }
        let ghost pre = self@;
        let rules: Rules = self.rules();
        let turn: Turn = self.decoder.run(rules, buffered_only);
        proof {
            lemma_run_binary(pre.decoder, rules, buffered_only);
            lemma_run_ping(pre.decoder, rules, buffered_only);
        }
        match turn {
            Turn::Fill => Signal::Read,
            Turn::Wait => Signal::Pending,
            Turn::Next => Signal::Pending,
            Turn::Binary => Signal::Binary,
            Turn::Empty => Signal::Empty,
            Turn::Text(text) => Signal::Text(text),
            Turn::Ping(payload) => self.on_ping(payload),
            Turn::Pong(payload) => Signal::Pong(payload),
            Turn::Close(frame) => self.on_peer_close(frame),
            Turn::Violation(error) => {
                self.failed = true;
                self.fail_protocol(error)
            },
        }
    }

    /// Asks for the next event.
    ///
    /// With `buffered_only`, stops with [`Signal::Pending`] as soon as the IO would have to be
    /// read, or anything but binary data is next in line.
    pub fn poll_event(&mut self, buffered_only: bool) -> (signal: Signal)
        requires
            old(self).wf(),
            old(self)@.roomy(),
        ensures
            final(self).wf(),
            old(self)@.polled(buffered_only, final(self)@, signal@),
            final(self)@.ready_for(signal@),
    {
        if let Some(error) = self.pending_error.take() {
            return Signal::Failed(error);
        }
        if self.failed {
            return Signal::Failed(WebSocketError::Failed);
        }
        if self.send.is_control_pending() && !buffered_only {
            let drain: Drain = self.send.start_drain();
            match drain {
                Drain::Write => return Signal::Write(Reply::Queued),
                _ => self.send.release_buf(),
            }
        }
        self.advance(buffered_only)
    }

    /// Goes on after [`buffered`](Self::buffered) has been written to the IO as a reply.
    pub fn on_reply_written(&mut self, reply: Reply, outcome: Outcome) -> (signal: Signal)
        requires
            old(self).wf(),
            old(self)@.roomy(),
            outcome matches Outcome::Ready(n) ==> n <= old(self)@.send.buf.len(),
            reply is Queued ==> !old(self)@.failed,
        ensures
            final(self).wf(),
            old(self)@.replied(reply@, outcome, final(self)@, signal@),
            signal is Binary ==> final(self)@.in_binary(),
            old(self)@.ready_for(SignalModel::Write(reply@)) ==> final(self)@.ready_for(signal@),
    {
        let ghost pre = self@;
        let drain: Drain = self.send.on_write(outcome);
        assert(pre.send.drained(outcome, self@.send, drain));
        match drain {
            Drain::Write => return Signal::Write(reply),
            Drain::Done => self.send.release_buf(),
            _ => {},
        }
        match reply {
            Reply::Queued => {
                if let Drain::Failed(error) = drain {
                    return self.fail(error);
                }
                self.advance(false)
            },
            Reply::Ping(payload) => {
                if let Drain::Failed(error) = drain {
                    return self.fail(error);
                }
                Signal::Ping(payload)
            },
            Reply::Failure(error) => Signal::Failed(WebSocketError::Protocol(error)),
            Reply::Close => match drain {
                Drain::Blocked => Signal::Pending,
                Drain::Failed(_) => {
                    // The peer is gone either way, errors do not matter anymore.
                    self.send.clear();
                    Signal::Shutdown
                },
                _ => Signal::Shutdown,
            },
        }
    }

    /// Fails the connection.
    fn fail(&mut self, error: WebSocketError) -> (signal: Signal)
        requires
            old(self).wf(),
        ensures
            final(self).wf(),
            final(self)@ == (ConnModel { failed: true, ..old(self)@ }),
            signal@ == SignalModel::Failed(error),
    {
        self.failed = true;
        Signal::Failed(error)
    }

    /// Takes note of the end of the stream.
    pub(crate) fn on_eof(&mut self) -> (signal: Signal)
        requires
            old(self).wf(),
            !old(self)@.failed,
            old(self)@.roomy(),
        ensures
            final(self).wf(),
            old(self)@.ended(final(self)@, signal@),
            final(self)@.ready_for(signal@),
    {
        if self.send.is_close_sent() && self.decoder.is_at_boundary() {
            // We are closing, the peer just did not bother to reply.
            self.close_received = Some(None);
            self.advance(false)
        } else {
            self.fail(WebSocketError::UnexpectedEof)
        }
    }

    /// Goes on after a read from the IO.
    pub fn on_read(&mut self, outcome: ReadOutcome<'_>) -> (signal: Signal)
        requires
            old(self).wf(),
            !old(self)@.failed,
            old(self)@.roomy(),
            outcome matches ReadOutcome::Data(data) ==> old(self)@.decoder.buf.len()
                + old(self)@.decoder.text.len() + data@.len() <= crate::buffer::MAX_BUFFER,
        ensures
            final(self).wf(),
            match outcome {
                ReadOutcome::Pending => final(self)@ == old(self)@ && signal is Pending,
                ReadOutcome::Failed => final(self)@ == old(self)@ && signal@
                    == SignalModel::Failed(WebSocketError::Io),
                ReadOutcome::Data(data) => old(self)@.arrived(data@, final(self)@, signal@),
            },
            !(outcome is Data) ==> old(self)@.missed(outcome is Failed, final(self)@, signal@),
            final(self)@.ready_for(signal@),
    {
        match outcome {
            ReadOutcome::Pending => {
                self.decoder.release_buf();
                Signal::Pending
            },
            ReadOutcome::Failed => Signal::Failed(WebSocketError::Io),
            ReadOutcome::Data(data) => {
                if data.len() == 0 {
                    return self.on_eof();
                }
                self.decoder.fill(data);
                self.advance(false)
            },
        }
    }

    /// Goes on after the IO has been shut down.
    pub fn on_shutdown(&mut self, ack: Ack) -> (signal: Signal)
        requires
            old(self).wf(),
            old(self)@.close_received is Some,
            old(self)@.send.close_sent,
        ensures
            final(self).wf(),
            ack is Pending ==> final(self)@ == old(self)@ && signal is Pending,
            !(ack is Pending) ==> final(self)@ == (ConnModel { shutdown_done: true, ..old(self)@ })
                && signal@ == SignalModel::Closed(old(self)@.reported_close()),
            old(self)@.performs(Operation::ShutDown { ack }, final(self)@),
            signal@ == old(self)@.shut_down_signal(ack),
    {
        match ack {
            Ack::Pending => Signal::Pending,
            _ => {
                self.shutdown_done = true;
                Signal::Closed(self.reported_close())
            },
        }
    }
}

} // verus!
