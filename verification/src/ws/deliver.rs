//! Handing incoming data and events to the caller.
use crate::error::WebSocketError;
use crate::recv::{DecoderModel, Recv};
use crate::send::Outcome;
use crate::ws::receive::{Reply, Signal, SignalModel};
use crate::ws::{ConnModel, WebSocketIO};
use bytes::Bytes;
use vstd::prelude::*;

verus! {

/// What comes next in receiving an event.
pub enum RecvStep<B> {
    /// Write [`WebSocketIO::buffered`] to the IO, go on with [`WebSocketIO::on_reply_written`] and
    /// deliver the signal.
    Write(Reply),
    /// Read from the IO, go on with [`WebSocketIO::on_read`] and deliver the signal.
    Read,
    /// Read up to this many bytes from the IO straight into the caller's buffer and go on with
    /// [`WebSocketIO::recv_through`] or [`WebSocketIO::read_through`].
    ReadThrough(usize),
    /// Shut the IO down, go on with [`WebSocketIO::on_shutdown`] and deliver the signal.
    Shutdown,
    /// The IO is not ready.
    Pending,
    /// The event.
    Ready(Result<Recv<B>, WebSocketError>),
}

/// Whether a step is what a signal that carries no binary data calls for.
pub open spec fn passed_on<B>(signal: SignalModel, step: RecvStep<B>) -> bool {
    match signal {
        SignalModel::Write(reply) => step matches RecvStep::Write(r) && r@ == reply,
        SignalModel::Read => step is Read,
        SignalModel::Shutdown => step is Shutdown,
        SignalModel::Pending => step is Pending,
        SignalModel::Failed(error) => step == RecvStep::<B>::Ready(Err(error)),
        SignalModel::Binary => false,
        SignalModel::Empty => false,
        SignalModel::Text(text) => step matches RecvStep::Ready(Ok(Recv::Text(t))) && t@ == text,
        SignalModel::Ping(payload) => step matches RecvStep::Ready(Ok(Recv::Ping(p)))
            && crate::buffer::bytes_of(p) == payload,
        SignalModel::Pong(payload) => step matches RecvStep::Ready(Ok(Recv::Pong(p)))
            && crate::buffer::bytes_of(p) == payload,
        SignalModel::Closed(frame) => step matches RecvStep::Ready(Ok(Recv::Close(f)))
            && crate::close::close_model(f) == frame,
    }
}

impl ConnModel {
    /// Whether what comes next in receiving an event, into a buffer with `room` bytes, can be gone
    /// on with.
    pub open spec fn ready_to_recv<B>(self, step: RecvStep<B>, room: nat) -> bool {
        match step {
            RecvStep::Write(reply) => self.ready_for(SignalModel::Write(reply@)),
            RecvStep::Read => self.ready_for(SignalModel::Read),
            RecvStep::ReadThrough(n) => {
                &&& self.in_binary()
                &&& self.decoder.buf.len() == 0
                &&& n == crate::recv::least(self.decoder.frame.left(), room)
            },
            RecvStep::Shutdown => self.ready_for(SignalModel::Shutdown),
            _ => true,
        }
    }

    /// Whether binary data can be handed out at once into `room` bytes: it is at hand, and nothing
    /// comes before it.
    pub open spec fn hands_out(self, room: nat) -> bool {
        &&& self.in_binary()
        &&& self.pending_error is None
        &&& !self.send.control_pending
        &&& self.decoder.buf.len() > 0
        &&& room > 0
    }

    /// How much of the binary payload at hand fits into `room` bytes.
    pub open spec fn deliverable(self, room: nat) -> nat {
        crate::recv::least(
            crate::recv::least(self.decoder.frame.left(), room),
            self.decoder.buf.len(),
        )
    }

    /// Whether `n` bytes of the payload end their message.
    pub open spec fn ends_after(self, n: nat) -> bool {
        self.decoder.frame.ends() && n == self.decoder.frame.left()
    }

    /// Whether the IO is to read straight into the caller's buffer, which has `room` bytes:
    /// nothing is buffered, and a large part of a big frame fits.
    pub open spec fn reads_through(self, room: nat) -> bool {
        crate::recv::least(self.decoder.frame.left(), room) >= self.config.read_buffer_size / 2
    }

    /// The state after the IO has read `n` bytes of the payload straight into the caller's buffer.
    pub open spec fn read_directly(self, n: nat) -> ConnModel {
        ConnModel {
            decoder: DecoderModel { frame: self.decoder.frame.advanced(n), ..self.decoder },
            ..self
        }
    }

    /// What a signal comes to for a caller with a buffer that holds `dest`, and what the buffer
    /// holds then.
    pub open spec fn delivered(
        self,
        signal: SignalModel,
        dest: Seq<u8>,
        post: ConnModel,
        filled: Seq<u8>,
        step: RecvStep<usize>,
    ) -> bool {
        let n = self.deliverable(dest.len());
        if signal is Binary && dest.len() > 0 && self.decoder.buf.len() > 0 {
            &&& post == (ConnModel { decoder: self.decoder.taken(n), ..self })
            &&& filled == self.decoder.revealed(n) + dest.skip(n as int)
            &&& step == RecvStep::Ready(
                Ok(Recv::Binary { data: n as usize, end_of_message: self.ends_after(n) }),
            )
        } else {
            &&& post == self
            &&& filled == dest
            &&& if signal is Empty {
                step == RecvStep::Ready(Ok(Recv::Binary { data: 0usize, end_of_message: true }))
            } else if signal is Binary && dest.len() == 0 {
                step == RecvStep::Ready(Ok(Recv::Binary { data: 0usize, end_of_message: false }))
            } else if signal is Binary {
                if self.reads_through(dest.len()) {
                    step == RecvStep::<usize>::ReadThrough(
                        crate::recv::least(self.decoder.frame.left(), dest.len()) as usize,
                    )
                } else {
                    step is Read
                }
            } else {
                passed_on(signal, step)
            }
        }
    }

    /// What comes next after the IO has read straight into the caller's buffer, which holds `dest`
    /// then.
    pub open spec fn delivered_through(
        self,
        dest: Seq<u8>,
        outcome: Outcome,
        post: ConnModel,
        filled: Seq<u8>,
        step: RecvStep<usize>,
    ) -> bool {
        match outcome {
            Outcome::Pending => post == self && filled == dest && step is Pending,
            Outcome::Failed => post == self && filled == dest && step
                == RecvStep::<usize>::Ready(Err(WebSocketError::Io)),
            Outcome::Ready(n) => if n == 0 {
                exists|mid: ConnModel, signal: SignalModel|
                    #[trigger] self.ended(mid, signal) && mid.delivered(
                        signal,
                        dest,
                        post,
                        filled,
                        step,
                    )
            } else {
                &&& post == self.read_directly(n as nat)
                &&& filled == self.decoder.frame.reveals(dest.take(n as int)) + dest.skip(n as int)
                &&& step == RecvStep::Ready(
                    Ok(Recv::Binary { data: n, end_of_message: self.ends_after(n as nat) }),
                )
            },
        }
    }

    /// What a signal comes to for a caller who takes binary data as it was read.
    pub open spec fn delivered_bytes(
        self,
        signal: SignalModel,
        post: ConnModel,
        step: RecvStep<Bytes>,
    ) -> bool {
        let n = crate::recv::least(self.decoder.frame.left(), self.decoder.buf.len());
        if signal is Binary && self.decoder.buf.len() > 0 {
            &&& post == (ConnModel { decoder: self.decoder.taken(n), ..self })
            &&& step matches RecvStep::Ready(Ok(Recv::Binary { data, end_of_message }))
            &&& crate::buffer::bytes_of(data) == self.decoder.revealed(n)
            &&& end_of_message == self.ends_after(n)
        } else {
            &&& post == self
            &&& if signal is Empty {
                &&& step matches RecvStep::Ready(Ok(Recv::Binary { data, end_of_message }))
                &&& crate::buffer::bytes_of(data) == Seq::<u8>::empty()
                &&& end_of_message
            } else if signal is Binary {
                step is Read
            } else {
                passed_on(signal, step)
            }
        }
    }
}

impl WebSocketIO {
    /// Hands out binary data that is already at hand: the number of bytes put into `dest`, and
    /// whether they end the message. [`None`] if something else has to be done first.
    pub fn read_buffered(&mut self, dest: &mut [u8]) -> (r: Option<(usize, bool)>)
        requires
            old(self).wf(),
        ensures
            final(self).wf(),
            r is Some <==> {
                &&& old(self)@.in_binary()
                &&& old(self)@.pending_error is None
                &&& old(self)@.close_received is None
                &&& !old(self)@.send.control_pending
                &&& old(self)@.decoder.buf.len() > 0
                &&& old(dest)@.len() > 0
            },
            r is Some <==> old(self)@.hands_out(old(dest)@.len()),
            r matches Some((data, end_of_message)) ==> old(self)@.delivered(
                SignalModel::Binary,
                old(dest)@,
                final(self)@,
                final(dest)@,
                RecvStep::Ready(Ok(Recv::Binary { data, end_of_message })),
            ),
            r matches Some((n, end)) ==> {
                &&& n == old(self)@.deliverable(old(dest)@.len())
                &&& n > 0
                &&& end == old(self)@.ends_after(n as nat)
                &&& final(self)@ == (ConnModel {
                    decoder: old(self)@.decoder.taken(n as nat),
                    ..old(self)@
                })
                &&& final(dest)@ == old(self)@.decoder.revealed(n as nat) + old(dest)@.skip(
                    n as int,
                )
            },
            r is None ==> final(self)@ == old(self)@ && final(dest)@ == old(dest)@,
    {
        if self.failed || self.pending_error.is_some() || self.close_received.is_some()
            || self.send.is_control_pending() || !self.decoder.in_binary()
            || self.decoder.is_empty() || dest.len() == 0 {
            return None;
        }
        let r: (usize, bool) = self.decoder.take_into(dest, 0);
        assert(dest@ =~= old(self)@.decoder.revealed(r.0 as nat) + old(dest)@.skip(r.0 as int));
        Some(r)
    }

    /// Hands what a signal says to a caller with a buffer.
    pub fn deliver(&mut self, signal: Signal, dest: &mut [u8]) -> (step: RecvStep<usize>)
        requires
            old(self).wf(),
            signal is Binary ==> old(self)@.in_binary(),
        ensures
            final(self).wf(),
            old(self)@.delivered(signal@, old(dest)@, final(self)@, final(dest)@, step),
            old(self)@.ready_for(signal@) ==> final(self)@.ready_to_recv(step, old(dest)@.len()),
    {
        match signal {
            Signal::Binary => {
                let room: usize = dest.len();
                let limit: usize = self.decoder.limit(room);
                if limit == 0 {
                    return RecvStep::Ready(Ok(Recv::Binary { data: 0, end_of_message: false }));
                }
                if !self.decoder.is_empty() {
                    let (data, end_of_message): (usize, bool) = self.decoder.take_into(dest, 0);
                    assert(dest@ =~= old(self)@.decoder.revealed(data as nat) + old(dest)@.skip(
                        data as int,
                    ));
                    return RecvStep::Ready(Ok(Recv::Binary { data, end_of_message }));
                }
                proof {
                    self.config.lemma_options();
                }
                if limit >= self.config.read_buffer_size / 2 {
                    RecvStep::ReadThrough(limit)
                } else {
                    RecvStep::Read
                }
            },
            Signal::Empty => RecvStep::Ready(Ok(Recv::Binary { data: 0, end_of_message: true })),
            Signal::Write(reply) => RecvStep::Write(reply),
            Signal::Read => RecvStep::Read,
            Signal::Shutdown => RecvStep::Shutdown,
            Signal::Pending => RecvStep::Pending,
            Signal::Failed(error) => RecvStep::Ready(Err(error)),
            Signal::Text(text) => RecvStep::Ready(Ok(Recv::Text(text))),
            Signal::Ping(payload) => RecvStep::Ready(Ok(Recv::Ping(payload))),
            Signal::Pong(payload) => RecvStep::Ready(Ok(Recv::Pong(payload))),
            Signal::Closed(frame) => RecvStep::Ready(Ok(Recv::Close(frame))),
        }
    }

    /// Hands what a signal says to a caller who takes binary data as it was read.
    pub fn deliver_bytes(&mut self, signal: Signal) -> (step: RecvStep<Bytes>)
        requires
            old(self).wf(),
            signal is Binary ==> old(self)@.in_binary(),
        ensures
            final(self).wf(),
            old(self)@.delivered_bytes(signal@, final(self)@, step),
            old(self)@.ready_for(signal@) ==> final(self)@.ready_to_recv(step, 0),
    {
        match signal {
            Signal::Binary => {
                if self.decoder.is_empty() {
                    return RecvStep::Read;
                }
                let (data, end_of_message): (Bytes, bool) = self.decoder.take_bytes();
                RecvStep::Ready(Ok(Recv::Binary { data, end_of_message }))
            },
            Signal::Empty => RecvStep::Ready(
                Ok(Recv::Binary { data: Bytes::new(), end_of_message: true }),
            ),
            Signal::Write(reply) => RecvStep::Write(reply),
            Signal::Read => RecvStep::Read,
            Signal::Shutdown => RecvStep::Shutdown,
            Signal::Pending => RecvStep::Pending,
            Signal::Failed(error) => RecvStep::Ready(Err(error)),
            Signal::Text(text) => RecvStep::Ready(Ok(Recv::Text(text))),
            Signal::Ping(payload) => RecvStep::Ready(Ok(Recv::Ping(payload))),
            Signal::Pong(payload) => RecvStep::Ready(Ok(Recv::Pong(payload))),
            Signal::Closed(frame) => RecvStep::Ready(Ok(Recv::Close(frame))),
        }
    }

    /// Receives the next event from the peer.
    ///
    /// Binary data is put at the start of `dest` and reported as [`Recv::Binary`] with the number
    /// of bytes. Masked data is unmasked while being copied. If `dest` has room for a large part of
    /// a big frame and nothing is buffered internally, the IO reads straight into `dest`.
    ///
    /// Returns [`Recv::Binary`] with 0 bytes if `dest` is empty and binary data is next.
    pub fn poll_recv(&mut self, dest: &mut [u8]) -> (step: RecvStep<usize>)
        requires
            old(self).wf(),
            old(self)@.roomy(),
        ensures
            final(self).wf(),
            final(self)@.ready_to_recv(step, old(dest)@.len()),
            exists|mid: ConnModel, signal: SignalModel|
                #[trigger] old(self)@.polled(false, mid, signal) && mid.delivered(
                    signal,
                    old(dest)@,
                    final(self)@,
                    final(dest)@,
                    step,
                ),
    {
        if let Some((data, end_of_message)) = self.read_buffered(dest) {
            assert(old(self)@.polled(false, old(self)@, SignalModel::Binary));
            return RecvStep::Ready(Ok(Recv::Binary { data, end_of_message }));
        }
        let signal: Signal = self.poll_event(false);
        assert(old(self)@.polled(false, self@, signal@));
        self.deliver(signal, dest)
    }

    /// Receives the next event from the peer, handing out binary data as [`Bytes`] split off the
    /// internal read buffer, without copying.
    ///
    /// Each piece holds whatever part of the current frame has already been read.
    pub fn poll_recv_bytes(&mut self) -> (step: RecvStep<Bytes>)
        requires
            old(self).wf(),
            old(self)@.roomy(),
        ensures
            final(self).wf(),
            final(self)@.ready_to_recv(step, 0),
            exists|mid: ConnModel, signal: SignalModel|
                #[trigger] old(self)@.polled(false, mid, signal) && mid.delivered_bytes(
                    signal,
                    final(self)@,
                    step,
                ),
    {
        let signal: Signal = self.poll_event(false);
        assert(old(self)@.polled(false, self@, signal@));
        self.deliver_bytes(signal)
    }

    /// Goes on with receiving an event after the IO has read straight into `dest`.
    pub fn recv_through(&mut self, dest: &mut [u8], outcome: Outcome) -> (step: RecvStep<usize>)
        requires
            old(self).wf(),
            old(self)@.roomy(),
            old(self)@.in_binary(),
            old(self)@.decoder.buf.len() == 0,
            outcome matches Outcome::Ready(n) ==> n <= old(dest)@.len() && n
                <= old(self)@.decoder.frame.left(),
        ensures
            final(self).wf(),
            old(self)@.delivered_through(
                old(dest)@,
                outcome,
                final(self)@,
                final(dest)@,
                step,
            ),
            final(self)@.ready_to_recv(step, old(dest)@.len()),
    {
        match outcome {
            Outcome::Pending => {
                self.decoder.release_buf();
                RecvStep::Pending
            },
            Outcome::Failed => RecvStep::Ready(Err(WebSocketError::Io)),
            Outcome::Ready(n) => {
                if n == 0 {
                    let signal: Signal = self.on_eof();
                    assert(old(self)@.ended(self@, signal@));
                    return self.deliver(signal, dest);
                }
                let end_of_message: bool = self.decoder.took_directly(dest, 0, n);
                assert(old(dest)@.subrange(0, n as int) =~= old(dest)@.take(n as int));
                assert(dest@ =~= old(self)@.decoder.frame.reveals(old(dest)@.take(n as int))
                    + old(dest)@.skip(n as int));
                RecvStep::Ready(Ok(Recv::Binary { data: n, end_of_message }))
            },
        }
    }
}

} // verus!
