//! Reading binary data as a plain byte stream.
use crate::error::WebSocketError;
use crate::recv::{DecoderModel, Rules};
use crate::send::{Outcome, SendModel};
use crate::ws::receive::{Reply, Signal, SignalModel};
use crate::ws::{ConnModel, WebSocketIO};
use vstd::prelude::*;

verus! {

/// What comes next in a read.
pub enum ReadStep {
    /// Write [`WebSocketIO::buffered`] to the IO, go on with [`WebSocketIO::on_reply_written`] and
    /// hand the signal to [`WebSocketIO::resume_read`].
    Write(Reply),
    /// Read from the IO, go on with [`WebSocketIO::on_read`] and hand the signal to
    /// [`WebSocketIO::resume_read`].
    Read,
    /// Read up to this many bytes from the IO straight into the caller's buffer and go on with
    /// [`WebSocketIO::read_through`].
    ReadThrough(usize),
    /// Shut the IO down, go on with [`WebSocketIO::on_shutdown`] and hand the signal to
    /// [`WebSocketIO::resume_read`].
    Shutdown,
    /// The IO is not ready.
    Pending,
    /// The read is over. The buffer holds as many bytes as have been filled, none at the end of the
    /// stream.
    Ready(Result<(), WebSocketError>),
}

/// Whether a read has delivered anything yet.
pub open spec fn started(filled: nat) -> bool {
    filled > 0
}

/// Whether a read goes on after such a signal.
pub open spec fn passes(signal: SignalModel) -> bool {
    signal is Binary || signal is Empty || signal is Ping || signal is Pong
}

impl ConnModel {
    /// How a read goes on that has filled `filled` bytes of a buffer, which holds `dest`, within a
    /// limited number of rounds.
    ///
    /// The buffer is filled across frame and message boundaries, as long as the data is at hand:
    /// whatever comes after data that has been delivered is only taken if it is binary data.
    pub open spec fn reading(
        self,
        rounds: nat,
        dest: Seq<u8>,
        filled: nat,
        post: ConnModel,
        post_dest: Seq<u8>,
        post_filled: nat,
        step: ReadStep,
    ) -> bool
        decreases rounds, 1nat,
    {
        if filled >= dest.len() {
            &&& post == self
            &&& post_dest == dest
            &&& post_filled == filled
            &&& step == ReadStep::Ready(Ok(()))
        } else {
            exists|mid: ConnModel, signal: SignalModel|
                #[trigger] self.polled(started(filled), mid, signal) && mid.read_signalled(
                    rounds,
                    signal,
                    dest,
                    filled,
                    post,
                    post_dest,
                    post_filled,
                    step,
                )
        }
    }

    /// How a read goes on with a signal.
    ///
    /// Pings and pongs are passed over, a text message fails the read, and the peer's Close frame
    /// ends it. An error that comes after data is deferred.
    pub open spec fn read_signalled(
        self,
        rounds: nat,
        signal: SignalModel,
        dest: Seq<u8>,
        filled: nat,
        post: ConnModel,
        post_dest: Seq<u8>,
        post_filled: nat,
        step: ReadStep,
    ) -> bool
        decreases rounds, 0nat,
    {
        let room = (dest.len() - filled) as nat;
        let n = self.deliverable(room);
        let passed_over = signal is Empty || signal is Ping || signal is Pong;
        if signal is Binary && self.decoder.buf.len() > 0 {
            &&& rounds > 0
            &&& (ConnModel { decoder: self.decoder.taken(n), ..self }).reading(
                (rounds - 1) as nat,
                dest.take(filled as int) + self.decoder.revealed(n) + dest.skip(
                    (filled + n) as int,
                ),
                filled + n,
                post,
                post_dest,
                post_filled,
                step,
            )
        } else if passed_over {
            &&& rounds > 0
            &&& self.reading(
                (rounds - 1) as nat,
                dest,
                filled,
                post,
                post_dest,
                post_filled,
                step,
            )
        } else {
            &&& post_dest == dest
            &&& post_filled == filled
            &&& match signal {
                SignalModel::Write(reply) => {
                    &&& post == self
                    &&& step matches ReadStep::Write(r) && r@ == reply
                },
                SignalModel::Read => post == self && step is Read,
                SignalModel::Shutdown => post == self && step is Shutdown,
                SignalModel::Pending => post == self && if filled > 0 {
                    step == ReadStep::Ready(Ok(()))
                } else {
                    step is Pending
                },
                SignalModel::Failed(error) => if filled > 0 {
                    &&& post == (ConnModel { pending_error: Some(error), ..self })
                    &&& step == ReadStep::Ready(Ok(()))
                } else {
                    post == self && step == ReadStep::Ready(Err(error))
                },
                SignalModel::Text(_) => post == self && step == ReadStep::Ready(
                    Err(WebSocketError::TextMessage),
                ),
                SignalModel::Closed(_) => post == self && step == ReadStep::Ready(Ok(())),
                _ => post == self && if filled > 0 {
                    step == ReadStep::Ready(Ok(()))
                } else if self.reads_through(room) {
                    step == ReadStep::ReadThrough(
                        crate::recv::least(self.decoder.frame.left(), room) as usize,
                    )
                } else {
                    step is Read
                },
            }
        }
    }

    /// How a read goes on after the IO has read straight into the buffer, which holds `dest` then.
    pub open spec fn reading_through(
        self,
        rounds: nat,
        dest: Seq<u8>,
        outcome: Outcome,
        post: ConnModel,
        post_dest: Seq<u8>,
        post_filled: nat,
        step: ReadStep,
    ) -> bool {
        match outcome {
            Outcome::Pending => {
                &&& post == self
                &&& post_dest == dest
                &&& post_filled == 0
                &&& step is Pending
            },
            Outcome::Failed => {
                &&& post == self
                &&& post_dest == dest
                &&& post_filled == 0
                &&& step == ReadStep::Ready(Err(WebSocketError::Io))
            },
            Outcome::Ready(n) => if n == 0 {
                exists|mid: ConnModel, signal: SignalModel|
                    #[trigger] self.ended(mid, signal) && mid.read_signalled(
                        rounds,
                        signal,
                        dest,
                        0,
                        post,
                        post_dest,
                        post_filled,
                        step,
                    )
            } else {
                self.read_directly(n as nat).reading(
                    rounds,
                    self.decoder.frame.reveals(dest.take(n as int)) + dest.skip(n as int),
                    n as nat,
                    post,
                    post_dest,
                    post_filled,
                    step,
                )
            },
        }
    }

    /// Whether what comes next in a read that has filled `filled` bytes of a buffer with `len`
    /// bytes can be gone on with.
    pub open spec fn ready_to_read(self, step: ReadStep, len: nat, filled: nat) -> bool {
        match step {
            ReadStep::Write(reply) => filled < len && self.ready_for(SignalModel::Write(reply@)),
            ReadStep::Read => filled < len && self.ready_for(SignalModel::Read),
            ReadStep::ReadThrough(n) => {
                &&& filled == 0 < len
                &&& self.in_binary()
                &&& self.decoder.buf.len() == 0
                &&& n == crate::recv::least(self.decoder.frame.left(), len)
            },
            ReadStep::Shutdown => filled < len && self.ready_for(SignalModel::Shutdown),
            _ => true,
        }
    }

    /// Whether whatever a read comes to from `now` on, with `dest` in the buffer, it comes to from
    /// `self` on, with a signal at hand and `rounds` more rounds.
    spec fn signal_leads_to(
        self,
        rounds: nat,
        signal: SignalModel,
        dest: Seq<u8>,
        filled: nat,
        now: ConnModel,
        now_signal: SignalModel,
        now_dest: Seq<u8>,
        now_filled: nat,
    ) -> bool {
        forall|more: nat, post: ConnModel, post_dest: Seq<u8>, post_filled: nat, step: ReadStep|
            #[trigger] now.read_signalled(
                more,
                now_signal,
                now_dest,
                now_filled,
                post,
                post_dest,
                post_filled,
                step,
            ) ==> self.read_signalled(
                more + rounds,
                signal,
                dest,
                filled,
                post,
                post_dest,
                post_filled,
                step,
            )
    }
}

/// Whatever is reported has been decoded from the bytes at hand.
pub proof fn lemma_run_len(decoder: DecoderModel, rules: Rules, buffered_only: bool)
    requires
        decoder.wf(),
    ensures
        ({
            let (turn, post) = decoder.run(rules, buffered_only);
            &&& turn is Binary ==> post.buf.len() <= decoder.buf.len()
            &&& turn is Empty || turn is Ping || turn is Pong ==> post.buf.len()
                < decoder.buf.len()
            &&& post.buf.len() + post.text.len() <= decoder.buf.len() + decoder.text.len()
        }),
    decreases decoder.buf.len(),
{
    let (turn, post) = decoder.turn(rules, buffered_only);
    decoder.lemma_turn(rules, buffered_only);
    crate::recv::log::law_turn(decoder, rules, buffered_only);
    if turn is Next && post.buf.len() < decoder.buf.len() {
        lemma_run_len(post, rules, buffered_only);
    } else if crate::frame::parsed(decoder.buf) matches Ok(Some(_)) {
        crate::frame::law_header_valid(decoder.buf);
    }
}

/// Events that a read passes over, and binary data, leave room for what comes next.
proof fn lemma_polled(
    pre: ConnModel,
    buffered_only: bool,
    post: ConnModel,
    signal: SignalModel,
)
    requires
        pre.wf(),
        pre.roomy(),
        pre.polled(buffered_only, post, signal),
    ensures
        signal is Binary ==> post.decoder.buf.len() <= pre.decoder.buf.len(),
        signal is Empty || signal is Ping || signal is Pong ==> post.decoder.buf.len()
            < pre.decoder.buf.len(),
        signal is Binary || signal is Empty || signal is Ping || signal is Pong ==> post.roomy(),
{
    if !pre.failed {
        lemma_run_len(pre.decoder, pre.rules(), buffered_only);
        lemma_run_len(pre.decoder, pre.rules(), false);
    }
}

/// Events that a read goes on after, and binary data, leave everything but the bytes at hand as it
/// is.
pub proof fn lemma_polled_passes(
    pre: ConnModel,
    buffered_only: bool,
    post: ConnModel,
    signal: SignalModel,
)
    requires
        pre.wf(),
        pre.polled(buffered_only, post, signal),
        passes(signal),
    ensures
        !pre.failed,
        pre.close_received is None,
        pre.pending_error is None,
        post == (ConnModel {
            decoder: post.decoder,
            send: SendModel { control_pending: post.send.control_pending, ..pre.send },
            ..pre
        }),
        post.wf(),
        signal is Binary ==> post.in_binary(),
{
    if !pre.failed {
        crate::recv::log::law_run(pre.decoder, pre.rules(), buffered_only);
        crate::ws::receive::lemma_run_binary(pre.decoder, pre.rules(), buffered_only);
    }
}

impl WebSocketIO {
    /// Reads binary data into `dest`.
    ///
    /// Pings and pongs are consumed (pings are still answered if
    /// [`Config::auto_pong`](crate::Config::auto_pong) is enabled), a text message fails the read
    /// with [`WebSocketError::TextMessage`], and the peer's Close frame reads as the end of the
    /// stream.
    ///
    /// Unlike [`poll_recv`](Self::poll_recv), fills `dest` across frame and message boundaries, as
    /// long as the data is already buffered. Returns how many bytes have been filled besides what
    /// comes next.
    pub fn poll_read(&mut self, dest: &mut [u8]) -> (r: (ReadStep, usize))
        requires
            old(self).wf(),
            old(self)@.roomy(),
        ensures
            final(self).wf(),
            r.1 <= old(dest)@.len() == final(dest)@.len(),
            final(self)@.ready_to_read(r.0, old(dest)@.len(), r.1 as nat),
            exists|rounds: nat|
                #[trigger] old(self)@.reading(
                    rounds,
                    old(dest)@,
                    0,
                    final(self)@,
                    final(dest)@,
                    r.1 as nat,
                    r.0,
                ),
    {
        self.read_on(dest, 0)
    }

    /// Goes on with a read that has filled `filled` bytes of `dest`.
    fn read_on(&mut self, dest: &mut [u8], filled: usize) -> (r: (ReadStep, usize))
        requires
            old(self).wf(),
            old(self)@.roomy(),
            filled <= old(dest)@.len(),
        ensures
            final(self).wf(),
            filled <= r.1 <= old(dest)@.len() == final(dest)@.len(),
            final(self)@.ready_to_read(r.0, old(dest)@.len(), r.1 as nat),
            exists|rounds: nat|
                #[trigger] old(self)@.reading(
                    rounds,
                    old(dest)@,
                    filled as nat,
                    final(self)@,
                    final(dest)@,
                    r.1 as nat,
                    r.0,
                ),
    {
        let ghost pre = self@;
        let ghost before = dest@;
        if filled == dest.len() {
            let r: (ReadStep, usize) = (ReadStep::Ready(Ok(())), filled);
            assert(pre.reading(0, before, filled as nat, self@, dest@, r.1 as nat, r.0));
            return r;
        }
        let signal: Signal = self.poll_event(filled > 0);
        let ghost mid = self@;
        let ghost model = signal@;
        proof {
            lemma_polled(pre, filled > 0, mid, model);
            assert(pre.polled(started(filled as nat), mid, model));
        }
        let r: (ReadStep, usize) = self.resume_read(signal, dest, filled);
        proof {
            let rounds = choose|rounds: nat|
                #[trigger] mid.read_signalled(
                    rounds,
                    model,
                    before,
                    filled as nat,
                    self@,
                    dest@,
                    r.1 as nat,
                    r.0,
                );
            assert(pre.reading(rounds, before, filled as nat, self@, dest@, r.1 as nat, r.0));
        }
        r
    }

    /// Goes on with a read that has filled `filled` bytes of `dest`, with what a signal says.
    pub fn resume_read(&mut self, signal: Signal, dest: &mut [u8], filled: usize) -> (r: (
        ReadStep,
        usize,
    ))
        requires
            old(self).wf(),
            filled < old(dest)@.len(),
            signal is Binary ==> old(self)@.in_binary(),
            signal is Binary || signal is Empty || signal is Ping || signal is Pong ==> old(
                self,
            )@.roomy(),
        ensures
            final(self).wf(),
            filled <= r.1 <= old(dest)@.len() == final(dest)@.len(),
            old(self)@.ready_for(signal@) ==> final(self)@.ready_to_read(
                r.0,
                old(dest)@.len(),
                r.1 as nat,
            ),
            exists|rounds: nat|
                #[trigger] old(self)@.read_signalled(
                    rounds,
                    signal@,
                    old(dest)@,
                    filled as nat,
                    final(self)@,
                    final(dest)@,
                    r.1 as nat,
                    r.0,
                ),
    {
        let ghost pre = self@;
        let ghost before = dest@;
        let ghost first = signal@;
        let ghost mut rounds: nat = 0;
        let len: usize = dest.len();
        let mut done: usize = filled;
        let mut next: Signal = signal;
        loop
            invariant
                pre == old(self)@,
                before == old(dest)@,
                first == signal@,
                self.wf(),
                filled <= done < len,
                len == dest@.len() == before.len(),
                next is Binary ==> self@.in_binary(),
                pre.ready_for(first) ==> self@.ready_for(next@),
                next is Binary || next is Empty || next is Ping || next is Pong
                    ==> self@.roomy(),
                pre.signal_leads_to(
                    rounds,
                    first,
                    before,
                    filled as nat,
                    self@,
                    next@,
                    dest@,
                    done as nat,
                ),
            decreases
                if next is Binary {
                    2 * self@.decoder.buf.len() + 1
                } else if next is Empty || next is Ping || next is Pong {
                    2 * self@.decoder.buf.len() + 2
                } else {
                    0
                },
        {
            let ghost now = self@;
            let ghost now_dest = dest@;
            let ghost now_filled = done as nat;
            let ghost now_signal = next@;
            let (step, n): (Option<ReadStep>, usize) = self.take_signal(next, dest, done);
            if let Some(step) = step {
                let r: (ReadStep, usize) = (step, n);
                assert(now.read_signalled(
                    0,
                    now_signal,
                    now_dest,
                    now_filled,
                    self@,
                    dest@,
                    r.1 as nat,
                    r.0,
                ));
                assert(pre.read_signalled(
                    0 + rounds,
                    first,
                    before,
                    filled as nat,
                    self@,
                    dest@,
                    r.1 as nat,
                    r.0,
                ));
                return r;
            }
            done = n;
            let ghost taken = self@;
            let ghost taken_dest = dest@;
            if done == len {
                let r: (ReadStep, usize) = (ReadStep::Ready(Ok(())), done);
                assert(taken.reading(
                    0,
                    taken_dest,
                    done as nat,
                    self@,
                    dest@,
                    r.1 as nat,
                    r.0,
                ));
                assert(now.read_signalled(
                    1,
                    now_signal,
                    now_dest,
                    now_filled,
                    self@,
                    dest@,
                    r.1 as nat,
                    r.0,
                ));
                assert(pre.read_signalled(
                    1 + rounds,
                    first,
                    before,
                    filled as nat,
                    self@,
                    dest@,
                    r.1 as nat,
                    r.0,
                ));
                return r;
            }
            next = self.poll_event(done > 0);
            proof {
                lemma_polled(taken, done > 0, self@, next@);
                assert forall|
                    more: nat,
                    post: ConnModel,
                    post_dest: Seq<u8>,
                    post_filled: nat,
                    step: ReadStep,
                | #[trigger]
                    self@.read_signalled(
                        more,
                        next@,
                        dest@,
                        done as nat,
                        post,
                        post_dest,
                        post_filled,
                        step,
                    ) implies pre.read_signalled(
                    more + (rounds + 1),
                    first,
                    before,
                    filled as nat,
                    post,
                    post_dest,
                    post_filled,
                    step,
                ) by {
                    assert(taken.polled(started(done as nat), self@, next@));
                    assert(taken.reading(
                        more,
                        taken_dest,
                        done as nat,
                        post,
                        post_dest,
                        post_filled,
                        step,
                    ));
                    assert(now.read_signalled(
                        more + 1,
                        now_signal,
                        now_dest,
                        now_filled,
                        post,
                        post_dest,
                        post_filled,
                        step,
                    ));
                    assert((more + 1) + rounds == more + (rounds + 1));
                }
                rounds = rounds + 1;
            }
        }
    }

    /// Takes what a signal says, for a read that has filled `filled` bytes of `dest`. [`None`] if
    /// the read goes on.
    fn take_signal(&mut self, signal: Signal, dest: &mut [u8], filled: usize) -> (r: (
        Option<ReadStep>,
        usize,
    ))
        requires
            old(self).wf(),
            filled < old(dest)@.len(),
            signal is Binary ==> old(self)@.in_binary(),
        ensures
            final(self).wf(),
            old(self)@.ready_for(signal@) && r.0 is Some ==> final(self)@.ready_to_read(
                r.0->0,
                old(dest)@.len(),
                r.1 as nat,
            ),
            match r.0 {
                Some(step) => r.1 == filled && old(self)@.read_signalled(
                    0,
                    signal@,
                    old(dest)@,
                    filled as nat,
                    final(self)@,
                    final(dest)@,
                    filled as nat,
                    step,
                ),
                None => if signal is Binary {
                    let n = old(self)@.deliverable((old(dest)@.len() - filled) as nat);
                    &&& n > 0
                    &&& r.1 == filled + n
                    &&& final(self)@ == (ConnModel {
                        decoder: old(self)@.decoder.taken(n),
                        ..old(self)@
                    })
                    &&& final(dest)@ == old(dest)@.take(filled as int)
                        + old(self)@.decoder.revealed(n) + old(dest)@.skip((filled + n) as int)
                } else {
                    &&& signal is Empty || signal is Ping || signal is Pong
                    &&& r.1 == filled
                    &&& final(self)@ == old(self)@
                    &&& final(dest)@ == old(dest)@
                },
            },
            final(dest)@.len() == old(dest)@.len(),
            r.1 <= old(dest)@.len(),
    {
        let step: ReadStep = match signal {
            Signal::Binary => {
                let len: usize = dest.len();
                if !self.decoder.is_empty() {
                    let (n, _): (usize, bool) = self.decoder.take_into(dest, filled);
                    assert(n <= len - filled);
                    return (None, filled + n);
                }
                proof {
                    self.config.lemma_options();
                }
                let limit: usize = self.decoder.limit(len - filled);
                if filled > 0 {
                    ReadStep::Ready(Ok(()))
                } else if limit >= self.config.read_buffer_size / 2 {
                    ReadStep::ReadThrough(limit)
                } else {
                    ReadStep::Read
                }
            },
            Signal::Empty | Signal::Ping(_) | Signal::Pong(_) => return (None, filled),
            Signal::Write(reply) => ReadStep::Write(reply),
            Signal::Read => ReadStep::Read,
            Signal::Shutdown => ReadStep::Shutdown,
            Signal::Pending => if filled > 0 {
                ReadStep::Ready(Ok(()))
            } else {
                ReadStep::Pending
            },
            Signal::Failed(error) => if filled > 0 {
                self.defer_error(error);
                ReadStep::Ready(Ok(()))
            } else {
                ReadStep::Ready(Err(error))
            },
            Signal::Text(_) => ReadStep::Ready(Err(WebSocketError::TextMessage)),
            Signal::Closed(_) => ReadStep::Ready(Ok(())),
        };
        (Some(step), filled)
    }

    /// Keeps an error for the next call.
    fn defer_error(&mut self, error: WebSocketError)
        requires
            old(self).wf(),
        ensures
            final(self).wf(),
            final(self)@ == (ConnModel { pending_error: Some(error), ..old(self)@ }),
    {
        self.pending_error = Some(error);
    }

    /// Goes on with a read after the IO has read straight into `dest`.
    pub fn read_through(&mut self, dest: &mut [u8], outcome: Outcome) -> (r: (ReadStep, usize))
        requires
            old(self).wf(),
            old(self)@.roomy(),
            old(self)@.in_binary(),
            old(self)@.decoder.buf.len() == 0,
            old(dest)@.len() > 0,
            outcome matches Outcome::Ready(n) ==> n <= old(dest)@.len() && n
                <= old(self)@.decoder.frame.left(),
        ensures
            final(self).wf(),
            r.1 <= old(dest)@.len() == final(dest)@.len(),
            final(self)@.ready_to_read(r.0, old(dest)@.len(), r.1 as nat),
            exists|rounds: nat|
                #[trigger] old(self)@.reading_through(
                    rounds,
                    old(dest)@,
                    outcome,
                    final(self)@,
                    final(dest)@,
                    r.1 as nat,
                    r.0,
                ),
    {
        let ghost pre = self@;
        let ghost before = dest@;
        let n: usize = match outcome {
            Outcome::Pending => {
                self.decoder.release_buf();
                let r: (ReadStep, usize) = (ReadStep::Pending, 0);
                assert(pre.reading_through(0, before, outcome, self@, dest@, r.1 as nat, r.0));
                return r;
            },
            Outcome::Failed => {
                let r: (ReadStep, usize) = (ReadStep::Ready(Err(WebSocketError::Io)), 0);
                assert(pre.reading_through(0, before, outcome, self@, dest@, r.1 as nat, r.0));
                return r;
            },
            Outcome::Ready(n) => n,
        };
        if n == 0 {
            let signal: Signal = self.on_eof();
            let ghost model = signal@;
            let ghost mid = self@;
            assert(pre.ended(mid, model));
            let r: (ReadStep, usize) = self.resume_read(signal, dest, 0);
            proof {
                let rounds = choose|rounds: nat|
                    #[trigger] mid.read_signalled(
                        rounds,
                        model,
                        before,
                        0,
                        self@,
                        dest@,
                        r.1 as nat,
                        r.0,
                    );
                assert(pre.reading_through(rounds, before, outcome, self@, dest@, r.1 as nat, r.0));
            }
            return r;
        }
        let _ = self.decoder.took_directly(dest, 0, n);
        let ghost mid = self@;
        let ghost revealed = dest@;
        assert(before.subrange(0, n as int) =~= before.take(n as int));
        assert(revealed =~= pre.decoder.frame.reveals(before.take(n as int)) + before.skip(
            n as int,
        ));
        let r: (ReadStep, usize) = self.read_on(dest, n);
        proof {
            let rounds = choose|rounds: nat|
                #[trigger] mid.reading(
                    rounds,
                    revealed,
                    n as nat,
                    self@,
                    dest@,
                    r.1 as nat,
                    r.0,
                );
            assert(pre.reading_through(rounds, before, outcome, self@, dest@, r.1 as nat, r.0));
        }
        r
    }
}

} // verus!
