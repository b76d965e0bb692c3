//! Outgoing side: frame encoding, write buffering, direct vectored writes.
//!
//! Invariant: every write that reports `n` accepted bytes leaves a complete frame for those bytes
//! behind. Its head is already in the IO, its tail (if any) sits in the write buffer. No frame
//! ever waits for more user data, so a flush only has to drain the buffer.
use crate::buffer::{append_masked, MAX_BUFFER};
use crate::close::{CloseCode, CloseModel, MAX_REASON_LEN};
use crate::config::Role;
use crate::error::WebSocketError;
use crate::frame::{encode, Header, HeaderModel, OpCode, MAX_CONTROL_PAYLOAD, MAX_HEADER_LEN};
use crate::mask::MaskKeys;
use bytes::{Buf, Bytes, BytesMut};
use vstd::prelude::*;

verus! {

/// Longest possible control frame.
pub const MAX_CONTROL_FRAME: usize = 139;

/// What became of a write to the IO.
#[derive(Clone, Copy, Debug, PartialEq, Eq, Structural)]
pub enum Outcome {
    /// The IO is not ready.
    Pending,
    /// The IO failed.
    Failed,
    /// The IO took this many bytes.
    Ready(usize),
}

/// How far the write buffer has been drained.
#[derive(Clone, Copy, Debug, PartialEq, Eq, Structural)]
pub enum Drain {
    /// The buffer has to be written to the IO.
    Write,
    /// Nothing is left to be written.
    Done,
    /// The IO is not ready.
    Blocked,
    /// The IO failed, or took nothing.
    Failed(WebSocketError),
}

/// How outgoing frames are masked.
pub enum Keys {
    /// Not at all, as servers do.
    Unmasked,
    /// With an all-zero key.
    Zero,
    /// With a fresh random key for each frame.
    Random(MaskKeys),
}

/// How outgoing frames are masked, as a mathematical value.
#[verifier::ext_equal]
pub enum KeysModel {
    /// Not at all, as servers do.
    Unmasked,
    /// With an all-zero key.
    Zero,
    /// With a fresh random key for each frame, drawn from a pool of which a part is spent.
    Random {
        /// The bytes that keys are taken from.
        pool: Seq<u8>,
        /// How many of them have been taken.
        spent: int,
    },
}

impl View for Keys {
    type V = KeysModel;

    open spec fn view(&self) -> KeysModel {
        match self {
            Keys::Unmasked => KeysModel::Unmasked,
            Keys::Zero => KeysModel::Zero,
            Keys::Random(keys) => KeysModel::Random { pool: keys.pool(), spent: keys.spent() },
        }
    }
}

impl KeysModel {
    /// How a new connection masks: with fresh keys, unless it is a server or was told to use an
    /// all-zero key. The first key is drawn from a pool that is yet to be filled.
    pub open spec fn start(role: Role, zero_mask_key: bool) -> KeysModel {
        match role {
            Role::Server => KeysModel::Unmasked,
            Role::Client => if zero_mask_key {
                KeysModel::Zero
            } else {
                KeysModel::Random {
                    pool: Seq::new(crate::mask::keys::POOL as nat, |i: int| 0u8),
                    spent: crate::mask::keys::POOL as int,
                }
            },
        }
    }

    /// Whole keys have been taken from a pool of the right size.
    pub open spec fn wf(self) -> bool {
        self matches KeysModel::Random { pool, spent } ==> pool.len() == crate::mask::keys::POOL
            && 0 <= spent <= crate::mask::keys::POOL && spent % 4 == 0
    }

    /// Whether a frame may be masked with `mask`, leaving `post` behind.
    ///
    /// A random key consists of the next bytes of the pool. A spent pool is replaced first.
    pub open spec fn drew(self, post: KeysModel, mask: Option<Seq<u8>>) -> bool {
        match self {
            KeysModel::Unmasked => post == self && mask == None::<Seq<u8>>,
            KeysModel::Zero => post == self && mask == Some(crate::mask::zero_key()),
            KeysModel::Random { pool, spent } => {
                &&& post matches KeysModel::Random { pool: post_pool, spent: post_spent }
                &&& post.wf()
                &&& mask == Some(post_pool.subrange(post_spent - 4, post_spent))
                &&& spent < crate::mask::keys::POOL ==> post_pool == pool && post_spent == spent + 4
                &&& spent == crate::mask::keys::POOL ==> post_spent == 4
            },
        }
    }

    /// The mask of frames that are not masked with random keys.
    pub open spec fn fixed_mask(self) -> Option<Seq<u8>> {
        match self {
            KeysModel::Zero => Some(crate::mask::zero_key()),
            _ => None,
        }
    }
}

/// A pool serves as many keys as it holds: the keys that are drawn one after the other, from when a
/// pool is spent until the next one is, are the bytes of a single pool, in order. None of its bytes
/// serves two keys.
pub proof fn law_one_pool_serves_many_keys(states: Seq<KeysModel>, keys: Seq<Seq<u8>>, i: int)
    requires
        states.len() == keys.len() + 1,
        states[0].wf(),
        states[0] matches KeysModel::Random { spent, .. } && spent == crate::mask::keys::POOL,
        forall|j: int|
            #![trigger keys[j]]
            0 <= j < keys.len() ==> states[j].drew(states[j + 1], Some(keys[j])),
        0 <= i < keys.len(),
        4 * i < crate::mask::keys::POOL,
    ensures
        states[1] matches KeysModel::Random { pool, .. } && states[i + 1] == (KeysModel::Random {
            pool,
            spent: 4 * (i + 1),
        }) && keys[i] == pool.subrange(4 * i, 4 * i + 4),
    decreases i,
{
    assert(states[i].drew(states[i + 1], Some(keys[i])));
    if i > 0 {
        law_one_pool_serves_many_keys(states, keys, i - 1);
    }
}

/// A complete, single-frame message.
pub open spec fn frame_bytes(mask: Option<Seq<u8>>, opcode: OpCode, payload: Seq<u8>) -> Seq<u8> {
    crate::frame::encoded(HeaderModel { fin: true, opcode, mask, len: payload.len() }) + match mask {
        Some(key) => crate::mask::masked(payload, key, 0),
        None => payload,
    }
}

/// The outgoing side of a connection, as a mathematical value.
#[verifier::ext_equal]
pub struct SendModel {
    /// Encoded frames waiting for the IO. Only the first one may be partially written.
    pub buf: Seq<u8>,
    /// How frames are masked.
    pub keys: KeysModel,
    /// Payload of the latest unanswered ping.
    pub pong: Option<Seq<u8>>,
    /// Whether our Close frame has been queued. No frames may follow it.
    pub close_sent: bool,
    /// Whether a pong or a Close reply queued by the read side waits to be written.
    pub control_pending: bool,
    /// How much is buffered before writes drain the buffer.
    pub write_buffer_size: nat,
}

impl SendModel {
    /// Pongs fit in a control frame, none follows our Close frame, and one that has not been staged
    /// waits to be written.
    pub open spec fn wf(self) -> bool {
        &&& self.keys.wf()
        &&& self.pong matches Some(payload) ==> payload.len() <= MAX_CONTROL_PAYLOAD
            && !self.close_sent && self.control_pending
    }

    /// Whether the buffer can grow by `extra` bytes.
    pub open spec fn fits(self, extra: int) -> bool {
        self.buf.len() + extra <= MAX_BUFFER
    }

    /// Whether `post` differs only by one more frame at the end of the buffer.
    pub open spec fn pushed(self, post: SendModel, opcode: OpCode, payload: Seq<u8>) -> bool {
        exists|mask: Option<Seq<u8>>|
            {
                &&& #[trigger] self.keys.drew(post.keys, mask)
                &&& post == (SendModel {
                    buf: self.buf + frame_bytes(mask, opcode, payload),
                    keys: post.keys,
                    ..self
                })
            }
    }

    /// Whether the pending pong is due: there is one, and the buffer is not full. An empty buffer
    /// never is, whatever its size.
    pub open spec fn pong_due(self) -> bool {
        self.pong is Some && (self.buf.len() == 0 || self.buf.len() < self.write_buffer_size)
    }

    /// Whether `post` is the state after the pending pong, if it is due, moved into the buffer.
    pub open spec fn staged(self, post: SendModel) -> bool {
        if self.pong_due() {
            (SendModel { pong: None, ..self }).pushed(post, OpCode::Pong, self.pong->0)
        } else {
            post == self
        }
    }

    /// Whether appending a frame with `len` bytes of payload has to wait for the buffer to drain.
    pub open spec fn overflows(self, len: nat) -> bool {
        self.buf.len() > 0 && self.buf.len() + len + MAX_HEADER_LEN > self.write_buffer_size
    }

    /// Whether draining goes on with a write (`Write`) or is over (`Done`), leaving `post`.
    pub open spec fn draining(self, post: SendModel, drain: Drain) -> bool {
        if self.pong_due() {
            drain is Write && self.staged(post)
        } else if self.buf.len() > 0 {
            drain is Write && post == self
        } else {
            drain is Done && post == (SendModel { control_pending: false, ..self })
        }
    }

    /// What draining comes to after the buffer has been written to the IO.
    pub open spec fn drained(self, outcome: Outcome, post: SendModel, drain: Drain) -> bool {
        match outcome {
            Outcome::Pending => drain is Blocked && post == self,
            Outcome::Failed => drain == Drain::Failed(WebSocketError::Io) && post == self,
            Outcome::Ready(n) => if n == 0 {
                drain == Drain::Failed(WebSocketError::WriteZero) && post == self
            } else {
                (SendModel { buf: self.buf.skip(n as int), ..self }).draining(post, drain)
            },
        }
    }

    /// Whether `post` is the state after our Close frame was queued.
    pub open spec fn close_queued(self, post: SendModel, frame: Option<CloseModel>) -> bool {
        (SendModel { pong: None, close_sent: true, ..self }).pushed(
            post,
            OpCode::Close,
            crate::close::close_payload(frame),
        )
    }

    /// Whether a binary frame with `len` bytes of payload goes to the IO straight from the
    /// caller's buffer: it is sent as it is, the IO supports vectored writes, and it takes at least
    /// half the write buffer.
    pub open spec fn writes_through(self, len: nat, vectored: bool) -> bool {
        &&& !(self.keys is Random)
        &&& len >= self.write_buffer_size / 2
        &&& vectored
    }
}

/// The outgoing side of a connection.
pub struct SendState {
    buf: BytesMut,
    keys: Keys,
    pending_pong: Option<Bytes>,
    close_sent: bool,
    control_pending: bool,
    write_buffer_size: usize,
}

impl View for SendState {
    type V = SendModel;

    closed spec fn view(&self) -> SendModel {
        SendModel {
            buf: crate::buffer::contents_of(self.buf),
            keys: self.keys@,
            pong: match self.pending_pong {
                Some(payload) => Some(crate::buffer::bytes_of(payload)),
                None => None,
            },
            close_sent: self.close_sent,
            control_pending: self.control_pending,
            write_buffer_size: self.write_buffer_size as nat,
        }
    }
}

/// A frame is at most as much longer than its payload as its header is.
pub proof fn lemma_frame_len(mask: Option<Seq<u8>>, opcode: OpCode, payload: Seq<u8>)
    requires
        mask matches Some(key) ==> key.len() == 4,
        payload.len() < 0x8000_0000_0000_0000,
    ensures
        2 <= frame_bytes(mask, opcode, payload).len() - payload.len() <= MAX_HEADER_LEN,
        payload.len() < 126 ==> frame_bytes(mask, opcode, payload).len() <= payload.len() + 6,
{
    if payload.len() >= 126 {
        crate::frame::lemma_extended_len_bytes(payload.len());
    }
}

/// A frame that was pushed is masked with a key that was drawn for it.
pub proof fn lemma_pushed(
    pre: SendModel,
    post: SendModel,
    opcode: OpCode,
    payload: Seq<u8>,
) -> (mask: Option<Seq<u8>>)
    requires
        pre.pushed(post, opcode, payload),
    ensures
        pre.keys.drew(post.keys, mask),
        post == (SendModel {
            buf: pre.buf + frame_bytes(mask, opcode, payload),
            keys: post.keys,
            ..pre
        }),
{
    choose|mask: Option<Seq<u8>>|
        {
            &&& #[trigger] pre.keys.drew(post.keys, mask)
            &&& post == (SendModel {
                buf: pre.buf + frame_bytes(mask, opcode, payload),
                keys: post.keys,
                ..pre
            })
        }
}

/// A frame that was pushed lengthens the buffer by its header and its payload.
pub proof fn lemma_pushed_len(pre: SendModel, post: SendModel, opcode: OpCode, payload: Seq<u8>)
    requires
        pre.pushed(post, opcode, payload),
        pre.keys.wf(),
        payload.len() < 0x8000_0000_0000_0000,
    ensures
        post.buf.len() >= pre.buf.len() + 2,
        post.buf.len() <= pre.buf.len() + payload.len() + MAX_HEADER_LEN,
        payload.len() <= MAX_CONTROL_PAYLOAD ==> post.buf.len() < pre.buf.len()
            + MAX_CONTROL_FRAME,
{
    let mask = lemma_pushed(pre, post, opcode, payload);
    lemma_frame_len(mask, opcode, payload);
}

impl SendState {
    /// Creates the outgoing side of a new connection.
    pub fn new(keys: Keys, write_buffer_size: usize) -> (send: SendState)
        requires
            keys@.wf(),
        ensures
            send@ == (SendModel {
                buf: Seq::empty(),
                keys: keys@,
                pong: None,
                close_sent: false,
                control_pending: false,
                write_buffer_size: write_buffer_size as nat,
            }),
            send@.wf(),
    {
        SendState {
            buf: BytesMut::new(),
            keys,
            pending_pong: None,
            close_sent: false,
            control_pending: false,
            write_buffer_size,
        }
    }

    /// Encoded frames waiting for the IO.
    pub fn buffered(&self) -> (buf: &[u8])
        ensures
            buf@ == self@.buf,
    {
        &self.buf
    }

    /// Whether the buffer can grow by `extra` bytes.
    pub fn fits(&self, extra: usize) -> (r: bool)
        ensures
            r == self@.fits(extra as int),
    {
        extra <= MAX_BUFFER && self.buf.len() <= MAX_BUFFER - extra
    }

    /// Whether our Close frame has been queued.
    pub fn is_close_sent(&self) -> (r: bool)
        ensures
            r == self@.close_sent,
    {
        self.close_sent
    }

    /// Whether a pong or a Close reply queued by the read side waits to be written.
    pub fn is_control_pending(&self) -> (r: bool)
        ensures
            r == self@.control_pending,
    {
        self.control_pending
    }

    /// The key of the next frame.
    fn next_mask(&mut self) -> (mask: Option<[u8; 4]>)
        requires
            old(self)@.keys.wf(),
        ensures
            final(self)@ == (SendModel { keys: final(self)@.keys, ..old(self)@ }),
            final(self)@.keys.wf(),
            old(self)@.keys.drew(final(self)@.keys, crate::frame::key_model(mask)),
    {
        match &mut self.keys {
            Keys::Unmasked => None,
            Keys::Zero => {
                let zero: [u8; 4] = [0, 0, 0, 0];
                assert(zero@ =~= crate::mask::zero_key());
                Some(zero)
            },
            Keys::Random(keys) => Some(keys.next()),
        }
    }

    /// Appends a complete, single-frame message to the buffer. Masks the payload while copying it
    /// in if this is a client.
    pub fn push_frame(&mut self, opcode: OpCode, payload: &[u8])
        requires
            old(self)@.keys.wf(),
            old(self)@.fits(payload@.len() + MAX_HEADER_LEN),
        ensures
            old(self)@.pushed(final(self)@, opcode, payload@),
            final(self)@.keys.wf(),
    {
        let ghost pre = self@;
        let mask: Option<[u8; 4]> = self.next_mask();
        let ghost key = crate::frame::key_model(mask);
        let mut header: [u8; MAX_HEADER_LEN] = [0; MAX_HEADER_LEN];
        let header_len: usize = encode(
            &mut header,
            Header { fin: true, opcode, mask, len: payload.len() as u64 },
        );
        self.buf.reserve(header_len + payload.len());
        self.buf.extend_from_slice(vstd::slice::slice_subrange(&header, 0, header_len));
        match mask {
            Some(key) => append_masked(&mut self.buf, payload, key, 0),
            None => self.buf.extend_from_slice(payload),
        }
        proof {
            let head = crate::frame::encoded(
                HeaderModel { fin: true, opcode, mask: key, len: payload@.len() },
            );
            assert(self@.buf =~= pre.buf + frame_bytes(key, opcode, payload@));
            assert(pre.keys.drew(self@.keys, key));
        }
    }

    /// Queues our Close frame. `reason` must not exceed 123 bytes.
    pub fn queue_close(&mut self, code: Option<CloseCode>, reason: &[u8])
        requires
            old(self)@.keys.wf(),
            old(self)@.fits(MAX_CONTROL_FRAME as int),
            reason@.len() <= MAX_REASON_LEN,
        ensures
            old(self)@.close_queued(
                final(self)@,
                match code {
                    Some(code) => Some(CloseModel { code, reason: reason@ }),
                    None => None,
                },
            ),
            final(self)@.wf(),
    {
        self.pending_pong = None;
        self.close_sent = true;
        match code {
            Some(code) => {
                let mut payload: [u8; MAX_CONTROL_PAYLOAD] = [0; MAX_CONTROL_PAYLOAD];
                payload[0] = (code.0 / 256) as u8;
                payload[1] = (code.0 % 256) as u8;
                let n: usize = reason.len();
                let mut i: usize = 0;
                while i < n
                    invariant
                        n == reason@.len() <= MAX_REASON_LEN,
                        i <= n,
                        payload@.len() == MAX_CONTROL_PAYLOAD,
                        payload@[0] == (code.0 / 256) as u8,
                        payload@[1] == (code.0 % 256) as u8,
                        forall|j: int| 0 <= j < i ==> #[trigger] payload@[j + 2] == reason@[j],
                    decreases n - i,
                {
                    payload[i + 2] = reason[i];
                    i = i + 1;
                }
                let used: &[u8] = vstd::slice::slice_subrange(&payload, 0, n + 2);
                proof {
                    let model = Some(CloseModel { code, reason: reason@ });
                    let expected = crate::close::close_payload(model);
                    assert forall|j: int| 0 <= j < n + 2 implies #[trigger] used@[j]
                        == expected[j] by {
                        if j >= 2 {
                            assert(payload@[j - 2 + 2] == reason@[j - 2]);
                        }
                    }
                    assert(used@ =~= expected);
                }
                self.push_frame(OpCode::Close, used);
            },
            None => {
                let empty: [u8; 0] = [];
                assert(empty@ =~= Seq::<u8>::empty());
                self.push_frame(OpCode::Close, &empty);
            },
        }
    }

    /// Moves the pending pong into the buffer, unless the buffer is already full.
    pub fn stage_pong(&mut self)
        requires
            old(self)@.wf(),
            old(self)@.fits(MAX_CONTROL_FRAME as int),
        ensures
            old(self)@.staged(final(self)@),
            final(self)@.wf(),
    {
        if self.buf.is_empty() || self.buf.len() < self.write_buffer_size {
            if let Some(payload) = self.pending_pong.take() {
                self.push_frame(OpCode::Pong, &payload);
            }
        }
    }

    /// Whether appending a frame with `len` bytes of payload should wait for the buffer to drain.
    pub fn would_overflow(&self, len: usize) -> (r: bool)
        requires
            self@.fits(len + MAX_HEADER_LEN),
        ensures
            r == self@.overflows(len as nat),
    {
        !self.buf.is_empty() && self.buf.len() + len + MAX_HEADER_LEN > self.write_buffer_size
    }

    /// Whether a binary frame with `len` bytes of payload goes to the IO straight from the
    /// caller's buffer.
    pub fn is_write_through(&self, len: usize, vectored: bool) -> (r: bool)
        ensures
            r == self@.writes_through(len as nat, vectored),
    {
        let direct: bool = match &self.keys {
            Keys::Random(_) => false,
            _ => true,
        };
        direct && len >= self.write_buffer_size / 2 && vectored
    }

    /// Starts to write all buffered frames to the IO: tells whether anything has to be written.
    pub fn start_drain(&mut self) -> (drain: Drain)
        requires
            old(self)@.wf(),
            old(self)@.fits(MAX_CONTROL_FRAME as int),
        ensures
            old(self)@.draining(final(self)@, drain),
            final(self)@.wf(),
    {
        self.stage_pong();
        proof {
            if old(self)@.pong_due() {
                let pre = SendModel { pong: None, ..old(self)@ };
                lemma_pushed_len(pre, self@, OpCode::Pong, old(self)@.pong->0);
            }
        }
        if self.buf.is_empty() {
            self.control_pending = false;
            Drain::Done
        } else {
            Drain::Write
        }
    }

    /// Goes on with draining after the buffer has been written to the IO.
    pub fn on_write(&mut self, outcome: Outcome) -> (drain: Drain)
        requires
            old(self)@.wf(),
            old(self)@.fits(MAX_CONTROL_FRAME as int),
            outcome matches Outcome::Ready(n) ==> n <= old(self)@.buf.len(),
        ensures
            old(self)@.drained(outcome, final(self)@, drain),
            final(self)@.wf(),
    {
        match outcome {
            Outcome::Pending => Drain::Blocked,
            Outcome::Failed => Drain::Failed(WebSocketError::Io),
            Outcome::Ready(n) => {
                if n == 0 {
                    return Drain::Failed(WebSocketError::WriteZero);
                }
                self.buf.advance(n);
                self.start_drain()
            },
        }
    }

    /// Frees the memory of the buffer once it holds no data, so that idle connections do not pin
    /// any.
    ///
    /// The contract says that the model stays as it is. How much memory a buffer holds is left
    /// unsaid: `bytes` does not specify the capacity of an empty buffer.
    pub fn release_buf(&mut self)
        ensures
            final(self)@ == old(self)@,
    {
        if self.buf.is_empty() {
            self.buf = BytesMut::new();
            assert(self@.buf =~= old(self)@.buf);
        }
    }

    /// Drops all buffered frames.
    pub fn clear(&mut self)
        ensures
            final(self)@ == (SendModel { buf: Seq::empty(), ..old(self)@ }),
    {
        self.buf.clear();
    }

    /// Remembers the payload of a ping that has to be answered.
    ///
    /// Newer pings replace older ones, as allowed by RFC 6455, which bounds the memory a ping flood
    /// can take.
    pub fn queue_pong(&mut self, payload: Bytes)
        ensures
            final(self)@ == (SendModel {
                pong: Some(crate::buffer::bytes_of(payload)),
                control_pending: true,
                ..old(self)@
            }),
    {
        self.pending_pong = Some(payload);
        self.control_pending = true;
    }

    /// Notes that the Close frame queued by the read side waits to be written.
    pub fn mark_control_pending(&mut self)
        ensures
            final(self)@ == (SendModel { control_pending: true, ..old(self)@ }),
    {
        self.control_pending = true;
    }

    /// The header of a binary frame that is sent as it is.
    pub fn direct_header(&self, len: usize) -> (head: FrameHead)
        requires
            !(self@.keys is Random),
        ensures
            head@ == crate::frame::encoded(
                HeaderModel {
                    fin: true,
                    opcode: OpCode::Binary,
                    mask: self@.keys.fixed_mask(),
                    len: len as nat,
                },
            ),
    {
        let mask: Option<[u8; 4]> = match &self.keys {
            Keys::Zero => {
                let zero: [u8; 4] = [0, 0, 0, 0];
                assert(zero@ =~= crate::mask::zero_key());
                Some(zero)
            },
            _ => None,
        };
        let mut bytes: [u8; MAX_HEADER_LEN] = [0; MAX_HEADER_LEN];
        let n: usize = encode(
            &mut bytes,
            Header { fin: true, opcode: OpCode::Binary, mask, len: len as u64 },
        );
        FrameHead { bytes, len: n }
    }

    /// Takes note of a vectored write of the buffered frames and of a new frame with `data`, of
    /// which the IO took `written` bytes.
    ///
    /// Once any byte of the new frame reaches the IO, the frame is committed: the remainder is
    /// copied into the write buffer. If the IO does not take any byte of the new frame, nothing is
    /// accepted. Replies that were buffered are out once it is committed, but a pong that did not
    /// fit into the buffer still waits. Tells whether the frame is committed.
    pub fn on_direct_write(&mut self, data: &[u8], written: usize) -> (committed: bool)
        requires
            !(old(self)@.keys is Random),
            old(self)@.fits(data@.len() + MAX_HEADER_LEN),
            written <= old(self)@.buf.len() + frame_bytes(
                old(self)@.keys.fixed_mask(),
                OpCode::Binary,
                data@,
            ).len(),
        ensures
            committed == (written > old(self)@.buf.len()),
            !committed ==> final(self)@ == (SendModel {
                buf: old(self)@.buf.skip(written as int),
                ..old(self)@
            }),
            committed ==> final(self)@ == (SendModel {
                buf: (old(self)@.buf + frame_bytes(
                    old(self)@.keys.fixed_mask(),
                    OpCode::Binary,
                    data@,
                )).skip(written as int),
                control_pending: old(self)@.control_pending && old(self)@.pong is Some,
                ..old(self)@
            }),
    {
        let ghost pre = self@;
        let buffered: usize = self.buf.len();
        if written <= buffered {
            self.buf.advance(written);
            return false;
        }
        let head: FrameHead = self.direct_header(data.len());
        let ghost mask = pre.keys.fixed_mask();
        let ghost frame = frame_bytes(mask, OpCode::Binary, data@);
        proof {
            crate::mask::law_zero_key(data@, 0);
            assert(frame =~= head@ + data@);
        }
        self.buf.advance(buffered);
        if self.pending_pong.is_none() {
            self.control_pending = false;
        }
        let taken: usize = written - buffered;
        let header: &[u8] = head.as_slice();
        if taken < header.len() {
            self.buf.extend_from_slice(vstd::slice::slice_subrange(header, taken, header.len()));
            self.buf.extend_from_slice(data);
        } else {
            self.buf.extend_from_slice(
                vstd::slice::slice_subrange(data, taken - header.len(), data.len()),
            );
        }
        assert(self@.buf =~= (pre.buf + frame).skip(written as int));
        true
    }
}

/// The encoded header of a frame.
#[derive(Clone, Copy, Debug)]
pub struct FrameHead {
    bytes: [u8; MAX_HEADER_LEN],
    len: usize,
}

impl View for FrameHead {
    type V = Seq<u8>;

    closed spec fn view(&self) -> Seq<u8> {
        self.bytes@.take(self.len as int)
    }
}

impl FrameHead {
    #[verifier::type_invariant]
    spec fn bounded(self) -> bool {
        self.len <= MAX_HEADER_LEN
    }

    /// The bytes of the header.
    pub fn as_slice(&self) -> (bytes: &[u8])
        ensures
            bytes@ == self@,
            bytes@.len() <= MAX_HEADER_LEN,
    {
        proof {
            use_type_invariant(self);
        }
        vstd::slice::slice_subrange(&self.bytes, 0, self.len)
    }
}

/// Slices, one after the other.
pub open spec fn concatenated(slices: Seq<Seq<u8>>) -> Seq<u8>
    decreases slices.len(),
{
    if slices.len() == 0 {
        Seq::empty()
    } else {
        concatenated(slices.drop_last()) + slices.last()
    }
}

/// The contents of slices.
pub open spec fn contents(slices: Seq<&[u8]>) -> Seq<Seq<u8>> {
    Seq::new(slices.len(), |i: int| slices[i]@)
}

/// Gathers slices into one, up to a limit.
pub fn gather(slices: &[&[u8]], limit: usize) -> (data: Vec<u8>)
    ensures
        data@ == concatenated(contents(slices@)).take(
            crate::recv::least(concatenated(contents(slices@)).len(), limit as nat) as int,
        ),
{
    let mut data: Vec<u8> = Vec::new();
    let count: usize = slices.len();
    let mut i: usize = 0;
    while i < count
        invariant
            count == slices@.len(),
            i <= count,
            data@.len() <= limit,
            data@ == concatenated(contents(slices@).take(i as int)).take(
                crate::recv::least(
                    concatenated(contents(slices@).take(i as int)).len(),
                    limit as nat,
                ) as int,
            ),
        decreases count - i,
    {
        let ghost head = contents(slices@).take(i as int);
        let ghost next = contents(slices@).take(i + 1);
        assert(next.drop_last() =~= head);
        let slice: &[u8] = slices[i];
        assert(next.last() == slice@);
        let room: usize = limit - data.len();
        let n: usize = if slice.len() <= room {
            slice.len()
        } else {
            room
        };
        let piece: &[u8] = vstd::slice::slice_subrange(slice, 0, n);
        data.extend_from_slice(piece);
        assert(data@ =~= concatenated(next).take(
            crate::recv::least(concatenated(next).len(), limit as nat) as int,
        ));
        i = i + 1;
    }
    assert(contents(slices@).take(count as int) =~= contents(slices@));
    data
}

/// Slices are put one after the other, in their order, and nothing else is.
pub proof fn law_concatenated(slices: Seq<Seq<u8>>, slice: Seq<u8>, more: Seq<Seq<u8>>)
    ensures
        concatenated(Seq::empty()) == Seq::<u8>::empty(),
        concatenated(seq![slice]) == slice,
        concatenated(slices + more) == concatenated(slices) + concatenated(more),
    decreases more.len(),
{
    let one = seq![slice];
    assert(one.drop_last() =~= Seq::<Seq<u8>>::empty());
    assert(concatenated(one.drop_last()) == Seq::<u8>::empty());
    assert(concatenated(one) == concatenated(one.drop_last()) + one.last());
    assert(concatenated(one) =~= slice);
    if more.len() == 0 {
        assert(slices + more =~= slices);
        assert(concatenated(slices) + Seq::<u8>::empty() =~= concatenated(slices));
    } else {
        law_concatenated(slices, slice, more.drop_last());
        assert((slices + more).drop_last() =~= slices + more.drop_last());
        assert(concatenated(slices + more) =~= concatenated(slices) + concatenated(more));
    }
}

} // verus!
