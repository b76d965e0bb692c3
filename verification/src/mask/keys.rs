//! Source of client masking keys.
use crate::mask::{lane, to_lane};
use vstd::prelude::*;

verus! {

/// Size of the pool that keys are drawn from, 1024 keys.
pub const POOL: usize = 4096;

/// What `getrandom` reports when it has no entropy to give.
#[verifier::external_type_specification]
#[verifier::external_body]
pub struct ExEntropyError(getrandom::Error);

/// `getrandom::fill` overwrites the slice with bytes of the OS entropy source, or fails and leaves
/// the contents unspecified. Either way only the length is known afterwards: the bytes are random.
pub assume_specification[ getrandom::fill ](dest: &mut [u8]) -> (r: Result<(), getrandom::Error>)
    ensures
        final(dest)@.len() == old(dest)@.len(),
;

/// The time since the Unix epoch, by `SystemTime::elapsed`, which fails if the clock stands before
/// the epoch. Nothing is claimed of what the clock shows.
#[verifier::external_body]
fn since_epoch() -> (elapsed: Option<std::time::Duration>)
{
    std::time::SystemTime::UNIX_EPOCH.elapsed().ok()
}

/// `Duration::as_nanos` counts the nanoseconds. Nothing is claimed of their number, as nothing is
/// known of the durations.
pub assume_specification[ std::time::Duration::as_nanos ](elapsed: &std::time::Duration) -> (nanos:
    u128)
;

/// The bytes of a number, by `u64::to_ne_bytes`, in the order in which the machine stores them: the
/// least significant one comes first or last. Which of the two is left to the machine.
#[verifier::external_body]
fn stored(v: u64) -> (b: [u8; 8])
    ensures
        b@ == crate::mask::lane_bytes(v) || b@ == crate::mask::lane_bytes(v).reverse(),
{
    v.to_ne_bytes()
}

/// The order in which a machine stores the bytes of a number.
#[derive(Clone, Copy, Debug, PartialEq, Eq, Structural)]
pub enum ByteOrder {
    /// The least significant byte comes first.
    Little,
    /// The most significant byte comes first.
    Big,
}

impl ByteOrder {
    /// The number that eight bytes stand for.
    pub open spec fn number(self, bytes: Seq<u8>) -> u64 {
        match self {
            ByteOrder::Little => crate::mask::lane_value(bytes),
            ByteOrder::Big => crate::mask::lane_value(bytes.reverse()),
        }
    }

    /// The eight bytes of a number.
    pub open spec fn bytes(self, v: u64) -> Seq<u8> {
        match self {
            ByteOrder::Little => crate::mask::lane_bytes(v),
            ByteOrder::Big => crate::mask::lane_bytes(v).reverse(),
        }
    }

    /// The order of a machine that stores the number 1 as `one`.
    pub fn that_stores(one: [u8; 8]) -> (order: ByteOrder)
        requires
            one@ == crate::mask::lane_bytes(1) || one@ == crate::mask::lane_bytes(1).reverse(),
        ensures
            one@ == order.bytes(1),
    {
        proof {
            assert(1u64 & 0xFF == 1 && (1u64 >> 56) & 0xFF == 0) by (bit_vector);
        }
        if one[0] == 1 {
            ByteOrder::Little
        } else {
            ByteOrder::Big
        }
    }

    /// Reads a number.
    fn read(self, b: [u8; 8]) -> (v: u64)
        ensures
            v == self.number(b@),
    {
        match self {
            ByteOrder::Little => lane(b),
            ByteOrder::Big => lane(reversed(b)),
        }
    }

    /// Writes a number.
    fn write(self, v: u64) -> (b: [u8; 8])
        ensures
            b@ == self.bytes(v),
    {
        match self {
            ByteOrder::Little => to_lane(v),
            ByteOrder::Big => reversed(to_lane(v)),
        }
    }
}

/// Eight bytes, the other way round.
fn reversed(b: [u8; 8]) -> (r: [u8; 8])
    ensures
        r@ == b@.reverse(),
{
    let r: [u8; 8] = [b[7], b[6], b[5], b[4], b[3], b[2], b[1], b[0]];
    assert(r@ =~= b@.reverse());
    r
}

/// The `n`-th state of a SplitMix64 generator.
pub open spec fn splitmix_state(seed: u64, n: nat) -> u64
    decreases n,
{
    if n == 0 {
        seed
    } else {
        splitmix_state(seed, (n - 1) as nat).wrapping_add(0x9E37_79B9_7F4A_7C15)
    }
}

/// The number that a SplitMix64 generator gives in some state.
pub open spec fn splitmix_output(state: u64) -> u64 {
    let a = (state ^ (state >> 30)).wrapping_mul(0xBF58_476D_1CE4_E5B9);
    let b = (a ^ (a >> 27)).wrapping_mul(0x94D0_49BB_1331_11EB);
    b ^ (b >> 31)
}

/// The pool that a SplitMix64 generator fills, number by number.
pub open spec fn splitmix_pool(seed: u64, order: ByteOrder) -> Seq<u8> {
    Seq::new(
        POOL as nat,
        |i: int| order.bytes(splitmix_output(splitmix_state(seed, (i / 8 + 1) as nat)))[i % 8],
    )
}

/// The pool that replaces `pool` when the OS has no entropy to give, in which case the time and the
/// previous keys have to do.
pub open spec fn fallback_pool(pool: Seq<u8>, nanos: u64, order: ByteOrder) -> Seq<u8> {
    splitmix_pool(nanos ^ order.number(pool.take(8)), order)
}

/// Source of client masking keys.
///
/// Keys are drawn from the OS entropy source in batches, one syscall serves 1024 frames.
pub struct MaskKeys {
    buf: [u8; POOL],
    pos: usize,
}

impl MaskKeys {
    /// The bytes drawn from the OS last.
    pub closed spec fn pool(self) -> Seq<u8> {
        self.buf@
    }

    /// How many bytes of the pool have been handed out.
    pub closed spec fn spent(self) -> int {
        self.pos as int
    }

    /// Whole keys have been handed out, as many as the pool holds at most.
    pub open spec fn wf(self) -> bool {
        &&& self.pool().len() == POOL
        &&& 0 <= self.spent() <= POOL
        &&& self.spent() % 4 == 0
    }

    /// Creates a source that draws its first pool when the first key is asked for.
    pub fn new() -> (keys: MaskKeys)
        ensures
            keys.wf(),
            keys.spent() == POOL,
            keys.pool() == Seq::new(POOL as nat, |i: int| 0u8),
    {
        let keys: MaskKeys = MaskKeys { buf: [0u8; POOL], pos: POOL };
        assert(keys.buf@ =~= Seq::new(POOL as nat, |i: int| 0u8));
        keys
    }

    /// Hands out the next key: the next four bytes of the pool, which is drawn anew once it is
    /// spent.
    pub fn next(&mut self) -> (key: [u8; 4])
        requires
            old(self).wf(),
        ensures
            final(self).wf(),
            old(self).spent() < POOL ==> final(self).pool() == old(self).pool()
                && final(self).spent() == old(self).spent() + 4,
            old(self).spent() == POOL ==> final(self).spent() == 4,
            key@ == final(self).pool().subrange(final(self).spent() - 4, final(self).spent()),
    {
        if self.pos == POOL {
            self.refill();
        }
        let at: usize = self.pos;
        let key: [u8; 4] = [
            self.buf[at],
            self.buf[at + 1],
            self.buf[at + 2],
            self.buf[at + 3],
        ];
        self.pos = at + 4;
        assert(key@ =~= self.buf@.subrange(at as int, at + 4));
        key
    }

    /// Draws a new pool.
    fn refill(&mut self)
        requires
            old(self).wf(),
        ensures
            final(self).wf(),
            final(self).spent() == 0,
    {
        let mut drawn: [u8; POOL] = [0u8; POOL];
        let filled: Result<(), getrandom::Error> = getrandom::fill(&mut drawn);
        let nanos: u64 = match since_epoch() {
            Some(elapsed) => (elapsed.as_nanos() % 0x1_0000_0000_0000_0000) as u64,
            None => 0,
        };
        let order: ByteOrder = ByteOrder::that_stores(stored(1));
        self.refill_with(filled, drawn, nanos, order);
    }

    /// Replaces the pool by what the OS entropy source delivered.
    ///
    /// If it is unavailable, which should never happen, falls back to a SplitMix64 stream, seeded
    /// from the time and the previous keys.
    pub fn refill_with(
        &mut self,
        filled: Result<(), getrandom::Error>,
        drawn: [u8; POOL],
        nanos: u64,
        order: ByteOrder,
    )
        requires
            old(self).wf(),
        ensures
            final(self).wf(),
            final(self).spent() == 0,
            final(self).pool() == match filled {
                Ok(_) => drawn@,
                Err(_) => fallback_pool(old(self).pool(), nanos, order),
            },
    {
        match filled {
            Ok(()) => {
                self.buf = drawn;
                self.pos = 0;
            },
            Err(_) => self.refill_from_clock(nanos, order),
        }
    }

    /// Fills the pool with a SplitMix64 stream, seeded from the time and the previous keys.
    fn refill_from_clock(&mut self, nanos: u64, order: ByteOrder)
        requires
            old(self).wf(),
        ensures
            final(self).wf(),
            final(self).spent() == 0,
            final(self).pool() == fallback_pool(old(self).pool(), nanos, order),
    {
        let first: [u8; 8] = [
            self.buf[0],
            self.buf[1],
            self.buf[2],
            self.buf[3],
            self.buf[4],
            self.buf[5],
            self.buf[6],
            self.buf[7],
        ];
        assert(first@ =~= self.buf@.take(8));
        let seed: u64 = nanos ^ order.read(first);
        let ghost expected = splitmix_pool(seed, order);
        let mut state: u64 = seed;
        let mut i: usize = 0;
        while i < POOL
            invariant
                i <= POOL,
                i % 8 == 0,
                self.buf@.len() == POOL,
                expected == splitmix_pool(seed, order),
                state == splitmix_state(seed, (i / 8) as nat),
                forall|j: int| 0 <= j < i ==> #[trigger] self.buf@[j] == expected[j],
            decreases POOL - i,
        {
            state = state.wrapping_add(0x9E37_79B9_7F4A_7C15);
            let a: u64 = (state ^ (state >> 30)).wrapping_mul(0xBF58_476D_1CE4_E5B9);
            let b: u64 = (a ^ (a >> 27)).wrapping_mul(0x94D0_49BB_1331_11EB);
            let bytes: [u8; 8] = order.write(b ^ (b >> 31));
            let ghost before = self.buf@;
            assert(state == splitmix_state(seed, (i / 8 + 1) as nat));
            self.buf[i] = bytes[0];
            self.buf[i + 1] = bytes[1];
            self.buf[i + 2] = bytes[2];
            self.buf[i + 3] = bytes[3];
            self.buf[i + 4] = bytes[4];
            self.buf[i + 5] = bytes[5];
            self.buf[i + 6] = bytes[6];
            self.buf[i + 7] = bytes[7];
            assert forall|j: int| 0 <= j < i + 8 implies #[trigger] self.buf@[j] == expected[j] by {
                if j < i {
                    assert(self.buf@[j] == before[j]);
                } else {
                    assert(j / 8 == i / 8);
                    assert(self.buf@[j] == bytes@[j - i]);
                }
            }
            i = i + 8;
        }
        assert(self.buf@ =~= expected);
        self.pos = 0;
    }
}

proof fn lemma_unpack(v: u64, b0: u8, b1: u8, b2: u8, b3: u8, b4: u8, b5: u8, b6: u8, b7: u8)
    by (bit_vector)
    requires
        b0 == (v & 0xFF) as u8,
        b1 == ((v >> 8) & 0xFF) as u8,
        b2 == ((v >> 16) & 0xFF) as u8,
        b3 == ((v >> 24) & 0xFF) as u8,
        b4 == ((v >> 32) & 0xFF) as u8,
        b5 == ((v >> 40) & 0xFF) as u8,
        b6 == ((v >> 48) & 0xFF) as u8,
        b7 == ((v >> 56) & 0xFF) as u8,
    ensures
        v == (b0 as u64) | (b1 as u64) << 8 | (b2 as u64) << 16 | (b3 as u64) << 24 | (b4 as u64)
            << 32 | (b5 as u64) << 40 | (b6 as u64) << 48 | (b7 as u64) << 56,
{
}

/// A number is read from its bytes as it was written, in either order.
pub proof fn law_number_roundtrip(order: ByteOrder, v: u64)
    ensures
        order.bytes(v).len() == 8,
        order.number(order.bytes(v)) == v,
{
    let low = crate::mask::lane_bytes(v);
    assert(low.reverse().reverse() =~= low);
    lemma_unpack(v, low[0], low[1], low[2], low[3], low[4], low[5], low[6], low[7]);
}

/// A pool that the OS does not fill is a stream of numbers, each of which follows from the seed and
/// its place alone: the states that they are made of are the same distance apart.
pub proof fn law_clock_pool(seed: u64, order: ByteOrder, i: int)
    requires
        0 <= i < 512,
    ensures
        splitmix_pool(seed, order).len() == 4096,
        order.number(splitmix_pool(seed, order).subrange(8 * i, 8 * i + 8)) == splitmix_output(
            ((seed + (i + 1) * 0x9E37_79B9_7F4A_7C15) % 0x1_0000_0000_0000_0000) as u64,
        ),
{
    let state = splitmix_state(seed, (i + 1) as nat);
    let number = splitmix_output(state);
    law_number_roundtrip(order, number);
    assert(splitmix_pool(seed, order).subrange(8 * i, 8 * i + 8) =~= order.bytes(number));
    lemma_splitmix_state(seed, (i + 1) as nat);
}

proof fn lemma_splitmix_state(seed: u64, n: nat)
    ensures
        splitmix_state(seed, n) == (seed + n * 0x9E37_79B9_7F4A_7C15)
            % 0x1_0000_0000_0000_0000,
    decreases n,
{
    if n > 0 {
        lemma_splitmix_state(seed, (n - 1) as nat);
    }
}

/// The time and the previous keys are mixed: either of them changes the pool, and they cancel each
/// other out if they are the same.
pub proof fn law_clock_seed(pool: Seq<u8>, nanos: u64, order: ByteOrder)
    ensures
        order.number(pool.take(8)) == 0 ==> fallback_pool(pool, nanos, order) == splitmix_pool(
            nanos,
            order,
        ),
        nanos == 0 ==> fallback_pool(pool, nanos, order) == splitmix_pool(
            order.number(pool.take(8)),
            order,
        ),
        nanos == order.number(pool.take(8)) ==> fallback_pool(pool, nanos, order)
            == splitmix_pool(0, order),
{
    let keys = order.number(pool.take(8));
    assert(nanos ^ 0 == nanos) by (bit_vector);
    assert(0u64 ^ keys == keys) by (bit_vector);
    assert(nanos ^ nanos == 0) by (bit_vector);
}

} // verus!
