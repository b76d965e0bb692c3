//! Payload masking kernels.
//!
//! Masking XORs the payload with a 4-byte key, repeated. The kernels XOR 8-byte lanes with the key
//! expanded to 8 bytes, grouped into fixed 64-byte blocks, which LLVM turns into plain vector XORs.
//!
//! Both kernels take an `offset`: the position of the first byte within the payload. This lets
//! payloads be (un)masked in pieces, as they arrive.
use vstd::prelude::*;

pub mod keys;
pub mod variants;

pub use keys::MaskKeys;

verus! {

const BLOCK: usize = 64;

const LANE: usize = 8;

/// `data` XORed with the repeated `key`, its first byte being at position `offset` of the payload.
pub open spec fn masked(data: Seq<u8>, key: Seq<u8>, offset: int) -> Seq<u8> {
    Seq::new(data.len(), |i: int| data[i] ^ key[(offset + i) % 4])
}

/// The number that eight bytes form, the first one being the least significant.
pub open spec fn lane_value(b: Seq<u8>) -> u64 {
    (b[0] as u64) | (b[1] as u64) << 8 | (b[2] as u64) << 16 | (b[3] as u64) << 24
        | (b[4] as u64) << 32 | (b[5] as u64) << 40 | (b[6] as u64) << 48 | (b[7] as u64) << 56
}

/// The eight bytes of a number, the least significant one first.
pub open spec fn lane_bytes(v: u64) -> Seq<u8> {
    seq![
        (v & 0xFF) as u8,
        ((v >> 8) & 0xFF) as u8,
        ((v >> 16) & 0xFF) as u8,
        ((v >> 24) & 0xFF) as u8,
        ((v >> 32) & 0xFF) as u8,
        ((v >> 40) & 0xFF) as u8,
        ((v >> 48) & 0xFF) as u8,
        ((v >> 56) & 0xFF) as u8,
    ]
}

/// The key that masks nothing.
pub open spec fn zero_key() -> Seq<u8> {
    Seq::new(4, |i: int| 0u8)
}

/// The key rotated so that its first byte applies to the byte at `offset`.
pub open spec fn rotated(key: Seq<u8>, offset: int) -> Seq<u8> {
    Seq::new(4, |i: int| key[(offset + i) % 4])
}

proof fn lemma_xor_byte(v: u64, k: u64, s: u64, x: u8, y: u8)
    by (bit_vector)
    requires
        s == 0 || s == 8 || s == 16 || s == 24 || s == 32 || s == 40 || s == 48 || s == 56,
        x == (v >> s) & 0xFF,
        y == (k >> s) & 0xFF,
    ensures
        (((v ^ k) >> s) & 0xFF) as u8 == x ^ y,
{
}

proof fn lemma_pack(b0: u8, b1: u8, b2: u8, b3: u8, b4: u8, b5: u8, b6: u8, b7: u8, v: u64)
    by (bit_vector)
    requires
        v == (b0 as u64) | (b1 as u64) << 8 | (b2 as u64) << 16 | (b3 as u64) << 24
            | (b4 as u64) << 32 | (b5 as u64) << 40 | (b6 as u64) << 48 | (b7 as u64) << 56,
    ensures
        b0 == v & 0xFF,
        v >> 0 == v,
        b1 == (v >> 8) & 0xFF,
        b2 == (v >> 16) & 0xFF,
        b3 == (v >> 24) & 0xFF,
        b4 == (v >> 32) & 0xFF,
        b5 == (v >> 40) & 0xFF,
        b6 == (v >> 48) & 0xFF,
        b7 == (v >> 56) & 0xFF,
{
}

/// The bytes of the XOR of two lanes are the XORs of their bytes.
proof fn lemma_xor_lanes(lane: Seq<u8>, key: Seq<u8>)
    requires
        lane.len() == 8,
        key.len() == 8,
    ensures
        lane_bytes(lane_value(lane) ^ lane_value(key)) == Seq::new(8, |i: int| lane[i] ^ key[i]),
{
    let v = lane_value(lane);
    let k = lane_value(key);
    lemma_pack(lane[0], lane[1], lane[2], lane[3], lane[4], lane[5], lane[6], lane[7], v);
    lemma_pack(key[0], key[1], key[2], key[3], key[4], key[5], key[6], key[7], k);
    assert((v ^ k) >> 0 == v ^ k) by (bit_vector);
    lemma_xor_byte(v, k, 0, lane[0], key[0]);
    lemma_xor_byte(v, k, 8, lane[1], key[1]);
    lemma_xor_byte(v, k, 16, lane[2], key[2]);
    lemma_xor_byte(v, k, 24, lane[3], key[3]);
    lemma_xor_byte(v, k, 32, lane[4], key[4]);
    lemma_xor_byte(v, k, 40, lane[5], key[5]);
    lemma_xor_byte(v, k, 48, lane[6], key[6]);
    lemma_xor_byte(v, k, 56, lane[7], key[7]);
    assert(lane_bytes(v ^ k) =~= Seq::new(8, |i: int| lane[i] ^ key[i]));
}

/// Rotates the key so that `key[0]` applies to the byte at `offset`.
pub fn rotate(key: [u8; 4], offset: usize) -> (r: [u8; 4])
    ensures
        r@ == rotated(key@, offset as int),
{
    let r: usize = offset % 4;
    let out: [u8; 4] = [key[r], key[(r + 1) % 4], key[(r + 2) % 4], key[(r + 3) % 4]];
    assert(out@ =~= rotated(key@, offset as int));
    out
}

pub(crate) fn lane(b: [u8; 8]) -> (v: u64)
    ensures
        v == lane_value(b@),
{
    (b[0] as u64) | (b[1] as u64) << 8 | (b[2] as u64) << 16 | (b[3] as u64) << 24 | (b[4] as u64)
        << 32 | (b[5] as u64) << 40 | (b[6] as u64) << 48 | (b[7] as u64) << 56
}

fn lane_key(key: [u8; 4]) -> (v: u64)
    ensures
        v == lane_value(key@ + key@),
{
    let doubled: [u8; 8] = [key[0], key[1], key[2], key[3], key[0], key[1], key[2], key[3]];
    assert(doubled@ =~= key@ + key@);
    lane(doubled)
}

pub(crate) fn to_lane(v: u64) -> (b: [u8; 8])
    ensures
        b@ == lane_bytes(v),
{
    let b: [u8; 8] = [
        (v & 0xFF) as u8,
        ((v >> 8) & 0xFF) as u8,
        ((v >> 16) & 0xFF) as u8,
        ((v >> 24) & 0xFF) as u8,
        ((v >> 32) & 0xFF) as u8,
        ((v >> 40) & 0xFF) as u8,
        ((v >> 48) & 0xFF) as u8,
        ((v >> 56) & 0xFF) as u8,
    ];
    assert(b@ =~= lane_bytes(v));
    b
}

fn xor_lane(b: [u8; 8], key: u64) -> (r: [u8; 8])
    ensures
        r@ == lane_bytes(lane_value(b@) ^ key),
{
    to_lane(lane(b) ^ key)
}

/// XORs the lane of `src` at `at` with `key` into the same place of `dst`.
fn copy_lane(dst: &mut [u8], src: &[u8], at: usize, key: u64, Ghost(k): Ghost<Seq<u8>>)
    requires
        old(dst)@.len() == src@.len(),
        at + LANE <= src@.len(),
        k.len() == 4,
        key == lane_value(k + k),
    ensures
        final(dst)@.len() == old(dst)@.len(),
        forall|j: int|
            0 <= j < src@.len() ==> #[trigger] final(dst)@[j] == if at <= j < at + LANE {
                src@[j] ^ k[(j - at) % 4]
            } else {
                old(dst)@[j]
            },
{
    let b: [u8; 8] = [
        src[at],
        src[at + 1],
        src[at + 2],
        src[at + 3],
        src[at + 4],
        src[at + 5],
        src[at + 6],
        src[at + 7],
    ];
    let r: [u8; 8] = xor_lane(b, key);
    proof {
        lemma_xor_lanes(b@, k + k);
    }
    dst[at] = r[0];
    dst[at + 1] = r[1];
    dst[at + 2] = r[2];
    dst[at + 3] = r[3];
    dst[at + 4] = r[4];
    dst[at + 5] = r[5];
    dst[at + 6] = r[6];
    dst[at + 7] = r[7];
}

/// XORs the lane of `buf` at `at` with `key`.
fn apply_lane(buf: &mut [u8], at: usize, key: u64, Ghost(k): Ghost<Seq<u8>>)
    requires
        at + LANE <= old(buf)@.len(),
        k.len() == 4,
        key == lane_value(k + k),
    ensures
        final(buf)@.len() == old(buf)@.len(),
        forall|j: int|
            0 <= j < old(buf)@.len() ==> #[trigger] final(buf)@[j] == if at <= j < at + LANE {
                old(buf)@[j] ^ k[(j - at) % 4]
            } else {
                old(buf)@[j]
            },
{
    let b: [u8; 8] = [
        buf[at],
        buf[at + 1],
        buf[at + 2],
        buf[at + 3],
        buf[at + 4],
        buf[at + 5],
        buf[at + 6],
        buf[at + 7],
    ];
    let r: [u8; 8] = xor_lane(b, key);
    proof {
        lemma_xor_lanes(b@, k + k);
    }
    buf[at] = r[0];
    buf[at + 1] = r[1];
    buf[at + 2] = r[2];
    buf[at + 3] = r[3];
    buf[at + 4] = r[4];
    buf[at + 5] = r[5];
    buf[at + 6] = r[6];
    buf[at + 7] = r[7];
}

/// Whether the first `n` bytes of `now` are those of `before` masked with `key`, and the others
/// are those of `rest`.
spec fn masked_up_to(now: Seq<u8>, before: Seq<u8>, rest: Seq<u8>, key: Seq<u8>, n: int) -> bool {
    &&& now.len() == before.len() == rest.len()
    &&& 0 <= n <= now.len()
    &&& forall|j: int|
        0 <= j < now.len() ==> #[trigger] now[j] == if j < n {
            before[j] ^ key[j % 4]
        } else {
            rest[j]
        }
}

/// XORs `buf` with an already rotated key, in place.
pub(crate) fn apply_portable(buf: &mut [u8], key: [u8; 4])
    ensures
        final(buf)@ == masked(old(buf)@, key@, 0),
{
    let lane_key: u64 = lane_key(key);
    let n: usize = buf.len();
    let ghost before = buf@;
    let mut i: usize = 0;
    while n - i >= BLOCK
        invariant
            n == buf@.len(),
            i % 8 == 0,
            lane_key == lane_value(key@ + key@),
            masked_up_to(buf@, before, before, key@, i as int),
        decreases n - i,
    {
        let mut j: usize = 0;
        while j < BLOCK
            invariant
                n == buf@.len(),
                n - i >= BLOCK,
                i % 8 == 0,
                j % 8 == 0,
                j <= BLOCK,
                lane_key == lane_value(key@ + key@),
                masked_up_to(buf@, before, before, key@, i + j),
            decreases BLOCK - j,
        {
            apply_lane(buf, i + j, lane_key, Ghost(key@));
            j = j + LANE;
        }
        i = i + BLOCK;
    }
    // Blocks and lanes are multiples of 4 bytes long, the key phase is unchanged.
    while n - i >= LANE
        invariant
            n == buf@.len(),
            i % 8 == 0,
            lane_key == lane_value(key@ + key@),
            masked_up_to(buf@, before, before, key@, i as int),
        decreases n - i,
    {
        apply_lane(buf, i, lane_key, Ghost(key@));
        i = i + LANE;
    }
    while i < n
        invariant
            n == buf@.len(),
            masked_up_to(buf@, before, before, key@, i as int),
        decreases n - i,
    {
        buf[i] = buf[i] ^ key[i % 4];
        i = i + 1;
    }
    assert(buf@ =~= masked(before, key@, 0));
}

/// Writes `src` XORed with an already rotated key to `dst`.
fn copy_portable(dst: &mut [u8], src: &[u8], key: [u8; 4])
    requires
        old(dst)@.len() == src@.len(),
    ensures
        final(dst)@ == masked(src@, key@, 0),
{
    let lane_key: u64 = lane_key(key);
    let n: usize = src.len();
    let ghost rest = dst@;
    let mut i: usize = 0;
    while n - i >= BLOCK
        invariant
            n == src@.len(),
            i % 8 == 0,
            lane_key == lane_value(key@ + key@),
            masked_up_to(dst@, src@, rest, key@, i as int),
        decreases n - i,
    {
        let mut j: usize = 0;
        while j < BLOCK
            invariant
                n == src@.len(),
                n - i >= BLOCK,
                i % 8 == 0,
                j % 8 == 0,
                j <= BLOCK,
                lane_key == lane_value(key@ + key@),
                masked_up_to(dst@, src@, rest, key@, i + j),
            decreases BLOCK - j,
        {
            copy_lane(dst, src, i + j, lane_key, Ghost(key@));
            j = j + LANE;
        }
        i = i + BLOCK;
    }
    // Blocks and lanes are multiples of 4 bytes long, the key phase is unchanged.
    while n - i >= LANE
        invariant
            n == src@.len(),
            i % 8 == 0,
            lane_key == lane_value(key@ + key@),
            masked_up_to(dst@, src@, rest, key@, i as int),
        decreases n - i,
    {
        copy_lane(dst, src, i, lane_key, Ghost(key@));
        i = i + LANE;
    }
    while i < n
        invariant
            n == src@.len(),
            masked_up_to(dst@, src@, rest, key@, i as int),
        decreases n - i,
    {
        dst[i] = src[i] ^ key[i % 4];
        i = i + 1;
    }
    assert(dst@ =~= masked(src@, key@, 0));
}

/// Masking with a rotated key is masking with the key itself further into the payload.
pub proof fn law_rotated_key(data: Seq<u8>, key: Seq<u8>, offset: int)
    requires
        key.len() == 4,
    ensures
        masked(data, rotated(key, offset), 0) == masked(data, key, offset),
{
    assert forall|i: int| 0 <= i < data.len() implies #[trigger] masked(
        data,
        rotated(key, offset),
        0,
    )[i] == masked(data, key, offset)[i] by {
        assert((offset + i % 4) % 4 == (offset + i) % 4);
    }
    assert(masked(data, rotated(key, offset), 0) =~= masked(data, key, offset));
}

/// XORs `buf` with `key` in place, treating `buf[0]` as the byte at position `offset` of the
/// masked payload.
pub fn apply_mask(buf: &mut [u8], key: [u8; 4], offset: usize)
    ensures
        final(buf)@ == masked(old(buf)@, key@, offset as int),
{
    let key_at_offset: [u8; 4] = rotate(key, offset);
    proof {
        law_rotated_key(buf@, key@, offset as int);
    }
    apply_portable(buf, key_at_offset);
}

/// Writes `src` XORed with `key` to `dst`, treating `src[0]` as the byte at position `offset` of
/// the masked payload.
///
/// Overwrites exactly `src.len()` bytes at the start of `dst`, which must not be shorter than
/// `src`.
pub fn copy_masked(dst: &mut [u8], src: &[u8], key: [u8; 4], offset: usize)
    requires
        src@.len() <= old(dst)@.len(),
    ensures
        final(dst)@ == masked(src@, key@, offset as int) + old(dst)@.skip(src@.len() as int),
{
    let key_at_offset: [u8; 4] = rotate(key, offset);
    proof {
        law_rotated_key(src@, key@, offset as int);
    }
    let (head, _) = dst.split_at_mut(src.len());
    copy_portable(head, src, key_at_offset);
}

/// Masking twice with the same key gives the payload back.
pub proof fn law_mask_involution(data: Seq<u8>, key: Seq<u8>, offset: int)
    ensures
        masked(masked(data, key, offset), key, offset) == data,
{
    assert forall|i: int| 0 <= i < data.len() implies #[trigger] masked(
        masked(data, key, offset),
        key,
        offset,
    )[i] == data[i] by {
        let x = data[i];
        let y = key[(offset + i) % 4];
        assert((x ^ y) ^ y == x) by (bit_vector);
    }
    assert(masked(masked(data, key, offset), key, offset) =~= data);
}

/// Masking a payload in two pieces gives the same as masking it whole.
pub proof fn law_mask_piecewise(head: Seq<u8>, tail: Seq<u8>, key: Seq<u8>, offset: int)
    ensures
        masked(head + tail, key, offset) == masked(head, key, offset) + masked(
            tail,
            key,
            offset + head.len(),
        ),
{
    assert(masked(head + tail, key, offset) =~= masked(head, key, offset) + masked(
        tail,
        key,
        offset + head.len(),
    ));
}

/// Only the offset modulo 4 matters.
pub proof fn law_mask_phase(data: Seq<u8>, key: Seq<u8>, offset: int)
    ensures
        masked(data, key, offset % 4) == masked(data, key, offset),
{
    assert forall|i: int| 0 <= i < data.len() implies #[trigger] masked(data, key, offset % 4)[i]
        == masked(data, key, offset)[i] by {
        assert((offset % 4 + i) % 4 == (offset + i) % 4);
    }
    assert(masked(data, key, offset % 4) =~= masked(data, key, offset));
}

/// An all-zero key leaves the payload unchanged.
pub proof fn law_zero_key(data: Seq<u8>, offset: int)
    ensures
        masked(data, zero_key(), offset) == data,
{
    assert forall|i: int| 0 <= i < data.len() implies #[trigger] masked(
        data,
        zero_key(),
        offset,
    )[i] == data[i] by {
        let x = data[i];
        assert(x ^ 0 == x) by (bit_vector);
    }
    assert(masked(data, zero_key(), offset) =~= data);
}

/// Each byte of a payload is XORed with the byte of the key whose turn it is: the first with the
/// first, and the fifth with the first again. A payload that is taken up at `offset` goes on where
/// it stood.
pub proof fn law_mask_bytes(data: Seq<u8>, key: Seq<u8>, offset: int, i: int)
    requires
        key.len() == 4,
        0 <= offset,
        0 <= i < data.len(),
    ensures
        masked(data, key, offset).len() == data.len(),
        masked(data, key, 0)[i] == data[i] ^ key[i % 4],
        offset <= i ==> masked(data.skip(offset), key, offset)[i - offset] == masked(
            data,
            key,
            0,
        )[i],
{
}

} // verus!
