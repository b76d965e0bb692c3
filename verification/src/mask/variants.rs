//! Individual kernel variants, exposed for benchmarks. Not part of the public API.
use crate::mask::apply_portable;
use vstd::prelude::*;

verus! {

/// Kernel compiled for the baseline target features, taking an already rotated key.
pub fn apply_mask_portable(buf: &mut [u8], key: [u8; 4])
    ensures
        final(buf)@ == crate::mask::masked(old(buf)@, key@, 0),
{
    apply_portable(buf, key)
}

/// Byte-at-a-time reference implementation.
pub fn apply_mask_naive(buf: &mut [u8], key: [u8; 4], offset: usize)
    ensures
        final(buf)@ == crate::mask::masked(old(buf)@, key@, offset as int),
{
    let n: usize = buf.len();
    let mut i: usize = 0;
    while i < n
        invariant
            n == buf@.len() == old(buf)@.len(),
            i <= n,
            forall|j: int|
                0 <= j < n ==> #[trigger] buf@[j] == if j < i {
                    old(buf)@[j] ^ key@[(offset + j) % 4]
                } else {
                    old(buf)@[j]
                },
        decreases n - i,
    {
        assert((offset % 4 + i % 4) % 4 == (offset + i) % 4);
        buf[i] = buf[i] ^ key[(offset % 4 + i % 4) % 4];
        i = i + 1;
    }
    assert(buf@ =~= crate::mask::masked(old(buf)@, key@, offset as int));
}

} // verus!
