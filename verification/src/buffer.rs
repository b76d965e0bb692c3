//! The byte buffers of the `bytes` crate, by their contents.
use bytes::{Buf, Bytes, BytesMut};
use vstd::prelude::*;

verus! {

/// Most bytes that a buffer is asked to hold. Beyond `isize::MAX` no allocation succeeds, and the
/// buffers double their capacity as they grow.
pub const MAX_BUFFER: usize = usize::MAX / 4;

/// `bytes::Bytes`, an immutable byte string whose clones share its memory.
#[verifier::external_type_specification]
#[verifier::external_body]
pub struct ExBytes(Bytes);

/// `bytes::BytesMut`, a byte buffer that grows at its end and is consumed from its front.
#[verifier::external_type_specification]
#[verifier::external_body]
pub struct ExBytesMut(BytesMut);

/// The bytes that a [`Bytes`] holds.
pub uninterp spec fn bytes_of(b: Bytes) -> Seq<u8>;

/// The bytes that a [`BytesMut`] holds.
pub uninterp spec fn contents_of(b: BytesMut) -> Seq<u8>;

/// `BytesMut::new` makes an empty buffer without allocating. Its capacity, which the crate leaves
/// unspecified, is not claimed.
pub assume_specification[ BytesMut::new ]() -> (b: BytesMut)
    ensures
        contents_of(b) == Seq::<u8>::empty(),
;

/// `BytesMut::len` counts the bytes. They lie in one allocation, which Rust limits to `isize::MAX`
/// bytes.
pub assume_specification[ BytesMut::len ](b: &BytesMut) -> (n: usize)
    ensures
        n == contents_of(*b).len(),
        n <= isize::MAX,
;

/// `BytesMut::is_empty` tells whether there are no bytes.
pub assume_specification[ BytesMut::is_empty ](b: &BytesMut) -> (r: bool)
    ensures
        r == (contents_of(*b).len() == 0),
;

/// `BytesMut::reserve` makes room for more bytes and leaves the contents as they are. It panics if
/// the capacity overflows.
pub assume_specification[ BytesMut::reserve ](b: &mut BytesMut, additional: usize)
    requires
        contents_of(*old(b)).len() + additional <= MAX_BUFFER,
    ensures
        contents_of(*final(b)) == contents_of(*old(b)),
;

/// `BytesMut::extend_from_slice` appends the bytes of a slice. It panics if the capacity
/// overflows.
pub assume_specification[ BytesMut::extend_from_slice ](b: &mut BytesMut, extend: &[u8])
    requires
        contents_of(*old(b)).len() + extend@.len() <= MAX_BUFFER,
    ensures
        contents_of(*final(b)) == contents_of(*old(b)) + extend@,
;

/// `BytesMut::resize` cuts the contents at the new length, or fills up to it with a byte. It
/// panics if the capacity overflows.
pub assume_specification[ BytesMut::resize ](b: &mut BytesMut, new_len: usize, value: u8)
    requires
        new_len <= MAX_BUFFER,
    ensures
        contents_of(*final(b)) == if new_len <= contents_of(*old(b)).len() {
            contents_of(*old(b)).take(new_len as int)
        } else {
            contents_of(*old(b)) + Seq::new(
                (new_len - contents_of(*old(b)).len()) as nat,
                |i: int| value,
            )
        },
;

/// `BytesMut::clear` removes all bytes.
pub assume_specification[ BytesMut::clear ](b: &mut BytesMut)
    ensures
        contents_of(*final(b)) == Seq::<u8>::empty(),
;

/// `BytesMut::split_to` moves the first `at` bytes to a buffer of their own. It panics if there
/// are not that many.
pub assume_specification[ BytesMut::split_to ](b: &mut BytesMut, at: usize) -> (front: BytesMut)
    requires
        at <= contents_of(*old(b)).len(),
    ensures
        contents_of(front) == contents_of(*old(b)).take(at as int),
        contents_of(*final(b)) == contents_of(*old(b)).skip(at as int),
;

/// `BytesMut::freeze` makes the buffer immutable.
pub assume_specification[ BytesMut::freeze ](b: BytesMut) -> (r: Bytes)
    ensures
        bytes_of(r) == contents_of(b),
;

/// `Buf::advance` of a `BytesMut` removes the first `cnt` bytes. It panics if there are not that
/// many.
pub assume_specification[ <BytesMut as Buf>::advance ](b: &mut BytesMut, cnt: usize)
    requires
        cnt <= contents_of(*old(b)).len(),
    ensures
        contents_of(*final(b)) == contents_of(*old(b)).skip(cnt as int),
;

/// A `BytesMut` dereferences to its contents.
pub assume_specification[ <BytesMut as core::ops::Deref>::deref ](b: &BytesMut) -> (s: &[u8])
    ensures
        s@ == contents_of(*b),
;

/// A `BytesMut` dereferences to its contents, which can be changed in place.
pub assume_specification[ <BytesMut as core::ops::DerefMut>::deref_mut ](
    b: &mut BytesMut,
) -> (s: &mut [u8])
    ensures
        s@ == contents_of(*old(b)),
        contents_of(*final(b)) == final(s)@,
;

/// `Bytes::new` makes an empty byte string.
pub assume_specification[ Bytes::new ]() -> (b: Bytes)
    ensures
        bytes_of(b) == Seq::<u8>::empty(),
;

/// `Bytes::len` counts the bytes.
pub assume_specification[ Bytes::len ](b: &Bytes) -> (n: usize)
    ensures
        n == bytes_of(*b).len(),
;

/// `Bytes::from_static` refers to the bytes of a static slice.
pub assume_specification[ Bytes::from_static ](bytes: &'static [u8]) -> (b: Bytes)
    ensures
        bytes_of(b) == bytes@,
;

/// `Bytes::from` takes the UTF-8 bytes of a string over.
pub assume_specification[ <Bytes as From<String>>::from ](s: String) -> (b: Bytes)
    ensures
        bytes_of(b) == vstd::utf8::encode_utf8(s@),
;

/// A clone of a `Bytes` holds the same bytes.
pub assume_specification[ <Bytes as Clone>::clone ](b: &Bytes) -> (r: Bytes)
    ensures
        bytes_of(r) == bytes_of(*b),
;

/// A `Bytes` dereferences to the bytes it holds.
pub assume_specification[ <Bytes as core::ops::Deref>::deref ](b: &Bytes) -> (s: &[u8])
    ensures
        s@ == bytes_of(*b),
;

/// `Bytes::slice` with an open-ended range gives the bytes from `from` on. It panics if there are
/// not that many.
#[verifier::external_body]
pub(crate) fn slice_from(b: &Bytes, from: usize) -> (r: Bytes)
    requires
        from <= bytes_of(*b).len(),
    ensures
        bytes_of(r) == bytes_of(*b).skip(from as int),
{
    b.slice(from..)
}

/// `slice::copy_from_slice` overwrites a slice with another one. It panics if their lengths
/// differ.
pub assume_specification<T>[ <[T]>::copy_from_slice ](dst: &mut [T], src: &[T])
    where
        T: Copy,
    requires
        old(dst)@.len() == src@.len(),
    ensures
        final(dst)@ == src@,
;

/// Appends `src` XORed with `key` to `buf`, treating `src[0]` as the byte at position `offset` of
/// the masked payload.
pub(crate) fn append_masked(buf: &mut BytesMut, src: &[u8], key: [u8; 4], offset: usize)
    requires
        contents_of(*old(buf)).len() + src@.len() <= MAX_BUFFER,
    ensures
        contents_of(*final(buf)) == contents_of(*old(buf)) + crate::mask::masked(
            src@,
            key@,
            offset as int,
        ),
{
    let len: usize = buf.len();
    buf.resize(len + src.len(), 0);
    let whole: &mut [u8] = buf;
    let (_, tail) = whole.split_at_mut(len);
    crate::mask::copy_masked(tail, src, key, offset);
    assert(contents_of(*buf) =~= contents_of(*old(buf)) + crate::mask::masked(
        src@,
        key@,
        offset as int,
    ));
}

} // verus!
