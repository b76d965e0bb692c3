//! Text in shared buffers.
use bytes::Bytes;
use vstd::prelude::*;

pub mod scan;

verus! {

/// What `std::str::from_utf8` reports of bytes that are not valid UTF-8.
#[verifier::external_type_specification]
#[verifier::external_body]
pub struct ExUtf8Error(std::str::Utf8Error);

/// `std::str::from_utf8` gives the text that the bytes encode, and fails exactly if they are not
/// valid UTF-8.
pub assume_specification[ std::str::from_utf8 ](v: &[u8]) -> (r: Result<&str, std::str::Utf8Error>)
    ensures
        r is Ok <==> vstd::utf8::valid_utf8(v@),
        r matches Ok(text) ==> vstd::utf8::encode_utf8(text@) == v@,
;

/// [`Bytes`] that are guaranteed to be valid UTF-8.
///
/// Used for text messages and close reasons, so that they can be handed out without copying.
#[derive(Debug, PartialEq, Eq, PartialOrd, Ord, Hash)]
pub struct Utf8Bytes(Bytes);

impl View for Utf8Bytes {
    type V = Seq<u8>;

    closed spec fn view(&self) -> Seq<u8> {
        crate::buffer::bytes_of(self.0)
    }
}

impl Utf8Bytes {
    #[verifier::type_invariant]
    spec fn valid(self) -> bool {
        vstd::utf8::valid_utf8(crate::buffer::bytes_of(self.0))
    }

    /// Creates a value from a static string without copying.
    pub fn from_static(text: &'static str) -> (r: Utf8Bytes)
        ensures
            r@ == vstd::utf8::encode_utf8(text@),
    {
        proof {
            vstd::utf8::encode_utf8_valid_utf8(text@);
        }
        Utf8Bytes(Bytes::from_static(text.as_bytes()))
    }

    /// Returns the text.
    pub fn as_str(&self) -> (text: &str)
        ensures
            vstd::utf8::encode_utf8(text@) == self@,
    {
        proof {
            use_type_invariant(self);
        }
        match std::str::from_utf8(&self.0) {
            Ok(text) => text,
            Err(_) => "",
        }
    }

    /// Returns the underlying bytes.
    pub fn into_bytes(self) -> (bytes: Bytes)
        ensures
            crate::buffer::bytes_of(bytes) == self@,
            vstd::utf8::valid_utf8(crate::buffer::bytes_of(bytes)),
    {
        proof {
            use_type_invariant(&self);
        }
        self.0
    }

    /// Wraps bytes that have been validated.
    pub(crate) fn from_validated(bytes: Bytes) -> (r: Utf8Bytes)
        requires
            vstd::utf8::valid_utf8(crate::buffer::bytes_of(bytes)),
        ensures
            r@ == crate::buffer::bytes_of(bytes),
    {
        Utf8Bytes(bytes)
    }

    /// Length of the text in bytes.
    pub fn len(&self) -> (n: usize)
        ensures
            n == self@.len(),
    {
        self.0.len()
    }
}

impl Clone for Utf8Bytes {
    fn clone(&self) -> (r: Utf8Bytes)
        ensures
            r@ == self@,
    {
        proof {
            use_type_invariant(self);
        }
        Utf8Bytes(self.0.clone())
    }
}

impl Default for Utf8Bytes {
    /// The empty text.
    fn default() -> (r: Utf8Bytes)
        ensures
            r@ == Seq::<u8>::empty(),
    {
        Utf8Bytes(Bytes::new())
    }
}

impl core::ops::Deref for Utf8Bytes {
    type Target = str;

    fn deref(&self) -> (text: &str)
        ensures
            vstd::utf8::encode_utf8(text@) == self@,
    {
        self.as_str()
    }
}

impl vstd::std_specs::convert::TryFromSpecImpl<Bytes> for Utf8Bytes {
    open spec fn obeys_try_from_spec() -> bool {
        false
    }

    open spec fn try_from_spec(v: Bytes) -> Result<Utf8Bytes, std::str::Utf8Error> {
        arbitrary()
    }
}

impl TryFrom<Bytes> for Utf8Bytes {
    type Error = std::str::Utf8Error;

    fn try_from(bytes: Bytes) -> (r: Result<Utf8Bytes, std::str::Utf8Error>)
        ensures
            r is Ok <==> vstd::utf8::valid_utf8(crate::buffer::bytes_of(bytes)),
            r matches Ok(text) ==> text@ == crate::buffer::bytes_of(bytes),
    {
        match std::str::from_utf8(&bytes) {
            Ok(_) => Ok(Utf8Bytes(bytes)),
            Err(error) => Err(error),
        }
    }
}

impl vstd::std_specs::convert::FromSpecImpl<String> for Utf8Bytes {
    open spec fn obeys_from_spec() -> bool {
        false
    }

    open spec fn from_spec(v: String) -> Utf8Bytes {
        arbitrary()
    }
}

impl From<String> for Utf8Bytes {
    fn from(text: String) -> (r: Utf8Bytes)
        ensures
            r@ == vstd::utf8::encode_utf8(text@),
    {
        proof {
            vstd::utf8::encode_utf8_valid_utf8(text@);
        }
        Utf8Bytes(Bytes::from(text))
    }
}

impl vstd::std_specs::convert::FromSpecImpl<&'static str> for Utf8Bytes {
    open spec fn obeys_from_spec() -> bool {
        false
    }

    open spec fn from_spec(v: &'static str) -> Utf8Bytes {
        arbitrary()
    }
}

impl From<&'static str> for Utf8Bytes {
    fn from(text: &'static str) -> (r: Utf8Bytes)
        ensures
            r@ == vstd::utf8::encode_utf8(text@),
    {
        Utf8Bytes::from_static(text)
    }
}

impl vstd::std_specs::convert::FromSpecImpl<Utf8Bytes> for Bytes {
    open spec fn obeys_from_spec() -> bool {
        false
    }

    open spec fn from_spec(v: Utf8Bytes) -> Bytes {
        arbitrary()
    }
}

impl From<Utf8Bytes> for Bytes {
    fn from(text: Utf8Bytes) -> (r: Bytes)
        ensures
            crate::buffer::bytes_of(r) == text@,
    {
        text.into_bytes()
    }
}

impl AsRef<str> for Utf8Bytes {
    fn as_ref(&self) -> (text: &str)
        ensures
            vstd::utf8::encode_utf8(<str as View>::view(text)) == self@,
    {
        self.as_str()
    }
}

impl AsRef<[u8]> for Utf8Bytes {
    fn as_ref(&self) -> (bytes: &[u8])
        ensures
            <[u8] as View>::view(bytes) == self@,
    {
        &self.0
    }
}

impl vstd::std_specs::cmp::PartialEqSpecImpl<str> for Utf8Bytes {
    open spec fn obeys_eq_spec() -> bool {
        true
    }

    open spec fn eq_spec(&self, other: &str) -> bool {
        self@ == vstd::utf8::encode_utf8(other@)
    }
}

impl PartialEq<str> for Utf8Bytes {
    fn eq(&self, other: &str) -> (r: bool) {
        same_bytes(&self.0, other.as_bytes())
    }
}

impl vstd::std_specs::cmp::PartialEqSpecImpl<&str> for Utf8Bytes {
    open spec fn obeys_eq_spec() -> bool {
        true
    }

    open spec fn eq_spec(&self, other: &&str) -> bool {
        self@ == vstd::utf8::encode_utf8(other@)
    }
}

impl PartialEq<&str> for Utf8Bytes {
    fn eq(&self, other: &&str) -> (r: bool) {
        same_bytes(&self.0, other.as_bytes())
    }
}

/// Whether two slices hold the same bytes.
fn same_bytes(a: &[u8], b: &[u8]) -> (r: bool)
    ensures
        r == (a@ == b@),
{
    if a.len() != b.len() {
        return false;
    }
    let n: usize = a.len();
    let mut i: usize = 0;
    while i < n
        invariant
            n == a@.len() == b@.len(),
            i <= n,
            a@.take(i as int) == b@.take(i as int),
        decreases n - i,
    {
        if a[i] != b[i] {
            return false;
        }
        assert(a@.take(i + 1) =~= a@.take(i as int).push(a@[i as int]));
        assert(b@.take(i + 1) =~= b@.take(i as int).push(b@[i as int]));
        i = i + 1;
    }
    assert(a@.take(i as int) =~= a@);
    assert(b@.take(i as int) =~= b@);
    true
}

} // verus!
