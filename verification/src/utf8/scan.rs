//! Validation of text that arrives in pieces.
use vstd::prelude::*;

verus! {

/// Whether `bytes` are the start of some valid text: nothing in them is wrong yet.
pub open spec fn extendable(bytes: Seq<u8>) -> bool {
    exists|rest: Seq<u8>| vstd::utf8::valid_utf8(#[trigger] (bytes + rest))
}

/// What is known of the start of a text.
#[derive(Clone, Copy, Debug, PartialEq, Eq, Structural)]
pub enum Scan {
    /// It is valid text.
    Valid,
    /// It is valid text up to this position, where a code point starts whose end is missing.
    Cut(usize),
    /// No continuation makes it valid text.
    Invalid,
}

/// What the bytes at some position start with.
enum Front {
    /// A code point of this many bytes.
    Scalar(usize),
    /// A code point whose end is missing.
    Cut,
    /// Neither.
    Invalid,
}

/// Which second bytes may follow a leading byte of a code point of two or more bytes.
spec fn second_byte_ok(b0: u8, b1: u8) -> bool {
    if b0 == 0xE0 {
        0xA0 <= b1 <= 0xBF
    } else if b0 == 0xED {
        0x80 <= b1 <= 0x9F
    } else if b0 == 0xF0 {
        0x90 <= b1 <= 0xBF
    } else if b0 == 0xF4 {
        0x80 <= b1 <= 0x8F
    } else {
        0x80 <= b1 <= 0xBF
    }
}

/// How many bytes the code point takes that starts with `b0`, 0 if none does.
spec fn width(b0: u8) -> int {
    if b0 < 0x80 {
        1
    } else if 0xC2 <= b0 <= 0xDF {
        2
    } else if 0xE0 <= b0 <= 0xEF {
        3
    } else if 0xF0 <= b0 <= 0xF4 {
        4
    } else {
        0
    }
}

proof fn lemma_width_2(b0: u8, b1: u8)
    by (bit_vector)
    requires
        0xC0 <= b0 <= 0xDF,
        0x80 <= b1 <= 0xBF,
    ensures
        0x80 <= (((b0 & 0x1F) as u32) << 6) | ((b1 & 0x3F) as u32) <==> b0 >= 0xC2,
        ((((b0 & 0x1F) as u32) << 6) | ((b1 & 0x3F) as u32)) < 0x800,
{
}

proof fn lemma_width_3(b0: u8, b1: u8, b2: u8)
    by (bit_vector)
    requires
        0xE0 <= b0 <= 0xEF,
        0x80 <= b1 <= 0xBF,
        0x80 <= b2 <= 0xBF,
    ensures
        0x800 <= (((b0 & 0x0F) as u32) << 12) | (((b1 & 0x3F) as u32) << 6) | ((b2 & 0x3F) as u32)
            <==> b0 != 0xE0 || b1 >= 0xA0,
        (0xD800 <= (((b0 & 0x0F) as u32) << 12) | (((b1 & 0x3F) as u32) << 6) | ((b2
            & 0x3F) as u32) && (((b0 & 0x0F) as u32) << 12) | (((b1 & 0x3F) as u32) << 6) | ((b2
            & 0x3F) as u32) <= 0xDFFF) <==> b0 == 0xED && b1 >= 0xA0,
{
}

proof fn lemma_width_4(b0: u8, b1: u8, b2: u8, b3: u8)
    by (bit_vector)
    requires
        0xF0 <= b0 <= 0xF7,
        0x80 <= b1 <= 0xBF,
        0x80 <= b2 <= 0xBF,
        0x80 <= b3 <= 0xBF,
    ensures
        0x10000 <= (((b0 & 0x07) as u32) << 18) | (((b1 & 0x3F) as u32) << 12) | (((b2
            & 0x3F) as u32) << 6) | ((b3 & 0x3F) as u32) <==> b0 != 0xF0 || b1 >= 0x90,
        (((b0 & 0x07) as u32) << 18) | (((b1 & 0x3F) as u32) << 12) | (((b2 & 0x3F) as u32) << 6)
            | ((b3 & 0x3F) as u32) <= 0x10FFFF <==> b0 < 0xF4 || (b0 == 0xF4 && b1 <= 0x8F),
{
}

proof fn lemma_width_1(b0: u8)
    by (bit_vector)
    requires
        b0 < 0x80,
    ensures
        ((b0 & 0x7F) as u32) < 0x80,
{
}

/// Which bytes a code point consists of.
proof fn lemma_first_scalar(s: Seq<u8>)
    ensures
        vstd::utf8::valid_first_scalar(s) <==> {
            &&& s.len() > 0
            &&& 0 < width(s[0]) <= s.len()
            &&& width(s[0]) >= 2 ==> second_byte_ok(s[0], s[1])
            &&& width(s[0]) >= 3 ==> 0x80 <= s[2] <= 0xBF
            &&& width(s[0]) >= 4 ==> 0x80 <= s[3] <= 0xBF
        },
        vstd::utf8::valid_first_scalar(s) ==> vstd::utf8::length_of_first_scalar(s) == width(s[0]),
{
    if s.len() >= 1 && s[0] < 0x80 {
        lemma_width_1(s[0]);
    } else if s.len() >= 2 && 0xC0 <= s[0] <= 0xDF && 0x80 <= s[1] <= 0xBF {
        lemma_width_2(s[0], s[1]);
    } else if s.len() >= 3 && 0xE0 <= s[0] <= 0xEF && 0x80 <= s[1] <= 0xBF && 0x80 <= s[2]
        <= 0xBF {
        lemma_width_3(s[0], s[1], s[2]);
    } else if s.len() >= 4 && 0xF0 <= s[0] <= 0xF7 && 0x80 <= s[1] <= 0xBF && 0x80 <= s[2] <= 0xBF
        && 0x80 <= s[3] <= 0xBF {
        lemma_width_4(s[0], s[1], s[2], s[3]);
    }
}

/// Valid text that starts with valid text goes on with valid text.
pub proof fn lemma_valid_rest(head: Seq<u8>, tail: Seq<u8>)
    requires
        vstd::utf8::valid_utf8(head),
        vstd::utf8::valid_utf8(head + tail),
    ensures
        vstd::utf8::valid_utf8(tail),
    decreases head.len(),
{
    if head.len() == 0 {
        assert(head + tail =~= tail);
    } else {
        lemma_first_scalar(head);
        lemma_first_scalar(head + tail);
        let n = width(head[0]);
        assert((head + tail)[0] == head[0]);
        assert(vstd::utf8::pop_first_scalar(head + tail) =~= vstd::utf8::pop_first_scalar(head)
            + tail);
        lemma_valid_rest(vstd::utf8::pop_first_scalar(head), tail);
    }
}

/// Whether text may go on is decided by what follows its valid start.
pub proof fn lemma_extendable_rest(head: Seq<u8>, tail: Seq<u8>)
    requires
        vstd::utf8::valid_utf8(head),
    ensures
        extendable(head + tail) <==> extendable(tail),
        vstd::utf8::valid_utf8(head + tail) <==> vstd::utf8::valid_utf8(tail),
{
    if extendable(head + tail) {
        let rest = choose|rest: Seq<u8>| vstd::utf8::valid_utf8(#[trigger] (head + tail + rest));
        assert(head + tail + rest =~= head + (tail + rest));
        lemma_valid_rest(head, tail + rest);
    }
    if extendable(tail) {
        let rest = choose|rest: Seq<u8>| vstd::utf8::valid_utf8(#[trigger] (tail + rest));
        vstd::utf8::valid_utf8_concat(head, tail + rest);
        assert(head + (tail + rest) =~= head + tail + rest);
    }
    if vstd::utf8::valid_utf8(head + tail) {
        lemma_valid_rest(head, tail);
    }
    if vstd::utf8::valid_utf8(tail) {
        vstd::utf8::valid_utf8_concat(head, tail);
    }
}

/// Bytes of a code point whose end is missing may go on, but are not valid text as they stand.
proof fn lemma_cut(s: Seq<u8>)
    requires
        0 < s.len() < width(s[0]),
        s.len() >= 2 ==> second_byte_ok(s[0], s[1]),
        s.len() >= 3 ==> 0x80 <= s[2] <= 0xBF,
    ensures
        extendable(s),
        !vstd::utf8::valid_utf8(s),
{
    lemma_first_scalar(s);
    let second: u8 = if s[0] == 0xE0 {
        0xA0
    } else if s[0] == 0xF0 {
        0x90
    } else {
        0x80
    };
    let whole = if s.len() == 1 {
        s.push(second).push(0x80).push(0x80)
    } else {
        s.push(0x80).push(0x80)
    }.take(width(s[0]));
    let rest = whole.skip(s.len() as int);
    assert(s + rest =~= whole);
    lemma_first_scalar(whole);
    assert(vstd::utf8::pop_first_scalar(whole) =~= Seq::<u8>::empty());
    assert(vstd::utf8::valid_utf8(Seq::<u8>::empty()));
    assert(vstd::utf8::valid_utf8(s + rest));
}

/// Bytes that start with no code point, nor with a part of one, do not go on.
proof fn lemma_invalid(s: Seq<u8>)
    requires
        s.len() > 0,
        width(s[0]) == 0 || (s.len() >= 2 && width(s[0]) >= 2 && !second_byte_ok(s[0], s[1])) || (
        s.len() >= 3 && width(s[0]) >= 3 && !(0x80 <= s[2] <= 0xBF)) || (s.len() >= 4 && width(s[0])
            >= 4 && !(0x80 <= s[3] <= 0xBF)),
    ensures
        !extendable(s),
{
    assert forall|rest: Seq<u8>| !vstd::utf8::valid_utf8(#[trigger] (s + rest)) by {
        lemma_first_scalar(s + rest);
    }
}

/// Looks at the code point that starts at `at`.
fn front(bytes: &[u8], at: usize) -> (r: Front)
    requires
        at < bytes@.len(),
    ensures
        match r {
            Front::Scalar(n) => vstd::utf8::valid_first_scalar(bytes@.skip(at as int)) && n
                == vstd::utf8::length_of_first_scalar(bytes@.skip(at as int)) && 0 < n <= bytes@.len()
                - at,
            Front::Cut => extendable(bytes@.skip(at as int)) && !vstd::utf8::valid_utf8(
                bytes@.skip(at as int),
            ) && bytes@.len() - at <= 3 && !vstd::utf8::valid_first_scalar(bytes@.skip(at as int)),
            Front::Invalid => !extendable(bytes@.skip(at as int)),
        },
{
    let ghost s = bytes@.skip(at as int);
    let left: usize = bytes.len() - at;
    let b0: u8 = bytes[at];
    let n: usize = if b0 < 0x80 {
        1
    } else if 0xC2 <= b0 && b0 <= 0xDF {
        2
    } else if 0xE0 <= b0 && b0 <= 0xEF {
        3
    } else if 0xF0 <= b0 && b0 <= 0xF4 {
        4
    } else {
        0
    };
    assert(n == width(s[0]));
    if n == 0 {
        proof {
            lemma_invalid(s);
        }
        return Front::Invalid;
    }
    if n >= 2 && left >= 2 {
        let b1: u8 = bytes[at + 1];
        let low: u8 = if b0 == 0xE0 {
            0xA0
        } else if b0 == 0xF0 {
            0x90
        } else {
            0x80
        };
        let high: u8 = if b0 == 0xED {
            0x9F
        } else if b0 == 0xF4 {
            0x8F
        } else {
            0xBF
        };
        if b1 < low || b1 > high {
            proof {
                lemma_invalid(s);
            }
            return Front::Invalid;
        }
    }
    if n >= 3 && left >= 3 && (bytes[at + 2] < 0x80 || bytes[at + 2] > 0xBF) {
        proof {
            lemma_invalid(s);
        }
        return Front::Invalid;
    }
    if n >= 4 && left >= 4 && (bytes[at + 3] < 0x80 || bytes[at + 3] > 0xBF) {
        proof {
            lemma_invalid(s);
        }
        return Front::Invalid;
    }
    if left < n {
        proof {
            lemma_cut(s);
            lemma_first_scalar(s);
        }
        return Front::Cut;
    }
    proof {
        lemma_first_scalar(s);
    }
    Front::Scalar(n)
}

/// Validates text from `from` on, what precedes it being valid.
///
/// Text whose last code point is cut short is told from text that cannot become valid.
pub fn scan(bytes: &[u8], from: usize) -> (r: Scan)
    requires
        from <= bytes@.len(),
        vstd::utf8::valid_utf8(bytes@.take(from as int)),
    ensures
        r is Valid <==> vstd::utf8::valid_utf8(bytes@),
        r is Invalid <==> !extendable(bytes@),
        r matches Scan::Cut(at) ==> from <= at < bytes@.len() && vstd::utf8::valid_utf8(
            bytes@.take(at as int),
        ) && bytes@.len() - at <= 3,
        r matches Scan::Cut(at) ==> extendable(bytes@.skip(at as int))
            && !vstd::utf8::valid_first_scalar(bytes@.skip(at as int)),
{
    let n: usize = bytes.len();
    let mut at: usize = from;
    while at < n
        invariant
            n == bytes@.len(),
            from <= at <= n,
            vstd::utf8::valid_utf8(bytes@.take(at as int)),
        decreases n - at,
    {
        let ghost head = bytes@.take(at as int);
        let ghost tail = bytes@.skip(at as int);
        proof {
            assert(head + tail =~= bytes@);
            lemma_extendable_rest(head, tail);
        }
        match front(bytes, at) {
            Front::Scalar(len) => {
                proof {
                    let scalar = tail.take(len as int);
                    lemma_first_scalar(tail);
                    lemma_first_scalar(scalar);
                    assert(vstd::utf8::pop_first_scalar(scalar) =~= Seq::<u8>::empty());
                    assert(vstd::utf8::valid_utf8(Seq::<u8>::empty()));
                    vstd::utf8::valid_utf8_concat(head, scalar);
                    assert(bytes@.take(at + len) =~= head + scalar);
                }
                at = at + len;
            },
            Front::Cut => {
                return Scan::Cut(at);
            },
            Front::Invalid => {
                proof {
                    if vstd::utf8::valid_utf8(bytes@) {
                        assert(bytes@ + Seq::<u8>::empty() =~= bytes@);
                    }
                }
                return Scan::Invalid;
            },
        }
    }
    assert(bytes@.take(at as int) =~= bytes@);
    assert(bytes@ + Seq::<u8>::empty() =~= bytes@);
    Scan::Valid
}

/// Valid text may go on.
pub proof fn law_valid_extendable(bytes: Seq<u8>)
    requires
        vstd::utf8::valid_utf8(bytes),
    ensures
        extendable(bytes),
{
    assert(bytes + Seq::<u8>::empty() =~= bytes);
}

/// Text that cannot become valid stays so, whatever follows.
pub proof fn law_invalid_stays_invalid(bytes: Seq<u8>, more: Seq<u8>)
    requires
        !extendable(bytes),
    ensures
        !extendable(bytes + more),
        !vstd::utf8::valid_utf8(bytes + more),
{
    if extendable(bytes + more) {
        let rest = choose|rest: Seq<u8>| vstd::utf8::valid_utf8(#[trigger] (bytes + more + rest));
        assert(bytes + more + rest =~= bytes + (more + rest));
    }
    if vstd::utf8::valid_utf8(bytes + more) {
        law_valid_extendable(bytes + more);
    }
}

} // verus!
