//! Frame header codec. Pure functions, no IO.
use crate::error::ProtocolError;
use vstd::prelude::*;

verus! {

/// Longest possible header: 2 fixed bytes, 8 bytes of extended length, 4 bytes of masking key.
pub const MAX_HEADER_LEN: usize = 14;

/// Longest payload a control frame may carry.
pub const MAX_CONTROL_PAYLOAD: usize = 125;

/// What a frame carries.
#[derive(Clone, Copy, Debug, PartialEq, Eq, Structural)]
pub enum OpCode {
    /// A further fragment of a message.
    Continuation,
    /// The first fragment of a text message.
    Text,
    /// The first fragment of a binary message.
    Binary,
    /// The end of the sender's stream.
    Close,
    /// A request for a Pong.
    Ping,
    /// The answer to a Ping.
    Pong,
}

impl OpCode {
    /// The four bits that stand for the opcode in a header.
    pub open spec fn spec_bits(self) -> u8 {
        match self {
            OpCode::Continuation => 0x0,
            OpCode::Text => 0x1,
            OpCode::Binary => 0x2,
            OpCode::Close => 0x8,
            OpCode::Ping => 0x9,
            OpCode::Pong => 0xA,
        }
    }

    /// Whether the opcode is that of a control frame.
    pub open spec fn control(self) -> bool {
        self is Close || self is Ping || self is Pong
    }

    /// The opcode that `bits` stand for, if they are not reserved.
    pub open spec fn of_bits(bits: u8) -> Option<OpCode> {
        match bits {
            0x0 => Some(OpCode::Continuation),
            0x1 => Some(OpCode::Text),
            0x2 => Some(OpCode::Binary),
            0x8 => Some(OpCode::Close),
            0x9 => Some(OpCode::Ping),
            0xA => Some(OpCode::Pong),
            _ => None,
        }
    }

    /// The opcode that `bits` stand for, [`None`] if they are reserved.
    pub fn from_bits(bits: u8) -> (r: Option<OpCode>)
        ensures
            r == OpCode::of_bits(bits),
    {
        match bits {
            0x0 => Some(OpCode::Continuation),
            0x1 => Some(OpCode::Text),
            0x2 => Some(OpCode::Binary),
            0x8 => Some(OpCode::Close),
            0x9 => Some(OpCode::Ping),
            0xA => Some(OpCode::Pong),
            _ => None,
        }
    }

    /// The four bits that stand for the opcode in a header.
    pub fn bits(self) -> (r: u8)
        ensures
            r == self.spec_bits(),
    {
        match self {
            OpCode::Continuation => 0x0,
            OpCode::Text => 0x1,
            OpCode::Binary => 0x2,
            OpCode::Close => 0x8,
            OpCode::Ping => 0x9,
            OpCode::Pong => 0xA,
        }
    }

    /// Whether this is the opcode of a control frame.
    pub fn is_control(self) -> (r: bool)
        ensures
            r == self.control(),
    {
        let bits: u8 = self.bits();
        assert(bits & 0x8 != 0 <==> bits == 0x8 || bits == 0x9 || bits == 0xA) by (bit_vector)
            requires
                bits == 0 || bits == 1 || bits == 2 || bits == 8 || bits == 9 || bits == 10,
        ;
        bits & 0x8 != 0
    }
}

/// A frame header.
#[derive(Clone, Copy, Debug, PartialEq, Eq)]
pub struct Header {
    /// Whether this is the last fragment of its message.
    pub fin: bool,
    /// What the frame carries.
    pub opcode: OpCode,
    /// Masking key, if the payload is masked.
    pub mask: Option<[u8; 4]>,
    /// Length of the payload.
    pub len: u64,
}

/// A frame header, as a mathematical value.
#[verifier::ext_equal]
pub struct HeaderModel {
    /// Whether this is the last fragment of its message.
    pub fin: bool,
    /// What the frame carries.
    pub opcode: OpCode,
    /// Masking key, if the payload is masked.
    pub mask: Option<Seq<u8>>,
    /// Length of the payload.
    pub len: nat,
}

/// The bytes of an optional masking key.
pub open spec fn key_model(mask: Option<[u8; 4]>) -> Option<Seq<u8>> {
    match mask {
        Some(key) => Some(key@),
        None => None,
    }
}

impl View for Header {
    type V = HeaderModel;

    open spec fn view(&self) -> HeaderModel {
        HeaderModel {
            fin: self.fin,
            opcode: self.opcode,
            mask: key_model(self.mask),
            len: self.len as nat,
        }
    }
}

impl HeaderModel {
    /// Whether RFC 6455 allows such a header: keys have four bytes, the length leaves the most
    /// significant of 64 bits unset, control frames are short and unfragmented.
    pub open spec fn valid(self) -> bool {
        &&& self.mask matches Some(key) ==> key.len() == 4
        &&& self.len < 0x8000_0000_0000_0000
        &&& self.opcode.control() ==> self.fin && self.len <= MAX_CONTROL_PAYLOAD
    }
}

/// The number that `s` is in big-endian order.
pub open spec fn be_value(s: Seq<u8>) -> nat
    decreases s.len(),
{
    if s.len() == 0 {
        0
    } else {
        be_value(s.drop_last()) * 256 + s.last() as nat
    }
}

/// The lowest `n` bytes of `v` in big-endian order.
pub open spec fn be_bytes(v: nat, n: nat) -> Seq<u8>
    decreases n,
{
    if n == 0 {
        Seq::empty()
    } else {
        be_bytes(v / 256, (n - 1) as nat).push((v % 256) as u8)
    }
}

/// How many bytes of extended length follow the two fixed bytes, given the 7-bit length.
pub open spec fn extended_len(len7: int) -> int {
    if len7 == 126 {
        2
    } else if len7 == 127 {
        8
    } else {
        0
    }
}

/// What the start of `buf` says about the next frame: a violation, nothing yet, or a header and
/// its encoded length.
pub open spec fn parsed(buf: Seq<u8>) -> Result<Option<(HeaderModel, int)>, ProtocolError> {
    if buf.len() < 2 {
        Ok(None)
    } else {
        let fin = buf[0] >= 0x80;
        let len7 = buf[1] as int % 128;
        let fixed = 2 + extended_len(len7);
        let len = if extended_len(len7) == 0 {
            len7 as nat
        } else {
            be_value(buf.subrange(2, fixed))
        };
        if buf[0] as int / 16 % 8 != 0 {
            Err(ProtocolError::ReservedBits)
        } else {
            match OpCode::of_bits((buf[0] as int % 16) as u8) {
                None => Err(ProtocolError::UnknownOpCode((buf[0] as int % 16) as u8)),
                Some(opcode) => if opcode.control() && !fin {
                    Err(ProtocolError::FragmentedControlFrame)
                } else if opcode.control() && len7 > MAX_CONTROL_PAYLOAD {
                    Err(ProtocolError::ControlFrameTooLarge)
                } else if buf.len() < fixed {
                    Ok(None)
                } else if len >= 0x8000_0000_0000_0000 {
                    Err(ProtocolError::InvalidFrameLength)
                } else if buf[1] < 0x80 {
                    Ok(Some((HeaderModel { fin, opcode, mask: None, len }, fixed)))
                } else if buf.len() < fixed + 4 {
                    Ok(None)
                } else {
                    let mask = Some(buf.subrange(fixed, fixed + 4));
                    Ok(Some((HeaderModel { fin, opcode, mask, len }, fixed + 4)))
                },
            }
        }
    }
}

/// The shortest encoding of a header.
pub open spec fn encoded(header: HeaderModel) -> Seq<u8> {
    let b0 = (if header.fin { 0x80int } else { 0 }) + header.opcode.spec_bits();
    let mask_bit = if header.mask is Some { 0x80int } else { 0 };
    let key = match header.mask {
        Some(key) => key,
        None => Seq::empty(),
    };
    if header.len < 126 {
        seq![b0 as u8, (mask_bit + header.len) as u8] + key
    } else if header.len < 0x1_0000 {
        seq![b0 as u8, (mask_bit + 126) as u8] + be_bytes(header.len, 2) + key
    } else {
        seq![b0 as u8, (mask_bit + 127) as u8] + be_bytes(header.len, 8) + key
    }
}

/// The outcome of [`parse`] as a mathematical value.
pub open spec fn parse_model(
    r: Result<Option<(Header, usize)>, ProtocolError>,
) -> Result<Option<(HeaderModel, int)>, ProtocolError> {
    match r {
        Ok(Some((header, len))) => Ok(Some((header@, len as int))),
        Ok(None) => Ok(None),
        Err(error) => Err(error),
    }
}

proof fn lemma_be_value_bound(s: Seq<u8>)
    ensures
        be_value(s) < vstd::arithmetic::power::pow(256, s.len()),
    decreases s.len(),
{
    reveal(vstd::arithmetic::power::pow);
    if s.len() > 0 {
        lemma_be_value_bound(s.drop_last());
    }
}

/// Reads `n` bytes of `buf` at `from` as a big-endian number.
fn read_be(buf: &[u8], from: usize, n: usize) -> (v: u64)
    requires
        n <= 8,
        from + n <= buf@.len(),
    ensures
        v == be_value(buf@.subrange(from as int, from + n)),
{
    let total: usize = buf.len();
    let mut v: u64 = 0;
    let mut i: usize = 0;
    while i < n
        invariant
            i <= n <= 8,
            from + n <= total == buf@.len(),
            v == be_value(buf@.subrange(from as int, from + i)),
        decreases n - i,
    {
        let ghost head = buf@.subrange(from as int, from + i);
        let ghost next = buf@.subrange(from as int, from + i + 1);
        proof {
            assert(next.drop_last() =~= head);
            lemma_be_value_bound(head);
            vstd::arithmetic::power::lemma_pow_increases(256, i as nat, 7);
            assert(vstd::arithmetic::power::pow(256, 7) == 0x100_0000_0000_0000) by {
                reveal_with_fuel(vstd::arithmetic::power::pow, 8);
            }
        }
        v = v * 256 + buf[from + i] as u64;
        i = i + 1;
    }
    v
}

/// Parses a frame header from the start of `buf`.
///
/// Returns the header and its encoded length, or [`None`] if `buf` does not hold the whole header
/// yet. Validates everything that can be validated without connection state.
pub fn parse(buf: &[u8]) -> (r: Result<Option<(Header, usize)>, ProtocolError>)
    ensures
        parse_model(r) == parsed(buf@),
{
    if buf.len() < 2 {
        return Ok(None);
    }
    let b0: u8 = buf[0];
    let b1: u8 = buf[1];
    assert(b0 & 0x70 != 0 <==> b0 / 16 % 8 != 0) by (bit_vector);
    assert(b0 & 0x0F == b0 % 16) by (bit_vector);
    assert(b0 & 0x80 != 0 <==> b0 >= 0x80) by (bit_vector);
    assert(b1 & 0x7F == b1 % 128) by (bit_vector);
    assert(b1 & 0x80 != 0 <==> b1 >= 0x80) by (bit_vector);

    if b0 & 0x70 != 0 {
        return Err(ProtocolError::ReservedBits);
    }
    let opcode: OpCode = match OpCode::from_bits(b0 & 0x0F) {
        Some(opcode) => opcode,
        None => return Err(ProtocolError::UnknownOpCode(b0 & 0x0F)),
    };
    let fin: bool = b0 & 0x80 != 0;
    let len7: u8 = b1 & 0x7F;

    if opcode.is_control() {
        if !fin {
            return Err(ProtocolError::FragmentedControlFrame);
        }
        if len7 as usize > MAX_CONTROL_PAYLOAD {
            return Err(ProtocolError::ControlFrameTooLarge);
        }
    }

    let (len, fixed): (u64, usize) = match len7 {
        126 => {
            if buf.len() < 4 {
                return Ok(None);
            }
            proof {
                lemma_be_value_bound(buf@.subrange(2, 4));
                reveal_with_fuel(vstd::arithmetic::power::pow, 3);
            }
            (read_be(buf, 2, 2), 4)
        },
        127 => {
            if buf.len() < 10 {
                return Ok(None);
            }
            let len: u64 = read_be(buf, 2, 8);
            if len >= 0x8000_0000_0000_0000 {
                return Err(ProtocolError::InvalidFrameLength);
            }
            (len, 10)
        },
        _ => (len7 as u64, 2),
    };

    if b1 & 0x80 == 0 {
        return Ok(Some((Header { fin, opcode, mask: None, len }, fixed)));
    }
    if buf.len() < fixed + 4 {
        return Ok(None);
    }
    let key: [u8; 4] = [buf[fixed], buf[fixed + 1], buf[fixed + 2], buf[fixed + 3]];
    assert(key@ =~= buf@.subrange(fixed as int, fixed + 4));
    Ok(Some((Header { fin, opcode, mask: Some(key), len }, fixed + 4)))
}

proof fn lemma_be_bytes_2(v: nat)
    requires
        v < 0x1_0000,
    ensures
        be_bytes(v, 2) == seq![(v / 256) as u8, (v % 256) as u8],
{
    reveal_with_fuel(be_bytes, 3);
    assert(be_bytes(v, 2) =~= seq![(v / 256) as u8, (v % 256) as u8]);
}

proof fn lemma_be_bytes_8(n: nat, n1: nat, n2: nat, n3: nat, n4: nat, n5: nat, n6: nat, n7: nat)
    requires
        n1 == n / 256,
        n2 == n1 / 256,
        n3 == n2 / 256,
        n4 == n3 / 256,
        n5 == n4 / 256,
        n6 == n5 / 256,
        n7 == n6 / 256,
    ensures
        be_bytes(n, 8) == seq![
            (n7 % 256) as u8,
            (n6 % 256) as u8,
            (n5 % 256) as u8,
            (n4 % 256) as u8,
            (n3 % 256) as u8,
            (n2 % 256) as u8,
            (n1 % 256) as u8,
            (n % 256) as u8,
        ],
{
    assert(be_bytes(n7, 1) =~= seq![(n7 % 256) as u8]) by {
        reveal_with_fuel(be_bytes, 2);
    }
    assert(be_bytes(n6, 2) =~= be_bytes(n7, 1).push((n6 % 256) as u8));
    assert(be_bytes(n5, 3) =~= be_bytes(n6, 2).push((n5 % 256) as u8));
    assert(be_bytes(n4, 4) =~= be_bytes(n5, 3).push((n4 % 256) as u8));
    assert(be_bytes(n3, 5) =~= be_bytes(n4, 4).push((n3 % 256) as u8));
    assert(be_bytes(n2, 6) =~= be_bytes(n3, 5).push((n2 % 256) as u8));
    assert(be_bytes(n1, 7) =~= be_bytes(n2, 6).push((n1 % 256) as u8));
    assert(be_bytes(n, 8) =~= be_bytes(n1, 7).push((n % 256) as u8));
}

/// Encodes a frame header into `out`, returning the encoded length.
#[verifier::rlimit(40)]
pub fn encode(out: &mut [u8; MAX_HEADER_LEN], header: Header) -> (len: usize)
    ensures
        len == encoded(header@).len(),
        len <= MAX_HEADER_LEN,
        final(out)@.take(len as int) == encoded(header@),
        final(out)@.skip(len as int) == old(out)@.skip(len as int),
{
    let fin_bit: u8 = if header.fin { 0x80 } else { 0 };
    let mask_bit: u8 = if header.mask.is_some() { 0x80 } else { 0 };
    let v: u64 = header.len;
    out[0] = fin_bit + header.opcode.bits();
    let fixed: usize = if v < 126 {
        out[1] = mask_bit + v as u8;
        2
    } else if v <= 0xFFFF {
        out[1] = mask_bit + 126;
        out[2] = (v / 256) as u8;
        out[3] = (v % 256) as u8;
        proof {
            lemma_be_bytes_2(v as nat);
        }
        4
    } else {
        out[1] = mask_bit + 127;
        let v1: u64 = v / 256;
        let v2: u64 = v1 / 256;
        let v3: u64 = v2 / 256;
        let v4: u64 = v3 / 256;
        let v5: u64 = v4 / 256;
        let v6: u64 = v5 / 256;
        let v7: u64 = v6 / 256;
        out[2] = (v7 % 256) as u8;
        out[3] = (v6 % 256) as u8;
        out[4] = (v5 % 256) as u8;
        out[5] = (v4 % 256) as u8;
        out[6] = (v3 % 256) as u8;
        out[7] = (v2 % 256) as u8;
        out[8] = (v1 % 256) as u8;
        out[9] = (v % 256) as u8;
        proof {
            lemma_be_bytes_8(
                v as nat,
                v1 as nat,
                v2 as nat,
                v3 as nat,
                v4 as nat,
                v5 as nat,
                v6 as nat,
                v7 as nat,
            );
        }
        10
    };
    let ghost unmasked = encoded(HeaderModel { mask: None, ..header@ });
    let ghost head = out@;
    assert(head.take(fixed as int).update(1, unmasked[1]) =~= unmasked);
    assert(head.skip(fixed as int) =~= old(out)@.skip(fixed as int));
    match header.mask {
        Some(key) => {
            out[fixed] = key[0];
            out[fixed + 1] = key[1];
            out[fixed + 2] = key[2];
            out[fixed + 3] = key[3];
            assert(out@.take(fixed + 4) =~= head.take(fixed as int) + key@);
            assert(encoded(header@) =~= head.take(fixed as int) + key@);
            assert(out@.skip(fixed + 4) =~= old(out)@.skip(fixed + 4));
            fixed + 4
        },
        None => {
            assert(head.take(fixed as int) =~= encoded(header@));
            fixed
        },
    }
}

proof fn lemma_be_bytes_value(v: nat, n: nat)
    requires
        v < vstd::arithmetic::power::pow(256, n),
    ensures
        be_bytes(v, n).len() == n,
        be_value(be_bytes(v, n)) == v,
    decreases n,
{
    reveal(vstd::arithmetic::power::pow);
    if n > 0 {
        lemma_be_bytes_value(v / 256, (n - 1) as nat);
        let init = be_bytes(v / 256, (n - 1) as nat);
        assert(init.push((v % 256) as u8).drop_last() =~= init);
    }
}

/// The bytes of an extended length hold the length.
pub(crate) proof fn lemma_extended_len_bytes(len: nat)
    requires
        126 <= len < 0x8000_0000_0000_0000,
    ensures
        len < 0x1_0000 ==> be_bytes(len, 2).len() == 2 && be_value(be_bytes(len, 2)) == len,
        be_bytes(len, 8).len() == 8,
        be_value(be_bytes(len, 8)) == len,
{
    reveal_with_fuel(vstd::arithmetic::power::pow, 9);
    if len < 0x1_0000 {
        lemma_be_bytes_value(len, 2);
    }
    lemma_be_bytes_value(len, 8);
}

/// A header that was encoded is parsed back, whatever follows it.
pub proof fn law_header_roundtrip(header: HeaderModel, rest: Seq<u8>)
    requires
        header.valid(),
    ensures
        parsed(encoded(header) + rest) == Ok::<Option<(HeaderModel, int)>, ProtocolError>(
            Some((header, encoded(header).len() as int)),
        ),
{
    let bytes = encoded(header);
    let buf = bytes + rest;
    let bits = header.opcode.spec_bits();
    assert(OpCode::of_bits(bits) == Some(header.opcode));
    if header.len >= 126 {
        lemma_extended_len_bytes(header.len);
        if header.len < 0x1_0000 {
            assert(buf.subrange(2, 4) =~= be_bytes(header.len, 2));
        } else {
            assert(buf.subrange(2, 10) =~= be_bytes(header.len, 8));
        }
    }
    let fixed = 2 + extended_len(buf[1] as int % 128);
    if header.mask is Some {
        assert(buf.subrange(fixed, fixed + 4) =~= header.mask->0);
    }
}

/// No proper prefix of an encoded header is taken for a header or a violation.
pub proof fn law_header_prefix_incomplete(header: HeaderModel, n: int)
    requires
        header.valid(),
        0 <= n < encoded(header).len(),
    ensures
        parsed(encoded(header).take(n)) == Ok::<Option<(HeaderModel, int)>, ProtocolError>(None),
{
    let bytes = encoded(header);
    let buf = bytes.take(n);
    assert(OpCode::of_bits(header.opcode.spec_bits()) == Some(header.opcode));
    if header.len >= 126 {
        lemma_extended_len_bytes(header.len);
        if header.len < 0x1_0000 && n >= 4 {
            assert(buf.subrange(2, 4) =~= be_bytes(header.len, 2));
        } else if header.len >= 0x1_0000 && n >= 10 {
            assert(buf.subrange(2, 10) =~= be_bytes(header.len, 8));
        }
    }
}

/// What has been decided about a header does not change when more bytes arrive.
pub proof fn law_header_decided(buf: Seq<u8>, more: Seq<u8>)
    requires
        parsed(buf) != Ok::<Option<(HeaderModel, int)>, ProtocolError>(None),
    ensures
        parsed(buf + more) == parsed(buf),
{
    let fixed = 2 + extended_len(buf[1] as int % 128);
    if buf.len() >= fixed {
        assert((buf + more).subrange(2, fixed) =~= buf.subrange(2, fixed));
    }
    if buf.len() >= fixed + 4 {
        assert((buf + more).subrange(fixed, fixed + 4) =~= buf.subrange(fixed, fixed + 4));
    }
}

/// Every header that is parsed is one that may be sent, and lies within the bytes given.
pub proof fn law_header_valid(buf: Seq<u8>)
    requires
        parsed(buf) matches Ok(Some(_)),
    ensures
        parsed(buf) matches Ok(Some((header, len))) && header.valid() && 2 <= len <= buf.len()
            && len <= MAX_HEADER_LEN,
{
}

/// The length of a payload takes as few bytes of the header as it can.
pub proof fn law_minimal_length(header: HeaderModel, buf: Seq<u8>)
    requires
        parsed(buf) matches Ok(Some((parsed_header, _))) && parsed_header == header,
    ensures
        parsed(buf) matches Ok(Some((_, len))) && encoded(header).len() <= len,
{
    let len7 = buf[1] as int % 128;
    let fixed = 2 + extended_len(len7);
    reveal_with_fuel(vstd::arithmetic::power::pow, 9);
    if extended_len(len7) > 0 {
        lemma_be_value_bound(buf.subrange(2, fixed));
    }
    if header.len >= 126 {
        lemma_extended_len_bytes(header.len);
    }
}

/// What the bytes of an encoded header are, as RFC 6455 lays them out: the FIN bit and the opcode,
/// the mask bit and the length, the extended length in network byte order, and the masking key.
pub proof fn law_header_layout(header: HeaderModel)
    requires
        header.valid(),
    ensures
        ({
            let bytes = encoded(header);
            let extended = if header.len <= 125 {
                0
            } else if header.len <= 65535 {
                2
            } else {
                8int
            };
            &&& bytes.len() == 2 + extended + if header.mask is Some {
                4int
            } else {
                0
            }
            &&& bytes[0] == (if header.fin {
                128int
            } else {
                0
            }) + match header.opcode {
                OpCode::Continuation => 0int,
                OpCode::Text => 1,
                OpCode::Binary => 2,
                OpCode::Close => 8,
                OpCode::Ping => 9,
                OpCode::Pong => 10,
            }
            &&& bytes[1] == (if header.mask is Some {
                128int
            } else {
                0
            }) + if extended == 0 {
                header.len as int
            } else if extended == 2 {
                126
            } else {
                127
            }
            &&& extended == 2 ==> header.len == bytes[2] * 256 + bytes[3]
            &&& extended == 8 ==> header.len == bytes[2] * 0x100_0000_0000_0000 + bytes[3]
                * 0x1_0000_0000_0000 + bytes[4] * 0x100_0000_0000 + bytes[5] * 0x1_0000_0000
                + bytes[6] * 0x100_0000 + bytes[7] * 0x1_0000 + bytes[8] * 0x100 + bytes[9]
            &&& header.mask matches Some(key) ==> bytes.skip(2 + extended) == key
        }),
{
    let bytes = encoded(header);
    if header.len >= 126 {
        lemma_extended_len_bytes(header.len);
    }
    if 126 <= header.len < 0x1_0000 {
        lemma_be_bytes_2(header.len);
        assert(be_bytes(header.len, 2) =~= seq![bytes[2], bytes[3]]);
        if let Some(key) = header.mask {
            assert(bytes.skip(4) =~= key);
        }
    } else if header.len >= 0x1_0000 {
        let tail = be_bytes(header.len, 8);
        assert(tail =~= seq![
            bytes[2],
            bytes[3],
            bytes[4],
            bytes[5],
            bytes[6],
            bytes[7],
            bytes[8],
            bytes[9],
        ]);
        lemma_be_value_8(tail);
        if let Some(key) = header.mask {
            assert(bytes.skip(10) =~= key);
        }
    } else if let Some(key) = header.mask {
        assert(bytes.skip(2) =~= key);
    }
}

proof fn lemma_be_value_8(s: Seq<u8>)
    requires
        s.len() == 8,
    ensures
        be_value(s) == s[0] * 0x100_0000_0000_0000 + s[1] * 0x1_0000_0000_0000 + s[2]
            * 0x100_0000_0000 + s[3] * 0x1_0000_0000 + s[4] * 0x100_0000 + s[5] * 0x1_0000 + s[6]
            * 0x100 + s[7],
{
    let s7 = s.drop_last();
    let s6 = s7.drop_last();
    let s5 = s6.drop_last();
    let s4 = s5.drop_last();
    let s3 = s4.drop_last();
    let s2 = s3.drop_last();
    let s1 = s2.drop_last();
    assert(be_value(s1.drop_last()) == 0);
    assert(be_value(s1) == s[0]);
    assert(be_value(s2) == be_value(s1) * 256 + s[1]);
    assert(be_value(s3) == be_value(s2) * 256 + s[2]);
    assert(be_value(s4) == be_value(s3) * 256 + s[3]);
    assert(be_value(s5) == be_value(s4) * 256 + s[4]);
    assert(be_value(s6) == be_value(s5) * 256 + s[5]);
    assert(be_value(s7) == be_value(s6) * 256 + s[6]);
    assert(be_value(s) == be_value(s7) * 256 + s[7]);
}

/// Which headers are refused, and why: those with reserved bits or a reserved opcode, control
/// frames that are fragmented or longer than 125 bytes, and lengths with the most significant bit
/// set. The first two bytes decide, but for the last one. Everything else is a header, or the start
/// of one.
pub proof fn law_header_refused(buf: Seq<u8>)
    requires
        buf.len() >= 2,
    ensures
        ({
            let fin = buf[0] / 128 == 1;
            let reserved = buf[0] / 64 % 2 == 1 || buf[0] / 32 % 2 == 1 || buf[0] / 16 % 2 == 1;
            let code = buf[0] % 16;
            let control = code == 8 || code == 9 || code == 10;
            let len7 = buf[1] % 128;
            if reserved {
                parsed(buf) == Err::<Option<(HeaderModel, int)>, ProtocolError>(
                    ProtocolError::ReservedBits,
                )
            } else if 2 < code < 8 || 10 < code {
                parsed(buf) == Err::<Option<(HeaderModel, int)>, ProtocolError>(
                    ProtocolError::UnknownOpCode(code),
                )
            } else if control && !fin {
                parsed(buf) == Err::<Option<(HeaderModel, int)>, ProtocolError>(
                    ProtocolError::FragmentedControlFrame,
                )
            } else if control && len7 > 125 {
                parsed(buf) == Err::<Option<(HeaderModel, int)>, ProtocolError>(
                    ProtocolError::ControlFrameTooLarge,
                )
            } else if len7 == 127 && buf.len() >= 10 && buf[2] >= 128 {
                parsed(buf) == Err::<Option<(HeaderModel, int)>, ProtocolError>(
                    ProtocolError::InvalidFrameLength,
                )
            } else {
                parsed(buf) is Ok
            }
        }),
{
    let len7 = buf[1] as int % 128;
    if len7 == 127 && buf.len() >= 10 {
        lemma_be_value_8(buf.subrange(2, 10));
    } else if len7 == 126 && buf.len() >= 4 {
        lemma_be_value_bound(buf.subrange(2, 4));
        reveal_with_fuel(vstd::arithmetic::power::pow, 3);
    }
}

/// What a header says that is not refused: it is complete once all of its bytes are there, and its
/// parts are where RFC 6455 puts them.
pub proof fn law_header_read(buf: Seq<u8>)
    requires
        parsed(buf) is Ok,
    ensures
        ({
            let len7 = buf[1] % 128;
            let masked = buf[1] / 128 == 1;
            let fixed = if len7 == 126 {
                4
            } else if len7 == 127 {
                10
            } else {
                2int
            };
            let whole = if masked {
                fixed + 4
            } else {
                fixed
            };
            &&& parsed(buf) matches Ok(None) ==> buf.len() < 2 || buf.len() < whole
            &&& parsed(buf) matches Ok(Some((header, n))) ==> {
                &&& n == whole <= buf.len()
                &&& header.fin == (buf[0] / 128 == 1)
                &&& header.opcode == match buf[0] % 16 {
                    0 => OpCode::Continuation,
                    1 => OpCode::Text,
                    2 => OpCode::Binary,
                    8 => OpCode::Close,
                    9 => OpCode::Ping,
                    _ => OpCode::Pong,
                }
                &&& masked <==> header.mask is Some
                &&& header.mask matches Some(key) ==> key == seq![
                    buf[fixed],
                    buf[fixed + 1],
                    buf[fixed + 2],
                    buf[fixed + 3],
                ]
                &&& len7 < 126 ==> header.len == len7
                &&& len7 == 126 ==> header.len == buf[2] * 256 + buf[3]
                &&& len7 == 127 ==> header.len == buf[2] * 0x100_0000_0000_0000 + buf[3]
                    * 0x1_0000_0000_0000 + buf[4] * 0x100_0000_0000 + buf[5] * 0x1_0000_0000 + buf[6]
                    * 0x100_0000 + buf[7] * 0x1_0000 + buf[8] * 0x100 + buf[9]
            }
        }),
{
    if let Ok(Some((header, n))) = parsed(buf) {
        let len7 = buf[1] as int % 128;
        let fixed = 2 + extended_len(len7);
        if len7 == 127 {
            lemma_be_value_8(buf.subrange(2, 10));
        } else if len7 == 126 {
            let s = buf.subrange(2, 4);
            assert(be_value(s.drop_last().drop_last()) == 0);
            assert(be_value(s.drop_last()) == buf[2]);
        }
        if let Some(key) = header.mask {
            assert(key =~= seq![buf[fixed], buf[fixed + 1], buf[fixed + 2], buf[fixed + 3]]);
        }
    }
}

} // verus!
