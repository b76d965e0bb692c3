//! The header codec.
use websocket_io::frame::{encode, parse as parse_header, Header, OpCode, MAX_HEADER_LEN};
use websocket_io::ProtocolError;

const OPCODES: [OpCode; 6] = [
    OpCode::Continuation,
    OpCode::Text,
    OpCode::Binary,
    OpCode::Close,
    OpCode::Ping,
    OpCode::Pong,
];

#[test]
fn roundtrip() {
    let lens = [
        0,
        1,
        125,
        126,
        127,
        255,
        256,
        65535,
        65536,
        0x1234_5678,
        u64::MAX >> 1,
    ];
    for opcode in OPCODES {
        for fin in [false, true] {
            for mask in [None, Some([0; 4]), Some([1, 2, 3, 254])] {
                for len in lens {
                    let header = if opcode.is_control() {
                        Header {
                            fin: true,
                            opcode,
                            mask,
                            len: len % 126,
                        }
                    } else {
                        Header {
                            fin,
                            opcode,
                            mask,
                            len,
                        }
                    };
                    let mut out = [0; MAX_HEADER_LEN];
                    let n = encode(&mut out, header);
                    assert_eq!(parse_header(&out[..n]), Ok(Some((header, n))));
                    // Every proper prefix is incomplete.
                    for prefix in 0..n {
                        assert_eq!(parse_header(&out[..prefix]), Ok(None));
                    }
                    // What follows the header does not matter.
                    let mut longer = out[..n].to_vec();
                    longer.extend_from_slice(&[0xFF; 20]);
                    assert_eq!(parse_header(&longer), Ok(Some((header, n))));
                }
            }
        }
    }
}

#[test]
fn minimal_length_encoding() {
    let mut out = [0; MAX_HEADER_LEN];
    let header = |len| Header {
        fin: true,
        opcode: OpCode::Binary,
        mask: None,
        len,
    };
    assert_eq!(encode(&mut out, header(125)), 2);
    assert_eq!(encode(&mut out, header(126)), 4);
    assert_eq!(encode(&mut out, header(65535)), 4);
    assert_eq!(encode(&mut out, header(65536)), 10);
}

#[test]
fn exact_encodings() {
    let mut out = [0; MAX_HEADER_LEN];
    let n = encode(
        &mut out,
        Header {
            fin: true,
            opcode: OpCode::Text,
            mask: None,
            len: 5,
        },
    );
    assert_eq!(out[..n], [0x81, 0x05]);
    let n = encode(
        &mut out,
        Header {
            fin: false,
            opcode: OpCode::Binary,
            mask: Some([0x37, 0xfa, 0x21, 0x3d]),
            len: 256,
        },
    );
    assert_eq!(out[..n], [0x02, 0xFE, 0x01, 0x00, 0x37, 0xfa, 0x21, 0x3d]);
    let n = encode(
        &mut out,
        Header {
            fin: true,
            opcode: OpCode::Binary,
            mask: None,
            len: 0x0102_0304_0506_0708,
        },
    );
    assert_eq!(out[..n], [0x82, 0x7F, 1, 2, 3, 4, 5, 6, 7, 8]);
}

#[test]
fn frame_violations() {
    assert_eq!(parse_header(&[0xC2, 0x00]), Err(ProtocolError::ReservedBits));
    assert_eq!(parse_header(&[0x83, 0x00]), Err(ProtocolError::UnknownOpCode(3)));
    assert_eq!(parse_header(&[0x8B, 0x00]), Err(ProtocolError::UnknownOpCode(0xB)));
    assert_eq!(
        parse_header(&[0x09, 0x00]),
        Err(ProtocolError::FragmentedControlFrame)
    );
    assert_eq!(
        parse_header(&[0x89, 0x7E]),
        Err(ProtocolError::ControlFrameTooLarge)
    );
    assert_eq!(
        parse_header(&[0x82, 0x7F, 0x80, 0, 0, 0, 0, 0, 0, 0]),
        Err(ProtocolError::InvalidFrameLength)
    );
}

#[test]
fn opcodes() {
    for opcode in OPCODES {
        assert_eq!(OpCode::from_bits(opcode.bits()), Some(opcode));
        assert_eq!(opcode.is_control(), opcode.bits() & 0x8 != 0);
    }
    for bits in [0x3, 0x7, 0xB, 0xF, 0x10] {
        assert_eq!(OpCode::from_bits(bits), None);
    }
}
