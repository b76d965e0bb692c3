//! Errors: their classes and descriptions.
use websocket_io::{CloseCode, ErrorKind, ProtocolError, WebSocketError};

#[test]
fn violations_are_described() {
    let cases = [
        (ProtocolError::ReservedBits, "frame has reserved bits set"),
        (ProtocolError::UnknownOpCode(0xB), "frame has reserved opcode 0xb"),
        (ProtocolError::UnknownOpCode(0x3), "frame has reserved opcode 0x3"),
        (ProtocolError::FragmentedControlFrame, "control frame is fragmented"),
        (
            ProtocolError::ControlFrameTooLarge,
            "control frame payload exceeds 125 bytes",
        ),
        (
            ProtocolError::InvalidFrameLength,
            "frame payload length has the MSB set",
        ),
        (
            ProtocolError::UnmaskedFrame,
            "received an unmasked frame from the client",
        ),
        (
            ProtocolError::MaskedFrame,
            "received a masked frame from the server",
        ),
        (
            ProtocolError::UnexpectedContinuation,
            "continuation frame outside of a fragmented message",
        ),
        (
            ProtocolError::ExpectedContinuation,
            "new message started inside of a fragmented message",
        ),
        (ProtocolError::InvalidUtf8, "text payload is not valid UTF-8"),
        (ProtocolError::InvalidCloseCode(1005), "invalid close code 1005"),
        (ProtocolError::InvalidCloseCode(0), "invalid close code 0"),
        (
            ProtocolError::InvalidClosePayload,
            "close frame has a 1-byte payload",
        ),
        (
            ProtocolError::MessageTooLarge,
            "text message exceeds the size limit",
        ),
    ];
    for (error, text) in cases {
        assert_eq!(error.message(), text);
        let error = WebSocketError::from(error);
        assert_eq!(error.message(), text);
        assert_eq!(error.kind(), Some(ErrorKind::InvalidData));
    }
    assert_eq!(
        ProtocolError::UnknownOpCode(0xAB).message(),
        format!("frame has reserved opcode {:#x}", 0xAB)
    );
}

#[test]
fn violations_have_close_codes() {
    assert_eq!(ProtocolError::InvalidUtf8.close_code(), CloseCode(1007));
    assert_eq!(ProtocolError::MessageTooLarge.close_code(), CloseCode(1009));
    assert_eq!(ProtocolError::ReservedBits.close_code(), CloseCode(1002));
    assert_eq!(ProtocolError::InvalidCloseCode(1).close_code(), CloseCode(1002));
}

#[test]
fn other_errors() {
    let cases = [
        (
            WebSocketError::TextMessage,
            Some(ErrorKind::InvalidData),
            "received a text message",
        ),
        (
            WebSocketError::Closed,
            Some(ErrorKind::BrokenPipe),
            "websocket close frame already sent",
        ),
        (
            WebSocketError::Failed,
            Some(ErrorKind::Other),
            "websocket connection has failed earlier",
        ),
        (
            WebSocketError::UnexpectedEof,
            Some(ErrorKind::UnexpectedEof),
            "websocket connection closed without a close frame",
        ),
        (WebSocketError::WriteZero, Some(ErrorKind::WriteZero), "write zero"),
        (
            WebSocketError::ControlTooLarge,
            Some(ErrorKind::InvalidInput),
            "control frame payload exceeds 125 bytes",
        ),
        (
            WebSocketError::CloseCode(CloseCode(65535)),
            Some(ErrorKind::InvalidInput),
            "close code 65535 cannot be sent",
        ),
        (
            WebSocketError::CloseReason,
            Some(ErrorKind::InvalidInput),
            "close reason exceeds 123 bytes",
        ),
        (WebSocketError::Io, None, "the underlying IO failed"),
    ];
    for (error, kind, text) in cases {
        assert_eq!(error.kind(), kind);
        assert_eq!(error.message(), text);
    }
}
