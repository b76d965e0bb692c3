//! Close codes and Close frames.
use bytes::Bytes;
use websocket_io::close::{parse_payload, validate};
use websocket_io::{CloseCode, CloseFrame, ErrorKind, ProtocolError, WebSocketError};

#[test]
fn parse() {
    assert_eq!(parse_payload(Bytes::new()), Ok(None));
    assert_eq!(
        parse_payload(Bytes::from_static(&[3])),
        Err(ProtocolError::InvalidClosePayload)
    );
    assert_eq!(
        parse_payload(Bytes::from_static(b"\x03\xe8bye")),
        Ok(Some(CloseFrame {
            code: CloseCode::normal(),
            reason: "bye".into(),
        }))
    );
    assert_eq!(
        parse_payload(Bytes::from_static(b"\x03\xed")),
        Err(ProtocolError::InvalidCloseCode(1005))
    );
    assert_eq!(
        parse_payload(Bytes::from_static(b"\x03\xe8\xff")),
        Err(ProtocolError::InvalidUtf8)
    );
}

#[test]
fn sendable_codes() {
    for code in [0, 999, 1004, 1005, 1006, 1015, 1016, 2999, 5000] {
        assert!(!CloseCode(code).is_sendable(), "{code}");
    }
    for code in [1000, 1001, 1002, 1003, 1007, 1011, 1014, 3000, 4999] {
        assert!(CloseCode(code).is_sendable(), "{code}");
    }
}

#[test]
fn named_codes() {
    assert_eq!(CloseCode::normal().0, 1000);
    assert_eq!(CloseCode::away().0, 1001);
    assert_eq!(CloseCode::protocol().0, 1002);
    assert_eq!(CloseCode::unsupported().0, 1003);
    assert_eq!(CloseCode::invalid_data().0, 1007);
    assert_eq!(CloseCode::policy().0, 1008);
    assert_eq!(CloseCode::too_big().0, 1009);
    assert_eq!(CloseCode::extension().0, 1010);
    assert_eq!(CloseCode::internal_error().0, 1011);
}

#[test]
fn frames_that_cannot_be_sent() {
    assert_eq!(validate(&CloseFrame::new(CloseCode::normal())), Ok(()));
    let error = validate(&CloseFrame::new(CloseCode(1005))).unwrap_err();
    assert_eq!(error, WebSocketError::CloseCode(CloseCode(1005)));
    assert_eq!(error.kind(), Some(ErrorKind::InvalidInput));
    assert_eq!(error.message(), "close code 1005 cannot be sent");

    let mut frame = CloseFrame {
        code: CloseCode(4000),
        reason: "x".repeat(123).into(),
    };
    assert_eq!(validate(&frame), Ok(()));
    frame.reason = "x".repeat(124).into();
    let error = validate(&frame).unwrap_err();
    assert_eq!(error, WebSocketError::CloseReason);
    assert_eq!(error.kind(), Some(ErrorKind::InvalidInput));
    assert_eq!(error.message(), "close reason exceeds 123 bytes");
}

#[test]
fn new_frame_has_no_reason() {
    let frame = CloseFrame::new(CloseCode::away());
    assert_eq!(frame.code, CloseCode(1001));
    assert_eq!(frame.reason.as_str(), "");
    assert_eq!(frame.clone(), frame);
}
