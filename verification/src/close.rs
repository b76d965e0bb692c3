//! Close frames.
use crate::buffer::slice_from;
use crate::error::{ProtocolError, WebSocketError};
use crate::utf8::Utf8Bytes;
use bytes::Bytes;
use vstd::prelude::*;

verus! {

/// Maximum length of a close reason, the payload of a control frame minus the status code.
pub const MAX_REASON_LEN: usize = 123;

/// Status code of a Close frame.
#[derive(Clone, Copy, Debug, PartialEq, Eq, PartialOrd, Ord, Hash, Structural)]
pub struct CloseCode(pub u16);

impl CloseCode {
    /// 1000, the purpose of the connection has been fulfilled.
    pub fn normal() -> (code: CloseCode)
        ensures
            code == CloseCode(1000),
    {
        CloseCode(1000)
    }

    /// 1001, the endpoint is going away.
    pub fn away() -> (code: CloseCode)
        ensures
            code == CloseCode(1001),
    {
        CloseCode(1001)
    }

    /// 1002, the endpoint received a malformed frame.
    pub fn protocol() -> (code: CloseCode)
        ensures
            code == CloseCode(1002),
    {
        CloseCode(1002)
    }

    /// 1003, the endpoint received a type of data it cannot accept.
    pub fn unsupported() -> (code: CloseCode)
        ensures
            code == CloseCode(1003),
    {
        CloseCode(1003)
    }

    /// 1007, the endpoint received data inconsistent with the message type.
    pub fn invalid_data() -> (code: CloseCode)
        ensures
            code == CloseCode(1007),
    {
        CloseCode(1007)
    }

    /// 1008, the endpoint received a message that violates its policy.
    pub fn policy() -> (code: CloseCode)
        ensures
            code == CloseCode(1008),
    {
        CloseCode(1008)
    }

    /// 1009, the endpoint received a message that is too big to process.
    pub fn too_big() -> (code: CloseCode)
        ensures
            code == CloseCode(1009),
    {
        CloseCode(1009)
    }

    /// 1010, the client expected the server to negotiate an extension.
    pub fn extension() -> (code: CloseCode)
        ensures
            code == CloseCode(1010),
    {
        CloseCode(1010)
    }

    /// 1011, the server encountered an unexpected condition.
    pub fn internal_error() -> (code: CloseCode)
        ensures
            code == CloseCode(1011),
    {
        CloseCode(1011)
    }

    /// The codes that may appear on the wire.
    pub open spec fn sendable(self) -> bool {
        1000 <= self.0 <= 1003 || 1007 <= self.0 <= 1014 || 3000 <= self.0 <= 4999
    }

    /// Whether the code may appear in a Close frame on the wire.
    pub fn is_sendable(self) -> (r: bool)
        ensures
            r == self.sendable(),
    {
        matches!(self.0, 1000..=1003 | 1007..=1014 | 3000..=4999)
    }
}

/// Status code and reason carried by a Close frame.
#[derive(Debug, PartialEq, Eq)]
pub struct CloseFrame {
    /// Status code.
    pub code: CloseCode,
    /// Human readable reason, at most 123 bytes long.
    pub reason: Utf8Bytes,
}

/// Status code and reason carried by a Close frame, as a mathematical value.
#[verifier::ext_equal]
pub struct CloseModel {
    /// Status code.
    pub code: CloseCode,
    /// The UTF-8 bytes of the reason.
    pub reason: Seq<u8>,
}

impl View for CloseFrame {
    type V = CloseModel;

    open spec fn view(&self) -> CloseModel {
        CloseModel { code: self.code, reason: self.reason@ }
    }
}

impl CloseModel {
    /// Whether such a frame may be sent.
    pub open spec fn sendable(self) -> bool {
        self.code.sendable() && self.reason.len() <= MAX_REASON_LEN
    }
}

/// The model of an optional frame.
pub open spec fn close_model(frame: Option<CloseFrame>) -> Option<CloseModel> {
    match frame {
        Some(frame) => Some(frame@),
        None => None,
    }
}

/// The payload of a Close frame.
pub open spec fn close_payload(frame: Option<CloseModel>) -> Seq<u8> {
    match frame {
        Some(frame) => seq![(frame.code.0 / 256) as u8, (frame.code.0 % 256) as u8] + frame.reason,
        None => Seq::empty(),
    }
}

/// What the payload of a received Close frame says.
pub open spec fn parsed_close(payload: Seq<u8>) -> Result<Option<CloseModel>, ProtocolError> {
    if payload.len() == 0 {
        Ok(None)
    } else if payload.len() == 1 {
        Err(ProtocolError::InvalidClosePayload)
    } else {
        let code = CloseCode((payload[0] * 256 + payload[1]) as u16);
        let reason = payload.skip(2);
        if !code.sendable() {
            Err(ProtocolError::InvalidCloseCode(code.0))
        } else if !vstd::utf8::valid_utf8(reason) {
            Err(ProtocolError::InvalidUtf8)
        } else {
            Ok(Some(CloseModel { code, reason }))
        }
    }
}

/// The outcome of [`parse_payload`] as a mathematical value.
pub open spec fn parse_payload_model(
    r: Result<Option<CloseFrame>, ProtocolError>,
) -> Result<Option<CloseModel>, ProtocolError> {
    match r {
        Ok(frame) => Ok(close_model(frame)),
        Err(error) => Err(error),
    }
}

impl CloseFrame {
    /// Creates a frame without a reason.
    pub fn new(code: CloseCode) -> (frame: CloseFrame)
        ensures
            frame@ == (CloseModel { code, reason: Seq::empty() }),
    {
        CloseFrame { code, reason: Utf8Bytes::default() }
    }
}

impl Clone for CloseFrame {
    fn clone(&self) -> (r: CloseFrame)
        ensures
            r@ == self@,
    {
        CloseFrame { code: self.code, reason: self.reason.clone() }
    }
}

/// Parses the payload of a received Close frame.
pub fn parse_payload(payload: Bytes) -> (r: Result<Option<CloseFrame>, ProtocolError>)
    ensures
        parse_payload_model(r) == parsed_close(crate::buffer::bytes_of(payload)),
{
    let n: usize = payload.len();
    if n == 0 {
        return Ok(None);
    }
    if n == 1 {
        return Err(ProtocolError::InvalidClosePayload);
    }
    let bytes: &[u8] = &payload;
    let code: CloseCode = CloseCode(bytes[0] as u16 * 256 + bytes[1] as u16);
    if !code.is_sendable() {
        return Err(ProtocolError::InvalidCloseCode(code.0));
    }
    match Utf8Bytes::try_from(slice_from(&payload, 2)) {
        Ok(reason) => Ok(Some(CloseFrame { code, reason })),
        Err(_) => Err(ProtocolError::InvalidUtf8),
    }
}

/// Checks that a Close frame provided by the user can be sent.
pub fn validate(frame: &CloseFrame) -> (r: Result<(), WebSocketError>)
    ensures
        r == if !frame@.code.sendable() {
            Err::<(), WebSocketError>(WebSocketError::CloseCode(frame@.code))
        } else if frame@.reason.len() > MAX_REASON_LEN {
            Err(WebSocketError::CloseReason)
        } else {
            Ok(())
        },
        r is Ok <==> frame@.sendable(),
{
    if !frame.code.is_sendable() {
        return Err(WebSocketError::CloseCode(frame.code));
    }
    if frame.reason.len() > MAX_REASON_LEN {
        return Err(WebSocketError::CloseReason);
    }
    Ok(())
}

/// A Close frame that was sent is understood as it was meant.
pub proof fn law_close_roundtrip(frame: Option<CloseModel>)
    requires
        frame matches Some(frame) ==> frame.code.sendable() && vstd::utf8::valid_utf8(frame.reason),
    ensures
        parsed_close(close_payload(frame)) == Ok::<Option<CloseModel>, ProtocolError>(frame),
{
    if let Some(frame) = frame {
        assert(close_payload(Some(frame)).skip(2) =~= frame.reason);
    }
}

/// The payload of a Close frame is the status code in network byte order, followed by the reason,
/// or nothing.
pub proof fn law_close_payload(frame: CloseModel)
    ensures
        close_payload(None) == Seq::<u8>::empty(),
        close_payload(Some(frame)).len() == 2 + frame.reason.len(),
        close_payload(Some(frame))[0] * 256 + close_payload(Some(frame))[1] == frame.code.0,
        close_payload(Some(frame)).skip(2) == frame.reason,
{
    assert(close_payload(Some(frame)).skip(2) =~= frame.reason);
}

} // verus!
