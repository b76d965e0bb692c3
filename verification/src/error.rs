//! Errors: violations of the protocol by the peer, and everything else a call can fail with.
use crate::close::CloseCode;
use vstd::prelude::*;
use vstd::string::StringExecFns;

verus! {

/// A violation of RFC 6455 detected in the incoming stream.
#[derive(Clone, Copy, Debug, PartialEq, Eq, Structural)]
#[non_exhaustive]
pub enum ProtocolError {
    /// A frame had some of the RSV bits set, but no extension was negotiated.
    ReservedBits,
    /// A frame used a reserved opcode.
    UnknownOpCode(u8),
    /// A control frame had the FIN bit unset.
    FragmentedControlFrame,
    /// A control frame carried more than 125 bytes of payload.
    ControlFrameTooLarge,
    /// A frame declared a 64-bit payload length with the most significant bit set.
    InvalidFrameLength,
    /// A server received an unmasked frame.
    UnmaskedFrame,
    /// A client received a masked frame.
    MaskedFrame,
    /// A continuation frame arrived outside of a fragmented message.
    UnexpectedContinuation,
    /// A new data message started before the previous fragmented message was finished.
    ExpectedContinuation,
    /// A text message or a close reason was not valid UTF-8.
    InvalidUtf8,
    /// A Close frame carried a status code that must not appear on the wire.
    InvalidCloseCode(u16),
    /// A Close frame carried a 1-byte payload.
    InvalidClosePayload,
    /// A text message exceeded [`Config::max_message_size`](crate::Config::max_message_size).
    MessageTooLarge,
}

impl ProtocolError {
    /// Status code that a violation is answered with.
    pub open spec fn spec_close_code(self) -> CloseCode {
        match self {
            ProtocolError::InvalidUtf8 => CloseCode(1007),
            ProtocolError::MessageTooLarge => CloseCode(1009),
            _ => CloseCode(1002),
        }
    }

    /// Status code sent to the peer when the connection is failed because of this error.
    pub fn close_code(self) -> (code: CloseCode)
        ensures
            code == self.spec_close_code(),
    {
        match self {
            ProtocolError::InvalidUtf8 => CloseCode::invalid_data(),
            ProtocolError::MessageTooLarge => CloseCode::too_big(),
            _ => CloseCode::protocol(),
        }
    }

    /// The description of a violation.
    pub open spec fn description(self) -> Seq<char> {
        match self {
            ProtocolError::ReservedBits => "frame has reserved bits set"@,
            ProtocolError::UnknownOpCode(opcode) => "frame has reserved opcode 0x"@ + numeral(
                opcode as nat,
                16,
            ),
            ProtocolError::FragmentedControlFrame => "control frame is fragmented"@,
            ProtocolError::ControlFrameTooLarge => "control frame payload exceeds 125 bytes"@,
            ProtocolError::InvalidFrameLength => "frame payload length has the MSB set"@,
            ProtocolError::UnmaskedFrame => "received an unmasked frame from the client"@,
            ProtocolError::MaskedFrame => "received a masked frame from the server"@,
            ProtocolError::UnexpectedContinuation =>
                "continuation frame outside of a fragmented message"@,
            ProtocolError::ExpectedContinuation =>
                "new message started inside of a fragmented message"@,
            ProtocolError::InvalidUtf8 => "text payload is not valid UTF-8"@,
            ProtocolError::InvalidCloseCode(code) => "invalid close code "@ + numeral(
                code as nat,
                10,
            ),
            ProtocolError::InvalidClosePayload => "close frame has a 1-byte payload"@,
            ProtocolError::MessageTooLarge => "text message exceeds the size limit"@,
        }
    }

    /// Describes the violation.
    pub fn message(self) -> (text: String)
        ensures
            text@ == self.description(),
    {
        match self {
            ProtocolError::ReservedBits => "frame has reserved bits set".to_owned(),
            ProtocolError::UnknownOpCode(opcode) => with_number(
                "frame has reserved opcode 0x",
                opcode as u16,
                16,
            ),
            ProtocolError::FragmentedControlFrame => "control frame is fragmented".to_owned(),
            ProtocolError::ControlFrameTooLarge =>
                "control frame payload exceeds 125 bytes".to_owned(),
            ProtocolError::InvalidFrameLength => "frame payload length has the MSB set".to_owned(),
            ProtocolError::UnmaskedFrame => "received an unmasked frame from the client".to_owned(),
            ProtocolError::MaskedFrame => "received a masked frame from the server".to_owned(),
            ProtocolError::UnexpectedContinuation =>
                "continuation frame outside of a fragmented message".to_owned(),
            ProtocolError::ExpectedContinuation =>
                "new message started inside of a fragmented message".to_owned(),
            ProtocolError::InvalidUtf8 => "text payload is not valid UTF-8".to_owned(),
            ProtocolError::InvalidCloseCode(code) => with_number("invalid close code ", code, 10),
            ProtocolError::InvalidClosePayload => "close frame has a 1-byte payload".to_owned(),
            ProtocolError::MessageTooLarge => "text message exceeds the size limit".to_owned(),
        }
    }
}

/// The digit that stands for `n`.
pub open spec fn digit(n: u8) -> Seq<char> {
    match n {
        0 => "0"@,
        1 => "1"@,
        2 => "2"@,
        3 => "3"@,
        4 => "4"@,
        5 => "5"@,
        6 => "6"@,
        7 => "7"@,
        8 => "8"@,
        9 => "9"@,
        10 => "a"@,
        11 => "b"@,
        12 => "c"@,
        13 => "d"@,
        14 => "e"@,
        _ => "f"@,
    }
}

/// `n` written with the digits of `base`, without leading zeros.
pub open spec fn numeral(n: nat, base: nat) -> Seq<char>
    decreases n,
{
    if n < base || base < 2 {
        digit(n as u8)
    } else {
        proof {
            assert(n / base < n) by (nonlinear_arith)
                requires
                    n >= base,
                    base >= 2,
            ;
        }
        numeral(n / base, base) + digit((n % base) as u8)
    }
}

fn digit_str(n: u16) -> (text: &'static str)
    requires
        n < 16,
    ensures
        text@ == digit(n as u8),
{
    match n {
        0 => "0",
        1 => "1",
        2 => "2",
        3 => "3",
        4 => "4",
        5 => "5",
        6 => "6",
        7 => "7",
        8 => "8",
        9 => "9",
        10 => "a",
        11 => "b",
        12 => "c",
        13 => "d",
        14 => "e",
        _ => "f",
    }
}

/// `prefix`, followed by `n` in the given base.
fn with_number(prefix: &str, n: u16, base: u16) -> (text: String)
    requires
        base == 10 || base == 16,
    ensures
        text@ == prefix@ + numeral(n as nat, base as nat),
    decreases n,
{
    if n < base {
        let mut text: String = prefix.to_owned();
        text.append(digit_str(n));
        text
    } else {
        let mut text: String = with_number(prefix, n / base, base);
        text.append(digit_str(n % base));
        assert(text@ =~= prefix@ + numeral(n as nat, base as nat));
        text
    }
}

/// Broad classes of errors.
#[derive(Clone, Copy, Debug, PartialEq, Eq, Structural)]
pub enum ErrorKind {
    /// The peer sent something that it must not send, or that the caller cannot take.
    InvalidData,
    /// The caller asked for something that cannot be sent.
    InvalidInput,
    /// Our Close frame has been queued, nothing may follow it.
    BrokenPipe,
    /// The stream ended without a close handshake.
    UnexpectedEof,
    /// The IO accepted no bytes.
    WriteZero,
    /// Anything else.
    Other,
}

/// Why a call failed.
#[derive(Clone, Copy, Debug, PartialEq, Eq, Structural)]
pub enum WebSocketError {
    /// The peer violated the protocol.
    Protocol(ProtocolError),
    /// The peer sent a text message to a reader of binary data.
    TextMessage,
    /// Our Close frame has been queued, nothing may follow it.
    Closed,
    /// The connection has failed earlier.
    Failed,
    /// The IO reached its end without a close handshake.
    UnexpectedEof,
    /// The IO accepted no bytes.
    WriteZero,
    /// The payload of a control frame exceeds 125 bytes.
    ControlTooLarge,
    /// A close code must not appear on the wire.
    CloseCode(CloseCode),
    /// A close reason exceeds 123 bytes.
    CloseReason,
    /// The IO failed, with an error of its own.
    Io,
}

impl WebSocketError {
    /// The class of an error, [`None`] for the IO's own errors, which have their own.
    pub open spec fn spec_kind(self) -> Option<ErrorKind> {
        match self {
            WebSocketError::Protocol(_) | WebSocketError::TextMessage => Some(ErrorKind::InvalidData),
            WebSocketError::ControlTooLarge | WebSocketError::CloseCode(_) | WebSocketError::CloseReason => Some(
                ErrorKind::InvalidInput,
            ),
            WebSocketError::Closed => Some(ErrorKind::BrokenPipe),
            WebSocketError::UnexpectedEof => Some(ErrorKind::UnexpectedEof),
            WebSocketError::WriteZero => Some(ErrorKind::WriteZero),
            WebSocketError::Failed => Some(ErrorKind::Other),
            WebSocketError::Io => None,
        }
    }

    /// The class of the error, [`None`] for the IO's own errors, which have their own.
    pub fn kind(self) -> (kind: Option<ErrorKind>)
        ensures
            kind == self.spec_kind(),
    {
        match self {
            WebSocketError::Protocol(_) | WebSocketError::TextMessage => Some(ErrorKind::InvalidData),
            WebSocketError::ControlTooLarge | WebSocketError::CloseCode(_) | WebSocketError::CloseReason => Some(
                ErrorKind::InvalidInput,
            ),
            WebSocketError::Closed => Some(ErrorKind::BrokenPipe),
            WebSocketError::UnexpectedEof => Some(ErrorKind::UnexpectedEof),
            WebSocketError::WriteZero => Some(ErrorKind::WriteZero),
            WebSocketError::Failed => Some(ErrorKind::Other),
            WebSocketError::Io => None,
        }
    }

    /// The description of an error.
    pub open spec fn description(self) -> Seq<char> {
        match self {
            WebSocketError::Protocol(error) => error.description(),
            WebSocketError::TextMessage => "received a text message"@,
            WebSocketError::Closed => "websocket close frame already sent"@,
            WebSocketError::Failed => "websocket connection has failed earlier"@,
            WebSocketError::UnexpectedEof => "websocket connection closed without a close frame"@,
            WebSocketError::WriteZero => "write zero"@,
            WebSocketError::ControlTooLarge => "control frame payload exceeds 125 bytes"@,
            WebSocketError::CloseCode(code) => "close code "@ + numeral(code.0 as nat, 10)
                + " cannot be sent"@,
            WebSocketError::CloseReason => "close reason exceeds 123 bytes"@,
            WebSocketError::Io => "the underlying IO failed"@,
        }
    }

    /// Describes the error.
    pub fn message(self) -> (text: String)
        ensures
            text@ == self.description(),
    {
        match self {
            WebSocketError::Protocol(error) => error.message(),
            WebSocketError::TextMessage => "received a text message".to_owned(),
            WebSocketError::Closed => "websocket close frame already sent".to_owned(),
            WebSocketError::Failed => "websocket connection has failed earlier".to_owned(),
            WebSocketError::UnexpectedEof =>
                "websocket connection closed without a close frame".to_owned(),
            WebSocketError::WriteZero => "write zero".to_owned(),
            WebSocketError::ControlTooLarge => "control frame payload exceeds 125 bytes".to_owned(),
            WebSocketError::CloseCode(code) => {
                let mut text: String = with_number("close code ", code.0, 10);
                text.append(" cannot be sent");
                text
            },
            WebSocketError::CloseReason => "close reason exceeds 123 bytes".to_owned(),
            WebSocketError::Io => "the underlying IO failed".to_owned(),
        }
    }
}

impl vstd::std_specs::convert::FromSpecImpl<ProtocolError> for WebSocketError {
    open spec fn obeys_from_spec() -> bool {
        true
    }

    open spec fn from_spec(v: ProtocolError) -> WebSocketError {
        WebSocketError::Protocol(v)
    }
}

impl From<ProtocolError> for WebSocketError {
    fn from(error: ProtocolError) -> (r: WebSocketError) {
        WebSocketError::Protocol(error)
    }
}

/// The value of a digit.
pub open spec fn digit_value(c: char) -> nat {
    if '0' <= c <= '9' {
        (c as int - '0' as int) as nat
    } else {
        (c as int - 'a' as int + 10) as nat
    }
}

/// The number that digits stand for.
pub open spec fn number(digits: Seq<char>, base: nat) -> nat
    decreases digits.len(),
{
    if digits.len() == 0 {
        0
    } else {
        number(digits.drop_last(), base) * base + digit_value(digits.last())
    }
}

proof fn lemma_digit(n: u8)
    requires
        n < 16,
    ensures
        digit(n).len() == 1,
        digit_value(digit(n)[0]) == n,
        digit(n)[0] == '0' <==> n == 0,
        '0' <= digit(n)[0] <= '9' || 'a' <= digit(n)[0] <= 'f',
{
    reveal_strlit("0");
    reveal_strlit("1");
    reveal_strlit("2");
    reveal_strlit("3");
    reveal_strlit("4");
    reveal_strlit("5");
    reveal_strlit("6");
    reveal_strlit("7");
    reveal_strlit("8");
    reveal_strlit("9");
    reveal_strlit("a");
    reveal_strlit("b");
    reveal_strlit("c");
    reveal_strlit("d");
    reveal_strlit("e");
    reveal_strlit("f");
}

/// A number that is written in a description reads back as the number, and starts with no zero that
/// it could do without.
pub proof fn law_numeral(n: nat, base: nat)
    requires
        2 <= base <= 16,
    ensures
        numeral(n, base).len() > 0,
        number(numeral(n, base), base) == n,
        numeral(n, base)[0] == '0' <==> n == 0,
    decreases n,
{
    if n < base {
        lemma_digit(n as u8);
        let text = digit(n as u8);
        assert(number(text.drop_last(), base) == 0);
        assert(0 * base == 0);
        assert(number(text, base) == number(text.drop_last(), base) * base + digit_value(
            text.last(),
        ));
    } else {
        assert(0 < n / base < n) by (nonlinear_arith)
            requires
                n >= base,
                base >= 2,
        ;
        let low = (n % base) as u8;
        lemma_digit(low);
        law_numeral(n / base, base);
        let head = numeral(n / base, base);
        let text = numeral(n, base);
        assert(text.drop_last() =~= head);
        assert(text.last() == digit(low)[0]);
        assert((n / base) * base + n % base == n) by (nonlinear_arith)
            requires
                base >= 2,
        ;
        assert(text[0] == head[0]);
    }
}

/// Which class an error belongs to.
pub proof fn law_kinds(error: WebSocketError)
    ensures
        error.spec_kind() == Some(ErrorKind::InvalidData) <==> error is Protocol
            || error is TextMessage,
        error.spec_kind() == Some(ErrorKind::InvalidInput) <==> error is ControlTooLarge
            || error is CloseCode || error is CloseReason,
        error.spec_kind() == Some(ErrorKind::BrokenPipe) <==> error is Closed,
        error.spec_kind() == Some(ErrorKind::UnexpectedEof) <==> error is UnexpectedEof,
        error.spec_kind() == Some(ErrorKind::WriteZero) <==> error is WriteZero,
        error.spec_kind() == Some(ErrorKind::Other) <==> error is Failed,
        error.spec_kind() is None <==> error is Io,
{
}

} // verus!
