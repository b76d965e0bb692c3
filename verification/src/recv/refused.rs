//! What is refused of an incoming stream, and why.
use crate::close::{CloseCode, CloseModel};
use crate::config::Role;
use crate::error::ProtocolError;
use crate::frame::{HeaderModel, OpCode};
use crate::recv::log::Item;
use crate::recv::{DecoderModel, MessageKind, Rules};
use vstd::prelude::*;

verus! {

/// Whether the bytes at hand mean a violation, and nothing else.
pub open spec fn refuses(decoder: DecoderModel, rules: Rules, error: ProtocolError) -> bool {
    decoder.log(rules) == seq![Item::Violation(error)]
}

/// Whether a frame is masked as it has to be: clients mask, unless the server does not insist, and
/// servers do not.
pub open spec fn masked_as_due(rules: Rules, header: HeaderModel) -> bool {
    if rules.role == Role::Server {
        header.mask is Some || rules.accept_unmasked_frames
    } else {
        header.mask is None
    }
}

/// A header that is refused is a violation, wherever it stands between two frames.
pub proof fn law_header_violation(decoder: DecoderModel, rules: Rules, error: ProtocolError)
    requires
        decoder.frame is Header,
        crate::frame::parsed(decoder.buf) == Err::<Option<(HeaderModel, int)>, ProtocolError>(
            error,
        ),
    ensures
        refuses(decoder, rules, error),
{
}

/// Frames are refused that are not masked as they have to be.
pub proof fn law_mask_violation(decoder: DecoderModel, rules: Rules, header: HeaderModel, n: int)
    requires
        decoder.frame is Header,
        crate::frame::parsed(decoder.buf) == Ok::<Option<(HeaderModel, int)>, ProtocolError>(
            Some((header, n)),
        ),
    ensures
        !masked_as_due(rules, header) ==> refuses(
            decoder,
            rules,
            if header.mask is None {
                ProtocolError::UnmaskedFrame
            } else {
                ProtocolError::MaskedFrame
            },
        ),
{
}

/// Data frames are refused that do not fit the message in progress: a further fragment if there is
/// none, and a new message if there is one. So are text messages that exceed the limit, with the
/// first header that tells.
pub proof fn law_data_violation(decoder: DecoderModel, rules: Rules, header: HeaderModel, n: int)
    requires
        decoder.frame is Header,
        crate::frame::parsed(decoder.buf) == Ok::<Option<(HeaderModel, int)>, ProtocolError>(
            Some((header, n)),
        ),
        masked_as_due(rules, header),
    ensures
        header.opcode == OpCode::Continuation && decoder.message is None ==> refuses(
            decoder,
            rules,
            ProtocolError::UnexpectedContinuation,
        ),
        (header.opcode == OpCode::Text || header.opcode == OpCode::Binary)
            && decoder.message is Some ==> refuses(
            decoder,
            rules,
            ProtocolError::ExpectedContinuation,
        ),
        (header.opcode == OpCode::Text && decoder.message is None || header.opcode
            == OpCode::Continuation && decoder.message == Some(MessageKind::Text)) && header.len > 0
            && decoder.text.len() + header.len > rules.max_message_size ==> refuses(
            decoder,
            rules,
            ProtocolError::MessageTooLarge,
        ),
{
}

/// What a Close frame means once it has arrived: its status code and its reason, or neither. It is
/// refused if its payload is a single byte, its code must not appear on the wire, or its reason is
/// not valid text.
pub proof fn law_close_read(
    decoder: DecoderModel,
    rules: Rules,
    header: HeaderModel,
    n: int,
    payload: Seq<u8>,
)
    requires
        decoder.frame is Header,
        crate::frame::parsed(decoder.buf) == Ok::<Option<(HeaderModel, int)>, ProtocolError>(
            Some((header, n)),
        ),
        header.opcode == OpCode::Close,
        masked_as_due(rules, header),
        n + header.len <= decoder.buf.len(),
        payload.len() == header.len,
        forall|i: int|
            #![trigger payload[i]]
            0 <= i < payload.len() ==> payload[i] == match header.mask {
                Some(key) => decoder.buf[n + i] ^ key[i % 4],
                None => decoder.buf[n + i],
            },
    ensures
        if payload.len() == 0 {
            decoder.log(rules) == seq![Item::Close(None)]
        } else if payload.len() == 1 {
            refuses(decoder, rules, ProtocolError::InvalidClosePayload)
        } else {
            let code = (payload[0] * 256 + payload[1]) as u16;
            if !(1000 <= code < 5000) || 1003 < code < 1007 || 1014 < code < 3000 {
                refuses(decoder, rules, ProtocolError::InvalidCloseCode(code))
            } else if !vstd::utf8::valid_utf8(payload.skip(2)) {
                refuses(decoder, rules, ProtocolError::InvalidUtf8)
            } else {
                decoder.log(rules) == seq![
                    Item::Close(
                        Some(CloseModel { code: CloseCode(code), reason: payload.skip(2) }),
                    ),
                ]
            }
        },
{
    crate::frame::law_header_valid(decoder.buf);
    let wire = decoder.buf.subrange(n, n + header.len);
    assert(payload =~= crate::recv::unmasked(wire, header.mask, 0));
}

/// Text is refused as soon as it cannot become valid any more, and at the end of its message if it
/// is not valid.
pub proof fn law_text_violation(decoder: DecoderModel, rules: Rules, n: nat)
    requires
        decoder.wf(),
        decoder.frame.carries(MessageKind::Text),
        0 < n <= decoder.frame.left(),
        n <= decoder.buf.len(),
        ({
            let text = decoder.text + decoder.revealed(n);
            ||| forall|rest: Seq<u8>| !vstd::utf8::valid_utf8(#[trigger] (text + rest))
            ||| n == decoder.frame.left() && decoder.frame.ends() && !vstd::utf8::valid_utf8(text)
        }),
    ensures
        refuses(decoder, rules, ProtocolError::InvalidUtf8),
{
    let text = decoder.text + decoder.revealed(n);
    if n < decoder.frame.left() || !decoder.frame.ends() {
        crate::recv::log::lemma_text_taken(decoder, rules, n);
    } else {
        let k = (n - 1) as nat;
        decoder.lemma_taken_nothing();
        crate::recv::log::lemma_text_taken(decoder, rules, k);
        decoder.lemma_taken_split(k);
        decoder.lemma_taken_wf(k);
        let mid = decoder.text_taken(k);
        assert(mid.text_taken(1).text =~= text);
        assert(text + Seq::<u8>::empty() =~= text);
        if crate::utf8::scan::extendable(mid.text) {
            mid.lemma_step(rules);
        }
    }
}

} // verus!
