//! Bodies on the connection: each chunk travels as base64 text.

use base64::engine::Engine;
use base64::prelude::BASE64_STANDARD;
use vstd::prelude::*;

use crate::message::{optional_message, MessageView, TunnelMessage};

verus! {

/// The base64 text of bytes.
pub uninterp spec fn base64_text(bytes: Seq<u8>) -> Seq<char>;

/// The bytes of a base64 text, if it is one.
pub uninterp spec fn base64_bytes(text: Seq<char>) -> Option<Seq<u8>>;

/// Whether bytes come back out of their base64 text. They do wherever `encode` has been applied.
pub open spec fn survives(bytes: Seq<u8>) -> bool {
    base64_bytes(base64_text(bytes)) == Some(bytes)
}

/// Whether the base64 text of that many bytes can be held in memory: four characters for every
/// three bytes, and no text is longer than `isize::MAX`.
pub open spec fn encodable(len: nat) -> bool {
    len <= isize::MAX / 4 * 3
}

/// Whether the base64 text of that many bytes can be held in memory.
pub fn is_encodable(len: usize) -> (res: bool)
    ensures
        res == encodable(len as nat),
{
    len <= (isize::MAX / 4 * 3) as usize
}

/// `Engine::encode` of `BASE64_STANDARD`: the base64 text of the bytes, from which
/// `Engine::decode` gets the same bytes back.
#[verifier::external_body]
pub(crate) fn encode(bytes: &[u8]) -> (text: String)
    requires
        encodable(bytes@.len()),
    ensures
        text@ == base64_text(bytes@),
        base64_bytes(text@) == Some(bytes@),
{
    BASE64_STANDARD.encode(bytes)
}

/// `Engine::decode` of `BASE64_STANDARD`: the bytes of a base64 text, and nothing of another text.
#[verifier::external_body]
pub(crate) fn decode(text: &String) -> (bytes: Option<Vec<u8>>)
    ensures
        optional_bytes(bytes) == base64_bytes(text@),
{
    BASE64_STANDARD.decode(text).ok()
}

/// Bytes that may be missing.
pub open spec fn optional_bytes(bytes: Option<Vec<u8>>) -> Option<Seq<u8>> {
    match bytes {
        Some(bytes) => Some(bytes@),
        None => None,
    }
}

/// What a message means for the body that is being put together.
#[derive(Debug, PartialEq, Eq)]
pub enum BodyStep {
    /// The next bytes of the body.
    Emit(Vec<u8>),
    /// Nothing.
    Skip,
    /// The body is complete.
    End,
}

/// What a `BodyStep` says.
pub enum BodyStepView {
    Emit(Seq<u8>),
    Skip,
    End,
}

impl View for BodyStep {
    type V = BodyStepView;

    open spec fn view(&self) -> BodyStepView {
        match *self {
            BodyStep::Emit(bytes) => BodyStepView::Emit(bytes@),
            BodyStep::Skip => BodyStepView::Skip,
            BodyStep::End => BodyStepView::End,
        }
    }
}

/// A chunk is the bytes of its text; one whose text is no base64 is passed over.
pub open spec fn chunk_step_of(decoded: Option<Seq<u8>>) -> BodyStepView {
    match decoded {
        Some(bytes) => BodyStepView::Emit(bytes),
        None => BodyStepView::Skip,
    }
}

/// What the next message means for the body of a request. Where no message comes any more, and at
/// the end of the request, the body is complete.
pub open spec fn request_body_step_of(message: Option<MessageView>) -> BodyStepView {
    match message {
        Some(MessageView::RequestChunk { body, .. }) => chunk_step_of(base64_bytes(body)),
        Some(MessageView::RequestEnd { .. }) => BodyStepView::End,
        Some(_) => BodyStepView::Skip,
        None => BodyStepView::End,
    }
}

/// What the next message means for the body of a response. Where no message comes any more, and at
/// the end of the response, the body is complete.
pub open spec fn response_body_step_of(message: Option<MessageView>) -> BodyStepView {
    match message {
        Some(MessageView::ResponseChunk { body, .. }) => chunk_step_of(base64_bytes(body)),
        Some(MessageView::ResponseEnd { .. }) => BodyStepView::End,
        Some(_) => BodyStepView::Skip,
        None => BodyStepView::End,
    }
}

/// What a chunk means for the body, given the bytes of its text.
pub fn chunk_step(decoded: Option<Vec<u8>>) -> (step: BodyStep)
    ensures
        step@ == chunk_step_of(optional_bytes(decoded)),
{
    match decoded {
        Some(bytes) => BodyStep::Emit(bytes),
        None => BodyStep::Skip,
    }
}

/// What the next message means for the body of a request.
pub fn request_body_step(message: Option<TunnelMessage>) -> (step: BodyStep)
    ensures
        step@ == request_body_step_of(optional_message(message)),
{
    match message {
        Some(TunnelMessage::RequestChunk { body, .. }) => chunk_step(decode(&body)),
        Some(TunnelMessage::RequestEnd { .. }) => BodyStep::End,
        Some(_) => BodyStep::Skip,
        None => BodyStep::End,
    }
}

/// What the next message means for the body of a response.
pub fn response_body_step(message: Option<TunnelMessage>) -> (step: BodyStep)
    ensures
        step@ == response_body_step_of(optional_message(message)),
{
    match message {
        Some(TunnelMessage::ResponseChunk { body, .. }) => chunk_step(decode(&body)),
        Some(TunnelMessage::ResponseEnd { .. }) => BodyStep::End,
        Some(_) => BodyStep::Skip,
        None => BodyStep::End,
    }
}

/// A chunk can be sent if and only if four characters for each three bytes that it begins come to
/// no more than the longest text.
pub proof fn law_encodable(len: nat)
    ensures
        encodable(len) <==> (len + 2) / 3 * 4 <= isize::MAX,
{
}

/// A chunk means exactly the bytes that its text decodes to, and nothing where it decodes to none;
/// the end of a body, or of the messages, ends it; every other message means nothing.
pub proof fn law_body_steps(id: u128, body: Seq<char>, message: MessageView)
    ensures
        base64_bytes(body) matches Some(bytes) ==> {
            &&& request_body_step_of(Some(MessageView::RequestChunk { id, body }))
                == BodyStepView::Emit(bytes)
            &&& response_body_step_of(Some(MessageView::ResponseChunk { id, body }))
                == BodyStepView::Emit(bytes)
        },
        base64_bytes(body) is None ==> {
            &&& request_body_step_of(Some(MessageView::RequestChunk { id, body }))
                == BodyStepView::Skip
            &&& response_body_step_of(Some(MessageView::ResponseChunk { id, body }))
                == BodyStepView::Skip
        },
        request_body_step_of(None) == BodyStepView::End,
        response_body_step_of(None) == BodyStepView::End,
        request_body_step_of(Some(message)) == BodyStepView::End <==> message is RequestEnd,
        response_body_step_of(Some(message)) == BodyStepView::End <==> message is ResponseEnd,
        request_body_step_of(Some(message)) is Emit ==> message is RequestChunk,
        response_body_step_of(Some(message)) is Emit ==> message is ResponseChunk,
{
}

/// Bytes that are there are read as they are, and a step that adds bytes adds those.
pub proof fn law_bytes_as_they_are(bytes: Vec<u8>)
    ensures
        optional_bytes(Some(bytes)) == Some(bytes@),
        optional_bytes(None) is None,
        BodyStep::Emit(bytes)@ == BodyStepView::Emit(bytes@),
        BodyStep::Skip@ == BodyStepView::Skip,
        BodyStep::End@ == BodyStepView::End,
{
}

} // verus!
