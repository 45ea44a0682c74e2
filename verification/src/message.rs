//! What a tunnel server and a tunnel client say to each other.

use vstd::prelude::*;

use crate::headers::{Field, Headers};
use crate::text;

verus! {

/// A message on the connection between server and client. A request is known by its id; a body
/// travels as base64 text, in as many chunks as it was read in.
#[derive(Debug, PartialEq, Eq)]
pub enum TunnelMessage {
    Register { token: String, name: Option<String> },
    Registered { subdomain: String },
    RequestStart { id: u128, method: String, path: String, headers: Headers },
    RequestChunk { id: u128, body: String },
    RequestEnd { id: u128 },
    ResponseStart { id: u128, status: u16, headers: Headers },
    ResponseChunk { id: u128, body: String },
    ResponseEnd { id: u128 },
    Error { message: String },
}

/// What a `TunnelMessage` says.
pub enum MessageView {
    Register { token: Seq<char>, name: Option<Seq<char>> },
    Registered { subdomain: Seq<char> },
    RequestStart { id: u128, method: Seq<char>, path: Seq<char>, headers: Seq<Field> },
    RequestChunk { id: u128, body: Seq<char> },
    RequestEnd { id: u128 },
    ResponseStart { id: u128, status: u16, headers: Seq<Field> },
    ResponseChunk { id: u128, body: Seq<char> },
    ResponseEnd { id: u128 },
    Error { message: Seq<char> },
}

impl View for TunnelMessage {
    type V = MessageView;

    open spec fn view(&self) -> MessageView {
        match *self {
            TunnelMessage::Register { token, name } => MessageView::Register {
                token: token@,
                name: text::optional(name),
            },
            TunnelMessage::Registered { subdomain } => MessageView::Registered {
                subdomain: subdomain@,
            },
            TunnelMessage::RequestStart { id, method, path, headers } => MessageView::RequestStart {
                id,
                method: method@,
                path: path@,
                headers: headers@,
            },
            TunnelMessage::RequestChunk { id, body } => MessageView::RequestChunk {
                id,
                body: body@,
            },
            TunnelMessage::RequestEnd { id } => MessageView::RequestEnd { id },
            TunnelMessage::ResponseStart { id, status, headers } => MessageView::ResponseStart {
                id,
                status,
                headers: headers@,
            },
            TunnelMessage::ResponseChunk { id, body } => MessageView::ResponseChunk {
                id,
                body: body@,
            },
            TunnelMessage::ResponseEnd { id } => MessageView::ResponseEnd { id },
            TunnelMessage::Error { message } => MessageView::Error { message: message@ },
        }
    }
}

/// A message that may be missing.
pub open spec fn optional_message(message: Option<TunnelMessage>) -> Option<MessageView> {
    match message {
        Some(message) => Some(message@),
        None => None,
    }
}

/// What messages say, one after the other.
pub open spec fn message_views(messages: Seq<TunnelMessage>) -> Seq<MessageView> {
    messages.map_values(|message: TunnelMessage| message@)
}

/// The messages among these deliveries that came on that channel.
pub open spec fn on_channel(delivered: Seq<(u64, MessageView)>, channel: u64) -> Seq<MessageView> {
    delivered.filter_map(
        |delivery: (u64, MessageView)|
            if delivery.0 == channel {
                Some(delivery.1)
            } else {
                None
            },
    )
}

impl MessageView {
    /// The request that a message of a response belongs to.
    pub open spec fn response_id(self) -> Option<u128> {
        match self {
            MessageView::ResponseStart { id, .. } => Some(id),
            MessageView::ResponseChunk { id, .. } => Some(id),
            MessageView::ResponseEnd { id } => Some(id),
            _ => None,
        }
    }

    /// The request that a piece of a request's body, or its end, belongs to.
    pub open spec fn request_body_id(self) -> Option<u128> {
        match self {
            MessageView::RequestChunk { id, .. } => Some(id),
            MessageView::RequestEnd { id } => Some(id),
            _ => None,
        }
    }
}

impl TunnelMessage {
    /// The request that a message of a response belongs to.
    pub fn response_id(&self) -> (id: Option<u128>)
        ensures
            id == self@.response_id(),
    {
        match self {
            TunnelMessage::ResponseStart { id, .. } => Some(*id),
            TunnelMessage::ResponseChunk { id, .. } => Some(*id),
            TunnelMessage::ResponseEnd { id } => Some(*id),
            _ => None,
        }
    }

    /// The request that a piece of a request's body, or its end, belongs to.
    pub fn request_body_id(&self) -> (id: Option<u128>)
        ensures
            id == self@.request_body_id(),
    {
        match self {
            TunnelMessage::RequestChunk { id, .. } => Some(*id),
            TunnelMessage::RequestEnd { id } => Some(*id),
            _ => None,
        }
    }
}

/// What came of reading the next frame of a connection.
#[derive(Debug, PartialEq, Eq)]
pub enum Incoming {
    /// A text frame that holds a message.
    Message(TunnelMessage),
    /// A text frame that holds none, and why.
    Undecodable(String),
    /// A frame that is not text.
    NonText,
    /// The connection failed, and why.
    Failed(String),
    /// The connection is closed.
    Closed,
}

/// What an `Incoming` says.
pub enum IncomingView {
    Message(MessageView),
    Undecodable(Seq<char>),
    NonText,
    Failed(Seq<char>),
    Closed,
}

impl View for Incoming {
    type V = IncomingView;

    open spec fn view(&self) -> IncomingView {
        match *self {
            Incoming::Message(message) => IncomingView::Message(message@),
            Incoming::Undecodable(reason) => IncomingView::Undecodable(reason@),
            Incoming::NonText => IncomingView::NonText,
            Incoming::Failed(reason) => IncomingView::Failed(reason@),
            Incoming::Closed => IncomingView::Closed,
        }
    }
}

/// A message of a response belongs to the request that it names, and so does a piece of a request's
/// body; no other message belongs to one.
pub proof fn law_belongs(id: u128, status: u16, headers: Seq<Field>, body: Seq<char>)
    ensures
        (MessageView::ResponseStart { id, status, headers }).response_id() == Some(id),
        (MessageView::ResponseChunk { id, body }).response_id() == Some(id),
        (MessageView::ResponseEnd { id }).response_id() == Some(id),
        (MessageView::RequestChunk { id, body }).request_body_id() == Some(id),
        (MessageView::RequestEnd { id }).request_body_id() == Some(id),
        forall|message: MessageView| #[trigger]
            message.response_id() is Some ==> message is ResponseStart || message is ResponseChunk
                || message is ResponseEnd,
        forall|message: MessageView| #[trigger]
            message.request_body_id() is Some ==> message is RequestChunk || message is RequestEnd,
{
}

/// What messages say is said one by one, in order.
pub proof fn law_message_views(messages: Seq<TunnelMessage>)
    ensures
        message_views(messages).len() == messages.len(),
        forall|i: int|
            0 <= i < messages.len() ==> #[trigger] message_views(messages)[i] == messages[i]@,
{
}

/// A message says each of the things that it holds, in full.
pub proof fn law_says(message: TunnelMessage)
    ensures
        message matches TunnelMessage::Register { token, name } ==> {
            &&& message@->Register_token == token@
            &&& name matches Some(given) ==> message@->Register_name == Some(given@)
            &&& name is None ==> message@->Register_name is None
            &&& message@ is Register
        },
        message matches TunnelMessage::Registered { subdomain } ==> message@
            == (MessageView::Registered { subdomain: subdomain@ }),
        message matches TunnelMessage::RequestStart { id, method, path, headers } ==> message@ == (
        MessageView::RequestStart { id, method: method@, path: path@, headers: headers@ }),
        message matches TunnelMessage::RequestChunk { id, body } ==> message@
            == (MessageView::RequestChunk { id, body: body@ }),
        message matches TunnelMessage::RequestEnd { id } ==> message@
            == (MessageView::RequestEnd { id }),
        message matches TunnelMessage::ResponseStart { id, status, headers } ==> message@ == (
        MessageView::ResponseStart { id, status, headers: headers@ }),
        message matches TunnelMessage::ResponseChunk { id, body } ==> message@
            == (MessageView::ResponseChunk { id, body: body@ }),
        message matches TunnelMessage::ResponseEnd { id } ==> message@
            == (MessageView::ResponseEnd { id }),
        message matches TunnelMessage::Error { message: words } ==> message@ == (
        MessageView::Error { message: words@ }),
        optional_message(Some(message)) == Some(message@),
        optional_message(None) is None,
{
}

/// What came of reading a frame says what it holds: the message, or the reason, in full.
pub proof fn law_incoming_says(incoming: Incoming)
    ensures
        incoming matches Incoming::Message(message) ==> incoming@ == IncomingView::Message(
            message@,
        ),
        incoming matches Incoming::Undecodable(reason) ==> incoming@ == IncomingView::Undecodable(
            reason@,
        ),
        incoming matches Incoming::Failed(reason) ==> incoming@ == IncomingView::Failed(reason@),
        incoming is NonText ==> incoming@ is NonText,
        incoming is Closed ==> incoming@ is Closed,
{
}

} // verus!
