//! One HTTP request through a tunnel, as the server sees it: it is handed to the tunnel's client
//! piece by piece, and the client's reply is handed back in the same way.

use vstd::prelude::*;

use crate::body::{self, BodyStepView};
use crate::headers::{self, Field, Headers, RawField};
use crate::host;
use crate::ident::{is_random_id, random_id};
use crate::message::{optional_message, IncomingView, MessageView, TunnelMessage};
use crate::server::{AppState, SocketActionView, StateView};
use crate::text;

verus! {

/// How long a request waits for the start of its response, in seconds.
pub const REPLY_TIMEOUT_SECS: u64 = 30;

/// A request as it came in, without its body.
#[derive(Debug, PartialEq, Eq)]
pub struct HttpRequest {
    pub method: String,
    /// The path with the query, if the request names one.
    pub path: Option<String>,
    /// The header fields, with their names in small letters, as a header map gives them; those of
    /// one name stand in the order in which they came.
    pub headers: Vec<(String, Vec<u8>)>,
}

/// What an `HttpRequest` says.
pub struct RequestView {
    pub method: Seq<char>,
    pub path: Option<Seq<char>>,
    pub headers: Seq<RawField>,
}

impl View for HttpRequest {
    type V = RequestView;

    open spec fn view(&self) -> RequestView {
        RequestView {
            method: self.method@,
            path: text::optional(self.path),
            headers: headers::raw_fields_of(self.headers@),
        }
    }
}

/// An answer that the server gives by itself.
#[derive(Debug, PartialEq, Eq)]
pub struct HttpReply {
    pub status: u16,
    pub body: String,
}

/// What an `HttpReply` says.
pub struct ReplyView {
    pub status: u16,
    pub body: Seq<char>,
}

impl View for HttpReply {
    type V = ReplyView;

    open spec fn view(&self) -> ReplyView {
        ReplyView { status: self.status, body: self.body@ }
    }
}

/// How far a request has come.
#[derive(Clone, Copy, Debug, PartialEq, Eq, Structural)]
pub enum Stage {
    /// Its start is on the way to the tunnel.
    Opening,
    /// Its body is being read.
    Uploading,
    /// A chunk of its body is on the way to the tunnel.
    ChunkSent,
    /// Its end is on the way to the tunnel.
    Closing,
    /// It waits for the start of the response.
    Awaiting,
    /// The body of the response is being handed back.
    Streaming,
    /// It is over.
    Done,
}

/// A request that is on its way.
#[derive(Debug, PartialEq, Eq)]
pub struct Exchange {
    id: u128,
    stage: Stage,
}

/// What an `Exchange` holds.
pub struct ExchangeView {
    pub id: u128,
    pub stage: Stage,
}

impl View for Exchange {
    type V = ExchangeView;

    closed spec fn view(&self) -> ExchangeView {
        ExchangeView { id: self.id, stage: self.stage }
    }
}

/// What comes of a request at first.
#[derive(Debug, PartialEq, Eq)]
pub enum Opened {
    /// There is no tunnel for it.
    Answered(HttpReply),
    /// Its start goes out on the channel of its tunnel.
    Forwarded { exchange: Exchange, tunnel: u64, start: TunnelMessage },
}

/// What an `Opened` says.
pub enum OpenedView {
    Answered(ReplyView),
    Forwarded { exchange: ExchangeView, tunnel: u64, start: MessageView },
}

impl View for Opened {
    type V = OpenedView;

    open spec fn view(&self) -> OpenedView {
        match *self {
            Opened::Answered(reply) => OpenedView::Answered(reply@),
            Opened::Forwarded { exchange, tunnel, start } => OpenedView::Forwarded {
                exchange: exchange@,
                tunnel,
                start: start@,
            },
        }
    }
}

/// What happens to a request next.
#[derive(Debug, PartialEq, Eq)]
pub enum Event {
    /// A message was handed to the tunnel, or could not be.
    Sent(bool),
    /// The next chunk of its body was read; `None` where the body has ended or has failed.
    Body(Option<Vec<u8>>),
    /// The next message for it came from the tunnel; `None` where no more can come.
    Reply(Option<TunnelMessage>),
    /// It has waited for as long as it may.
    TimedOut,
}

/// What an `Event` says.
pub enum EventView {
    Sent(bool),
    Body(Option<Seq<u8>>),
    Reply(Option<MessageView>),
    TimedOut,
}

impl View for Event {
    type V = EventView;

    open spec fn view(&self) -> EventView {
        match *self {
            Event::Sent(taken) => EventView::Sent(taken),
            Event::Body(chunk) => EventView::Body(body::optional_bytes(chunk)),
            Event::Reply(message) => EventView::Reply(optional_message(message)),
            Event::TimedOut => EventView::TimedOut,
        }
    }
}

/// What the server does for a request next.
#[derive(Debug, PartialEq, Eq)]
pub enum Action {
    /// Reads the next chunk of its body.
    ReadBody,
    /// Hands a message to the tunnel.
    Send(TunnelMessage),
    /// Waits for the start of the response, for `REPLY_TIMEOUT_SECS` at most.
    AwaitReply,
    /// Answers it.
    Respond(HttpReply),
    /// Answers it with this head, and with the body that follows.
    StartResponse { status: u16, headers: Headers },
    /// Adds these bytes to the body of the answer.
    Emit(Vec<u8>),
    /// Waits for the next message, for as long as it takes.
    NextReply,
    /// Ends the body of the answer.
    Finish,
}

/// What an `Action` says.
pub enum ActionView {
    ReadBody,
    Send(MessageView),
    AwaitReply,
    Respond(ReplyView),
    StartResponse { status: u16, headers: Seq<Field> },
    Emit(Seq<u8>),
    NextReply,
    Finish,
}

impl View for Action {
    type V = ActionView;

    open spec fn view(&self) -> ActionView {
        match *self {
            Action::ReadBody => ActionView::ReadBody,
            Action::Send(message) => ActionView::Send(message@),
            Action::AwaitReply => ActionView::AwaitReply,
            Action::Respond(reply) => ActionView::Respond(reply@),
            Action::StartResponse { status, headers } => ActionView::StartResponse {
                status,
                headers: headers@,
            },
            Action::Emit(bytes) => ActionView::Emit(bytes@),
            Action::NextReply => ActionView::NextReply,
            Action::Finish => ActionView::Finish,
        }
    }
}

/// The answer to a request whose host names no tunnel.
pub open spec fn no_mapping_reply() -> ReplyView {
    ReplyView { status: 404, body: "Domain mapping not found"@ }
}

/// The answer to a request for a tunnel that is not there.
pub open spec fn offline_reply(subdomain: Seq<char>) -> ReplyView {
    ReplyView { status: 404, body: "Tunnel '"@ + subdomain + "' not found or offline"@ }
}

/// The answer to a request whose tunnel went away.
pub open spec fn lost_reply() -> ReplyView {
    ReplyView { status: 500, body: "Tunnel connection lost"@ }
}

/// The answer to a request whose client gave no start of a response.
pub open spec fn timeout_reply() -> ReplyView {
    ReplyView { status: 504, body: "Gateway Timeout: Client did not respond in time"@ }
}

/// The path that a request is forwarded under.
pub open spec fn path_or_root(path: Option<Seq<char>>) -> Seq<char> {
    text::given_or(path, "/"@)
}

/// The start of a request, as it goes to the client.
pub open spec fn start_of(id: u128, request: RequestView) -> MessageView {
    MessageView::RequestStart {
        id,
        method: request.method,
        path: path_or_root(request.path),
        headers: headers::gathered(request.headers),
    }
}

/// Whether a number is the status of an HTTP response.
pub open spec fn is_status(status: u16) -> bool {
    100 <= status < 1000
}

/// Whether a number is the status of an HTTP response.
pub fn valid_status(status: u16) -> (res: bool)
    ensures
        res == is_status(status),
{
    100 <= status && status < 1000
}

impl StateView {
    /// A request comes in: it goes to the tunnel of the subdomain that its host names, and waits
    /// on `channel` for the reply.
    pub open spec fn open(self, request: RequestView, channel: u64, id: u128) -> (
        StateView,
        OpenedView,
    ) {
        match host::subdomain_of(headers::host_text_of(request.headers), self.domain) {
            None => (self, OpenedView::Answered(no_mapping_reply())),
            Some(subdomain) => if self.tunnels.contains_key(subdomain) {
                (
                    self.with_pending(id, channel),
                    OpenedView::Forwarded {
                        exchange: ExchangeView { id, stage: Stage::Opening },
                        tunnel: self.tunnels[subdomain],
                        start: start_of(id, request),
                    },
                )
            } else {
                (self, OpenedView::Answered(offline_reply(subdomain)))
            },
        }
    }
}

impl ExchangeView {
    /// Whether that can happen to the request where it stands. A chunk is one that can be encoded;
    /// a response that starts has a status.
    pub open spec fn expects(self, event: EventView) -> bool {
        match (self.stage, event) {
            (Stage::Opening, EventView::Sent(_)) => true,
            (Stage::Uploading, EventView::Body(Some(chunk))) => body::encodable(chunk.len()),
            (Stage::Uploading, EventView::Body(None)) => true,
            (Stage::ChunkSent, EventView::Sent(_)) => true,
            (Stage::Closing, EventView::Sent(_)) => true,
            (
                Stage::Awaiting,
                EventView::Reply(Some(MessageView::ResponseStart { status, .. })),
            ) => is_status(status),
            (Stage::Awaiting, EventView::Reply(_)) => true,
            (Stage::Awaiting, EventView::TimedOut) => true,
            (Stage::Streaming, EventView::Reply(_)) => true,
            _ => false,
        }
    }

    /// The request one step on, and what the server does.
    pub open spec fn next(self, event: EventView) -> (Stage, ActionView) {
        let end = ActionView::Send(MessageView::RequestEnd { id: self.id });
        match (self.stage, event) {
            (Stage::Opening, EventView::Sent(true)) => (Stage::Uploading, ActionView::ReadBody),
            (Stage::Opening, _) => (Stage::Done, ActionView::Respond(lost_reply())),
            (Stage::Uploading, EventView::Body(Some(chunk))) => (
                Stage::ChunkSent,
                ActionView::Send(
                    MessageView::RequestChunk { id: self.id, body: body::base64_text(chunk) },
                ),
            ),
            (Stage::Uploading, _) => (Stage::Closing, end),
            (Stage::ChunkSent, EventView::Sent(true)) => (Stage::Uploading, ActionView::ReadBody),
            (Stage::ChunkSent, _) => (Stage::Closing, end),
            (Stage::Closing, _) => (Stage::Awaiting, ActionView::AwaitReply),
            (
                Stage::Awaiting,
                EventView::Reply(Some(MessageView::ResponseStart { status, headers, .. })),
            ) => (
                Stage::Streaming,
                ActionView::StartResponse { status, headers: headers::answerable(headers) },
            ),
            (Stage::Awaiting, _) => (Stage::Done, ActionView::Respond(timeout_reply())),
            (Stage::Streaming, EventView::Reply(message)) => match body::response_body_step_of(
                message,
            ) {
                BodyStepView::Emit(bytes) => (Stage::Streaming, ActionView::Emit(bytes)),
                BodyStepView::Skip => (Stage::Streaming, ActionView::NextReply),
                BodyStepView::End => (Stage::Done, ActionView::Finish),
            },
            (stage, _) => (stage, ActionView::Finish),
        }
    }

    /// The request one step on.
    pub open spec fn after(self, event: EventView) -> ExchangeView {
        ExchangeView { id: self.id, stage: self.next(event).0 }
    }
}

impl StateView {
    /// The state after that step of the request: one that is over waits no more.
    pub open spec fn settle(self, exchange: ExchangeView, event: EventView) -> StateView {
        if exchange.after(event).stage == Stage::Done {
            self.without_pending(exchange.id)
        } else {
            self
        }
    }
}

impl Exchange {
    /// The id of the request.
    pub fn id(&self) -> (id: u128)
        ensures
            id == self@.id,
    {
        self.id
    }

    /// How far the request has come.
    pub fn stage(&self) -> (stage: Stage)
        ensures
            stage == self@.stage,
    {
        self.stage
    }
}

impl AppState {
    /// A request comes in and is to have that id.
    pub fn open_with(&mut self, request: HttpRequest, channel: u64, id: u128) -> (opened: Opened)
        ensures
            (final(self)@, opened@) == old(self)@.open(request@, channel, id),
    {
        let host = headers::host_text(&request.headers);
        let subdomain = match host::subdomain(&host, self.domain()) {
            Some(subdomain) => subdomain,
            None => {
                return Opened::Answered(
                    HttpReply { status: 404, body: "Domain mapping not found".to_owned() },
                );
            },
        };
        let tunnel = match self.tunnel(&subdomain) {
            Some(tunnel) => tunnel,
            None => {
                let body = "Tunnel '".to_owned().concat(subdomain.as_str()).concat(
                    "' not found or offline",
                );
                return Opened::Answered(HttpReply { status: 404, body });
            },
        };
        self.add_pending(id, channel);
        let start = TunnelMessage::RequestStart {
            id,
            method: request.method,
            path: text::or_default(request.path, "/"),
            headers: headers::gather(&request.headers),
        };
        Opened::Forwarded { exchange: Exchange { id, stage: Stage::Opening }, tunnel, start }
    }

    /// A request comes in; its id is one by chance, under which no other request waits (unless one
    /// waits under every id).
    pub fn open(&mut self, request: HttpRequest, channel: u64) -> (opened: Opened)
        ensures
            exists|id: u128| #[trigger]
                is_random_id(id) && (final(self)@, opened@) == old(self)@.open(
                    request@,
                    channel,
                    id,
                ),
            opened@ is Answered ==> final(self)@ == old(self)@,
            opened@ matches OpenedView::Forwarded { exchange, .. } ==> {
                &&& is_random_id(exchange.id)
                &&& final(self)@.pending.contains_key(exchange.id)
                &&& final(self)@.pending[exchange.id] == channel
                &&& (exists|id: u128| #[trigger]
                    is_random_id(id) && !old(self)@.pending.contains_key(id)) ==> {
                    &&& !old(self)@.pending.contains_key(exchange.id)
                    &&& old(self)@.pending.submap_of(final(self)@.pending)
                }
            },
    {
        let drawn = random_id();
        let id = self.free_id(drawn);
        self.open_with(request, channel, id)
    }

    /// Something happens to a request that is on its way.
    pub fn advance(&mut self, exchange: &mut Exchange, event: Event) -> (action: Action)
        requires
            old(exchange)@.expects(event@),
        ensures
            final(exchange)@ == old(exchange)@.after(event@),
            action@ == old(exchange)@.next(event@).1,
            final(self)@ == old(self)@.settle(old(exchange)@, event@),
            event@ matches EventView::Body(Some(chunk)) ==> body::survives(chunk),
    {
        match (exchange.stage, event) {
            (Stage::Opening, Event::Sent(taken)) => {
                if taken {
                    exchange.stage = Stage::Uploading;
                    Action::ReadBody
                } else {
                    exchange.stage = Stage::Done;
                    self.drop_pending(exchange.id);
                    Action::Respond(
                        HttpReply { status: 500, body: "Tunnel connection lost".to_owned() },
                    )
                }
            },
            (Stage::Uploading, Event::Body(Some(chunk))) => {
                exchange.stage = Stage::ChunkSent;
                let body = body::encode(chunk.as_slice());
                Action::Send(TunnelMessage::RequestChunk { id: exchange.id, body })
            },
            (Stage::ChunkSent, Event::Sent(true)) => {
                exchange.stage = Stage::Uploading;
                Action::ReadBody
            },
            (Stage::Uploading, _) | (Stage::ChunkSent, _) => {
                exchange.stage = Stage::Closing;
                Action::Send(TunnelMessage::RequestEnd { id: exchange.id })
            },
            (Stage::Closing, _) => {
                exchange.stage = Stage::Awaiting;
                Action::AwaitReply
            },
            (
                Stage::Awaiting,
                Event::Reply(Some(TunnelMessage::ResponseStart { status, headers, .. })),
            ) => {
                exchange.stage = Stage::Streaming;
                let headers = headers::answer_fields(&headers);
                Action::StartResponse { status, headers }
            },
            (Stage::Awaiting, _) => {
                exchange.stage = Stage::Done;
                self.drop_pending(exchange.id);
                Action::Respond(
                    HttpReply {
                        status: 504,
                        body: "Gateway Timeout: Client did not respond in time".to_owned(),
                    },
                )
            },
            (Stage::Streaming, Event::Reply(message)) => match body::response_body_step(message) {
                body::BodyStep::Emit(bytes) => Action::Emit(bytes),
                body::BodyStep::Skip => Action::NextReply,
                body::BodyStep::End => {
                    exchange.stage = Stage::Done;
                    self.drop_pending(exchange.id);
                    Action::Finish
                },
            },
            (_, _) => Action::Finish,
        }
    }
}

/// What the server answers by itself, in words.
pub proof fn law_own_replies(subdomain: Seq<char>)
    ensures
        no_mapping_reply() == (ReplyView { status: 404, body: "Domain mapping not found"@ }),
        offline_reply(subdomain) == (ReplyView {
            status: 404,
            body: "Tunnel '"@ + subdomain + "' not found or offline"@,
        }),
        lost_reply() == (ReplyView { status: 500, body: "Tunnel connection lost"@ }),
        timeout_reply() == (ReplyView {
            status: 504,
            body: "Gateway Timeout: Client did not respond in time"@,
        }),
{
}

/// The client is told the request as it came: its method, its path in full with the query, or the
/// root where it has none, and the fields that came in.
pub proof fn law_start(id: u128, request: RequestView)
    ensures
        start_of(id, request) matches MessageView::RequestStart {
            id: said,
            method,
            path,
            headers,
        } && {
            &&& said == id
            &&& method == request.method
            &&& request.path matches Some(given) ==> path == given
            &&& request.path is None ==> path == "/"@
            &&& headers == headers::gathered(request.headers)
        },
{
}

/// The statuses of HTTP are the numbers of three digits from one hundred on.
pub proof fn law_statuses(status: u16)
    ensures
        is_status(status) <==> 100 <= status <= 999,
{
}

/// Two requests that wait at once, under ids of their own, wait each on its own channel: whatever
/// is sent for the one goes to its channel, and whatever is sent for the other goes to the other.
pub proof fn law_two_requests(
    state: StateView,
    one: RequestView,
    first: u64,
    id: u128,
    other: RequestView,
    second: u64,
    other_id: u128,
    message: MessageView,
)
    requires
        state.open(one, first, id).1 is Forwarded,
        state.open(one, first, id).0.open(other, second, other_id).1 is Forwarded,
        !state.open(one, first, id).0.pending.contains_key(other_id),
    ensures
        ({
            let after = state.open(one, first, id).0.open(other, second, other_id).0;
            &&& id != other_id
            &&& after.pending.contains_key(id) && after.pending[id] == first
            &&& after.pending.contains_key(other_id) && after.pending[other_id] == second
            &&& message.response_id() == Some(id) ==> after.route(IncomingView::Message(message))
                == (SocketActionView::Deliver { channel: first, message })
            &&& message.response_id() == Some(other_id) ==> after.route(
                IncomingView::Message(message),
            ) == (SocketActionView::Deliver { channel: second, message })
        }),
{
}

/// A request that is opened touches no other: whatever else waits does so on its own channel, and
/// every tunnel and the settings stay.
pub proof fn law_others_wait(
    state: StateView,
    request: RequestView,
    channel: u64,
    id: u128,
    other: u128,
)
    requires
        other != id,
    ensures
        ({
            let after = state.open(request, channel, id).0;
            &&& after.pending.contains_key(other) <==> state.pending.contains_key(other)
            &&& state.pending.contains_key(other) ==> after.pending[other] == state.pending[other]
            &&& after.tunnels == state.tunnels
            &&& after.token == state.token
            &&& after.domain == state.domain
        }),
{
}

/// What is sent for a step of a request belongs to that request, and says what was read: the bytes
/// as their base64 text, or that the body has ended.
pub proof fn law_upload_step(id: u128, chunk: Seq<u8>, taken: bool)
    ensures
        ({
            let opening = ExchangeView { id, stage: Stage::Opening };
            let uploading = ExchangeView { id, stage: Stage::Uploading };
            let sent = ExchangeView { id, stage: Stage::ChunkSent };
            let closing = ExchangeView { id, stage: Stage::Closing };
            let end = ActionView::Send(MessageView::RequestEnd { id });
            &&& opening.expects(EventView::Sent(taken))
            &&& opening.next(EventView::Sent(true)) == (Stage::Uploading, ActionView::ReadBody)
            &&& (chunk.len() + 2) / 3 * 4 <= isize::MAX ==> uploading.expects(
                EventView::Body(Some(chunk)),
            )
            &&& uploading.next(EventView::Body(Some(chunk))) == (
                Stage::ChunkSent,
                ActionView::Send(
                    MessageView::RequestChunk { id, body: body::base64_text(chunk) },
                ),
            )
            &&& uploading.expects(EventView::Body(None))
            &&& uploading.next(EventView::Body(None)) == (Stage::Closing, end)
            &&& sent.expects(EventView::Sent(taken))
            &&& sent.next(EventView::Sent(true)) == (Stage::Uploading, ActionView::ReadBody)
            &&& sent.next(EventView::Sent(false)) == (Stage::Closing, end)
            &&& closing.expects(EventView::Sent(taken))
            &&& closing.next(EventView::Sent(taken)) == (Stage::Awaiting, ActionView::AwaitReply)
        }),
{
    body::law_encodable(chunk.len());
}

/// A response that starts with a status of HTTP is answered with that status, and every message
/// that follows is taken; one that is the end, or that comes no more, ends the answer.
pub proof fn law_response_step(
    id: u128,
    of: u128,
    status: u16,
    fields: Seq<Field>,
    message: Option<MessageView>,
)
    ensures
        ({
            let awaiting = ExchangeView { id, stage: Stage::Awaiting };
            let streaming = ExchangeView { id, stage: Stage::Streaming };
            let start = EventView::Reply(
                Some(MessageView::ResponseStart { id: of, status, headers: fields }),
            );
            &&& 100 <= status <= 999 ==> awaiting.expects(start)
            &&& awaiting.next(start) == (
                Stage::Streaming,
                ActionView::StartResponse { status, headers: headers::answerable(fields) },
            )
            &&& awaiting.expects(EventView::TimedOut)
            &&& streaming.expects(EventView::Reply(message))
            &&& message is None || message->0 is ResponseEnd ==> streaming.next(
                EventView::Reply(message),
            ) == (Stage::Done, ActionView::Finish)
            &&& message is Some && !(message->0 is ResponseEnd) ==> streaming.next(
                EventView::Reply(message),
            ).0 == Stage::Streaming
        }),
{
}

/// A request says its method, its path and its fields, each in full and the fields in order.
pub proof fn law_request_says(request: HttpRequest)
    ensures
        request@.method == request.method@,
        request.path matches Some(path) ==> request@.path == Some(path@),
        request.path is None ==> request@.path is None,
        request@.headers.len() == request.headers@.len(),
        forall|i: int|
            0 <= i < request.headers@.len() ==> {
                &&& (#[trigger] request@.headers[i]).0 == request.headers@[i].0@
                &&& request@.headers[i].1 == request.headers@[i].1@
            },
{
    headers::law_fields_as_they_are(request.headers@, Seq::empty());
}

/// What comes of a request, what happens to it and what is done for it say what they hold, in full.
pub proof fn law_steps_say(
    reply: HttpReply,
    exchange: Exchange,
    tunnel: u64,
    message: TunnelMessage,
    bytes: Vec<u8>,
    taken: bool,
    status: u16,
    headers: Headers,
)
    ensures
        reply@.status == reply.status,
        reply@.body == reply.body@,
        Opened::Answered(reply)@ == OpenedView::Answered(reply@),
        (Opened::Forwarded { exchange, tunnel, start: message })@ == (OpenedView::Forwarded {
            exchange: exchange@,
            tunnel,
            start: message@,
        }),
        Event::Sent(taken)@ == EventView::Sent(taken),
        Event::Body(Some(bytes))@ == EventView::Body(Some(bytes@)),
        Event::Body(None)@ == EventView::Body(None),
        Event::Reply(Some(message))@ == EventView::Reply(Some(message@)),
        Event::Reply(None)@ == EventView::Reply(None),
        Event::TimedOut@ == EventView::TimedOut,
        Action::ReadBody@ == ActionView::ReadBody,
        Action::Send(message)@ == ActionView::Send(message@),
        Action::AwaitReply@ == ActionView::AwaitReply,
        Action::Respond(reply)@ == ActionView::Respond(reply@),
        (Action::StartResponse { status, headers })@ == (ActionView::StartResponse {
            status,
            headers: headers@,
        }),
        Action::Emit(bytes)@ == ActionView::Emit(bytes@),
        Action::NextReply@ == ActionView::NextReply,
        Action::Finish@ == ActionView::Finish,
{
}

} // verus!
