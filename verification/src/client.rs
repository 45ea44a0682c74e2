//! The client's side of a tunnel: what it does with the requests that come through, and what it
//! sends back for them.

use std::collections::hash_map::RandomState;

use dashmap::DashMap;
use url::Url;
use vstd::prelude::*;

use crate::body;
use crate::decimal;
use crate::headers::{self, Field, Headers, RawField};
use crate::message::{message_views, Incoming, IncomingView, MessageView, TunnelMessage};
use crate::table;
use crate::text;

verus! {

/// What can be read of a server's URL: the host that it names, if it names one, or why it is none.
pub uninterp spec fn url_host_of(server: Seq<char>) -> Result<Option<Seq<char>>, Seq<char>>;

/// A host that was read, or why none could be.
pub open spec fn host_result(host: Result<Option<String>, String>) -> Result<
    Option<Seq<char>>,
    Seq<char>,
> {
    match host {
        Ok(host) => Ok(text::optional(host)),
        Err(reason) => Err(reason@),
    }
}

/// `Url::parse`, and `Url::host_str` of what it gives: the host that the URL names, if it names
/// one; where the text is no URL, the words of the error.
#[verifier::external_body]
pub(crate) fn url_host(server: &String) -> (host: Result<Option<String>, String>)
    ensures
        host_result(host) == url_host_of(server@),
{
    match Url::parse(server) {
        Ok(url) => Ok(url.host_str().map(|host| host.to_string())),
        Err(error) => Err(error.to_string()),
    }
}

/// One connection of a client to its server.
pub struct Client {
    server: String,
    port: u16,
    pending_requests: DashMap<u128, u64, RandomState>,
}

/// What a `Client` holds: the URL of its server, the port of the local server, and for each
/// request that is being forwarded the channel on which it takes its body.
pub struct ClientView {
    pub server: Seq<char>,
    pub port: u16,
    pub pending: Map<u128, u64>,
}

impl View for Client {
    type V = ClientView;

    closed spec fn view(&self) -> ClientView {
        ClientView {
            server: self.server@,
            port: self.port,
            pending: table::numbered_channels(self.pending_requests),
        }
    }
}

/// How far the answer to a forwarded request has come.
#[derive(Clone, Copy, Debug, PartialEq, Eq, Structural)]
pub enum RelayStage {
    /// The local server has not answered yet.
    Waiting,
    /// The body of its answer is being read.
    Streaming,
    /// The answer is complete.
    Done,
}

/// The answer to a forwarded request, on its way back.
#[derive(Debug, PartialEq, Eq)]
pub struct Relay {
    id: u128,
    stage: RelayStage,
}

/// What a `Relay` holds.
pub struct RelayView {
    pub id: u128,
    pub stage: RelayStage,
}

impl View for Relay {
    type V = RelayView;

    closed spec fn view(&self) -> RelayView {
        RelayView { id: self.id, stage: self.stage }
    }
}

/// A request to the local server; its body comes on the channel that was set up for it.
#[derive(Debug, PartialEq, Eq)]
pub struct LocalRequest {
    pub relay: Relay,
    pub method: String,
    pub url: String,
    pub headers: Headers,
}

/// What a `LocalRequest` says.
pub struct LocalRequestView {
    pub relay: RelayView,
    pub method: Seq<char>,
    pub url: Seq<char>,
    pub headers: Seq<Field>,
}

impl View for LocalRequest {
    type V = LocalRequestView;

    open spec fn view(&self) -> LocalRequestView {
        LocalRequestView {
            relay: self.relay@,
            method: self.method@,
            url: self.url@,
            headers: self.headers@,
        }
    }
}

/// What a client does with a frame of its connection.
#[derive(Debug, PartialEq, Eq)]
pub enum ClientAction {
    /// Tells the user where the tunnel is reached.
    Announce { subdomain: String, public_url: String },
    /// Sends a request to the local server. Where one with the same id was still being forwarded,
    /// that one gets no more of its body: its channel is `replaced`, and is closed.
    Forward { request: LocalRequest, replaced: Option<u64> },
    /// Hands the message to the request that takes its body on that channel.
    Deliver { channel: u64, message: TunnelMessage },
    /// Notes that a server does not send such a message.
    Unexpected(TunnelMessage),
    /// Nothing.
    Skip,
    /// Gives the connection up, for that reason.
    Fail(String),
    /// Ends, as the connection has.
    Finish,
}

/// What a `ClientAction` says.
pub enum ClientActionView {
    Announce { subdomain: Seq<char>, public_url: Seq<char> },
    Forward { request: LocalRequestView, replaced: Option<u64> },
    Deliver { channel: u64, message: MessageView },
    Unexpected(MessageView),
    Skip,
    Fail(Seq<char>),
    Finish,
}

impl View for ClientAction {
    type V = ClientActionView;

    open spec fn view(&self) -> ClientActionView {
        match *self {
            ClientAction::Announce { subdomain, public_url } => ClientActionView::Announce {
                subdomain: subdomain@,
                public_url: public_url@,
            },
            ClientAction::Forward { request, replaced } => ClientActionView::Forward {
                request: request@,
                replaced,
            },
            ClientAction::Deliver { channel, message } => ClientActionView::Deliver {
                channel,
                message: message@,
            },
            ClientAction::Unexpected(message) => ClientActionView::Unexpected(message@),
            ClientAction::Skip => ClientActionView::Skip,
            ClientAction::Fail(reason) => ClientActionView::Fail(reason@),
            ClientAction::Finish => ClientActionView::Finish,
        }
    }
}

/// What comes of a request to the local server.
#[derive(Debug, PartialEq, Eq)]
pub enum LocalEvent {
    /// It answers with this head.
    Answered { status: u16, headers: Vec<(String, Vec<u8>)> },
    /// It cannot be reached.
    Unreachable,
    /// The next chunk of its answer was read; `None` where the body has ended or has failed.
    Body(Option<Vec<u8>>),
}

/// What a `LocalEvent` says.
pub enum LocalEventView {
    Answered { status: u16, headers: Seq<RawField> },
    Unreachable,
    Body(Option<Seq<u8>>),
}

impl View for LocalEvent {
    type V = LocalEventView;

    open spec fn view(&self) -> LocalEventView {
        match *self {
            LocalEvent::Answered { status, headers } => LocalEventView::Answered {
                status,
                headers: headers::raw_fields_of(headers@),
            },
            LocalEvent::Unreachable => LocalEventView::Unreachable,
            LocalEvent::Body(chunk) => LocalEventView::Body(body::optional_bytes(chunk)),
        }
    }
}

/// What a client does for a step of an answer.
#[derive(Debug, PartialEq, Eq)]
pub struct Relayed {
    /// The messages that go to the server, in order.
    pub messages: Vec<TunnelMessage>,
    /// The channel that is closed.
    pub released: Option<u64>,
}

/// Where a tunnel is reached, given the host of its server's URL.
pub open spec fn public_url_of(subdomain: Seq<char>, host: Option<Seq<char>>) -> Seq<char> {
    "https://"@ + subdomain + "."@ + text::given_or(host, "yourdomain.com"@)
}

/// What a client does when its tunnel stands, given what could be read of its server's URL.
pub open spec fn announcement(
    subdomain: Seq<char>,
    host: Result<Option<Seq<char>>, Seq<char>>,
) -> ClientActionView {
    match host {
        Ok(host) => ClientActionView::Announce {
            subdomain,
            public_url: public_url_of(subdomain, host),
        },
        Err(reason) => ClientActionView::Fail(reason),
    }
}

/// The URL on the local server that a request for that path goes to.
pub open spec fn local_url_of(port: u16, path: Seq<char>) -> Seq<char> {
    "http://localhost:"@ + decimal::digits(port as nat) + path
}

/// What a client answers where the local server cannot be reached: its bytes.
pub open spec fn bad_gateway_bytes() -> Seq<u8> {
    vstd::utf8::encode_utf8("Bad Gateway"@)
}

impl ClientView {
    /// A frame of the connection, where `channel` is the one that a new request would take its body
    /// on, and `host` what can be read of the server's URL.
    pub open spec fn receive(
        self,
        incoming: IncomingView,
        channel: u64,
        host: Result<Option<Seq<char>>, Seq<char>>,
    ) -> (ClientView, ClientActionView) {
        match incoming {
            IncomingView::Message(MessageView::Registered { subdomain }) => (
                self,
                announcement(subdomain, host),
            ),
            IncomingView::Message(MessageView::RequestStart { id, method, path, headers }) => (
                ClientView { pending: self.pending.insert(id, channel), ..self },
                ClientActionView::Forward {
                    request: LocalRequestView {
                        relay: RelayView { id, stage: RelayStage::Waiting },
                        method,
                        url: local_url_of(self.port, path),
                        headers: headers::without_host_of(headers),
                    },
                    replaced: table::channel_of(self.pending, id),
                },
            ),
            IncomingView::Message(MessageView::Error { message }) => (
                self,
                ClientActionView::Fail(message),
            ),
            IncomingView::Message(message) => match message.request_body_id() {
                Some(id) => if self.pending.contains_key(id) {
                    (self, ClientActionView::Deliver { channel: self.pending[id], message })
                } else {
                    (self, ClientActionView::Skip)
                },
                None => (self, ClientActionView::Unexpected(message)),
            },
            IncomingView::Undecodable(reason) => (self, ClientActionView::Fail(reason)),
            IncomingView::NonText => (self, ClientActionView::Skip),
            IncomingView::Failed(reason) => (self, ClientActionView::Fail(reason)),
            IncomingView::Closed => (self, ClientActionView::Finish),
        }
    }

    /// The channel that is closed in that step of an answer: with the answer complete, nothing
    /// takes the body of its request any more.
    pub open spec fn released(self, relay: RelayView, event: LocalEventView) -> Option<u64> {
        if relay.after(event).stage == RelayStage::Done {
            table::channel_of(self.pending, relay.id)
        } else {
            None
        }
    }

    /// The client once that step of an answer has been taken: a request whose answer is complete
    /// is forwarded no more.
    pub open spec fn settle(self, relay: RelayView, event: LocalEventView) -> ClientView {
        if relay.after(event).stage == RelayStage::Done {
            ClientView { pending: self.pending.remove(relay.id), ..self }
        } else {
            self
        }
    }
}

impl RelayView {
    /// Whether that can come of the request where its answer stands. A chunk is one that can be
    /// encoded.
    pub open spec fn expects(self, event: LocalEventView) -> bool {
        match (self.stage, event) {
            (RelayStage::Waiting, LocalEventView::Answered { .. }) => true,
            (RelayStage::Waiting, LocalEventView::Unreachable) => true,
            (RelayStage::Streaming, LocalEventView::Body(Some(chunk))) => body::encodable(
                chunk.len(),
            ),
            (RelayStage::Streaming, LocalEventView::Body(None)) => true,
            _ => false,
        }
    }

    /// The answer one step on, and the messages that go to the server for it.
    pub open spec fn next(self, event: LocalEventView) -> (RelayStage, Seq<MessageView>) {
        let id = self.id;
        match event {
            LocalEventView::Answered { status, headers } => (
                RelayStage::Streaming,
                seq![
                    MessageView::ResponseStart { id, status, headers: headers::gathered(headers) },
                ],
            ),
            LocalEventView::Unreachable => (
                RelayStage::Done,
                seq![
                    MessageView::ResponseStart { id, status: 502, headers: Seq::<Field>::empty() },
                    MessageView::ResponseChunk { id, body: body::base64_text(bad_gateway_bytes()) },
                    MessageView::ResponseEnd { id },
                ],
            ),
            LocalEventView::Body(Some(chunk)) => (
                RelayStage::Streaming,
                seq![MessageView::ResponseChunk { id, body: body::base64_text(chunk) }],
            ),
            LocalEventView::Body(None) => (
                RelayStage::Done,
                seq![MessageView::ResponseEnd { id }],
            ),
        }
    }

    /// The answer one step on.
    pub open spec fn after(self, event: LocalEventView) -> RelayView {
        RelayView { id: self.id, stage: self.next(event).0 }
    }

    /// The bytes that travel as text in that step.
    pub open spec fn encoded(self, event: LocalEventView) -> Option<Seq<u8>> {
        match event {
            LocalEventView::Unreachable => Some(bad_gateway_bytes()),
            LocalEventView::Body(chunk) => chunk,
            _ => None,
        }
    }
}

/// A client, or why there is none.
pub open spec fn connected(client: Result<Client, String>) -> Result<ClientView, Seq<char>> {
    match client {
        Ok(client) => Ok(client@),
        Err(reason) => Err(reason@),
    }
}

/// A client with no requests yet, where its server's URL can be read.
pub open spec fn connection(
    server: Seq<char>,
    port: u16,
    host: Result<Option<Seq<char>>, Seq<char>>,
) -> Result<ClientView, Seq<char>> {
    match host {
        Ok(_) => Ok(ClientView { server, port, pending: Map::empty() }),
        Err(reason) => Err(reason),
    }
}

/// The message with which a client asks for its tunnel.
pub fn register(token: String, name: Option<String>) -> (message: TunnelMessage)
    ensures
        message@ == (MessageView::Register { token: token@, name: text::optional(name) }),
{
    TunnelMessage::Register { token, name }
}

/// Where a tunnel is reached, given the host of its server's URL.
pub fn public_url(subdomain: &String, host: Option<String>) -> (url: String)
    ensures
        url@ == public_url_of(subdomain@, text::optional(host)),
{
    let domain = text::or_default(host, "yourdomain.com");
    "https://".to_owned().concat(subdomain.as_str()).concat(".").concat(domain.as_str())
}

/// What a client does when its tunnel stands, given what could be read of its server's URL.
pub fn announce(subdomain: String, host: Result<Option<String>, String>) -> (action: ClientAction)
    ensures
        action@ == announcement(subdomain@, host_result(host)),
{
    match host {
        Ok(host) => {
            let public_url = public_url(&subdomain, host);
            ClientAction::Announce { subdomain, public_url }
        },
        Err(reason) => ClientAction::Fail(reason),
    }
}

/// The URL on the local server that a request for that path goes to.
pub fn local_url(port: u16, path: &String) -> (url: String)
    ensures
        url@ == local_url_of(port, path@),
        url@ == "http://localhost:"@ + decimal::digits(port as nat) + path@,
{
    let digits = decimal::write_port(port);
    "http://localhost:".to_owned().concat(digits.as_str()).concat(path.as_str())
}

impl Relay {
    /// The id of the request.
    pub fn id(&self) -> (id: u128)
        ensures
            id == self@.id,
    {
        self.id
    }

    /// How far the answer has come.
    pub fn stage(&self) -> (stage: RelayStage)
        ensures
            stage == self@.stage,
    {
        self.stage
    }
}

impl Client {
    /// A client of the server at that URL, with no requests yet, given what can be read of the URL;
    /// the reason where it is none.
    pub fn with_host(server: String, port: u16, host: Result<Option<String>, String>) -> (client:
        Result<Client, String>)
        ensures
            connected(client) == connection(server@, port, host_result(host)),
            client is Ok <==> host is Ok,
            client matches Ok(made) ==> {
                &&& made@.server == server@
                &&& made@.port == port
                &&& forall|id: u128| !made@.pending.contains_key(id)
            },
    {
        match host {
            Ok(_) => Ok(Client { server, port, pending_requests: table::new_numbered() }),
            Err(reason) => Err(reason),
        }
    }

    /// A client of the server at that URL, with no requests yet; the reason where the URL is none.
    pub fn new(server: String, port: u16) -> (client: Result<Client, String>)
        ensures
            connected(client) == connection(server@, port, url_host_of(server@)),
            client is Ok <==> url_host_of(server@) is Ok,
            client matches Ok(made) ==> {
                &&& made@.server == server@
                &&& made@.port == port
                &&& forall|id: u128| !made@.pending.contains_key(id)
            },
    {
        let host = url_host(&server);
        Client::with_host(server, port, host)
    }

    /// A frame of the connection, where `channel` is the one that a new request would take its body
    /// on.
    pub fn receive(&mut self, incoming: Incoming, channel: u64) -> (action: ClientAction)
        ensures
            (final(self)@, action@) == old(self)@.receive(
                incoming@,
                channel,
                url_host_of(old(self)@.server),
            ),
            incoming@ matches IncomingView::Message(MessageView::RequestStart { headers, .. })
                ==> forall|i: int|
                0 <= i < headers.len() && text::all_ascii((#[trigger] headers[i]).0) ==> (
                headers::passes_on(text::lowercase(headers[i].0)) <==> headers[i].0.map_values(
                    |c: char| text::ascii_lower(c),
                ) != "host"@),
    {
        match incoming {
            Incoming::Message(TunnelMessage::Registered { subdomain }) => announce(
                subdomain,
                url_host(&self.server),
            ),
            Incoming::Message(TunnelMessage::RequestStart { id, method, path, headers }) => {
                let replaced = table::numbered_insert(&mut self.pending_requests, id, channel);
                let request = LocalRequest {
                    relay: Relay { id, stage: RelayStage::Waiting },
                    method,
                    url: local_url(self.port, &path),
                    headers: headers::without_host(&headers),
                };
                ClientAction::Forward { request, replaced }
            },
            Incoming::Message(TunnelMessage::Error { message }) => ClientAction::Fail(message),
            Incoming::Message(message) => match message.request_body_id() {
                Some(id) => match table::numbered_get(&self.pending_requests, id) {
                    Some(channel) => ClientAction::Deliver { channel, message },
                    None => ClientAction::Skip,
                },
                None => ClientAction::Unexpected(message),
            },
            Incoming::Undecodable(reason) => ClientAction::Fail(reason),
            Incoming::NonText => ClientAction::Skip,
            Incoming::Failed(reason) => ClientAction::Fail(reason),
            Incoming::Closed => ClientAction::Finish,
        }
    }

    /// Something comes of a request to the local server: the messages that go to the tunnel's
    /// server for it, and the channel that is closed.
    pub fn relay(&mut self, relay: &mut Relay, event: LocalEvent) -> (relayed: Relayed)
        requires
            old(relay)@.expects(event@),
        ensures
            final(relay)@ == old(relay)@.after(event@),
            message_views(relayed.messages@) == old(relay)@.next(event@).1,
            relayed.released == old(self)@.released(old(relay)@, event@),
            final(self)@ == old(self)@.settle(old(relay)@, event@),
            old(relay)@.encoded(event@) matches Some(chunk) ==> body::survives(chunk),
    {
        let id = relay.id;
        let mut messages: Vec<TunnelMessage> = Vec::new();
        let mut released: Option<u64> = None;
        match event {
            LocalEvent::Answered { status, headers } => {
                let headers = headers::gather(&headers);
                messages.push(TunnelMessage::ResponseStart { id, status, headers });
                relay.stage = RelayStage::Streaming;
            },
            LocalEvent::Unreachable => {
                messages.push(
                    TunnelMessage::ResponseStart { id, status: 502, headers: Headers::new() },
                );
                proof {
                    reveal_strlit("Bad Gateway");
                    assert(vstd::utf8::is_ascii_chars("Bad Gateway"@));
                    vstd::utf8::is_ascii_chars_encode_utf8("Bad Gateway"@);
                }
                let body = body::encode("Bad Gateway".as_bytes());
                messages.push(TunnelMessage::ResponseChunk { id, body });
                messages.push(TunnelMessage::ResponseEnd { id });
                relay.stage = RelayStage::Done;
                released = table::numbered_remove(&mut self.pending_requests, id);
            },
            LocalEvent::Body(Some(chunk)) => {
                let body = body::encode(chunk.as_slice());
                messages.push(TunnelMessage::ResponseChunk { id, body });
                relay.stage = RelayStage::Streaming;
            },
            LocalEvent::Body(None) => {
                messages.push(TunnelMessage::ResponseEnd { id });
                relay.stage = RelayStage::Done;
                released = table::numbered_remove(&mut self.pending_requests, id);
            },
        }
        assert(message_views(messages@) =~= old(relay)@.next(event@).1);
        Relayed { messages, released }
    }
}

/// The URL on the local server is its base, with the port in decimal, and then the whole path, as
/// it is.
pub proof fn law_local_url(port: u16, path: Seq<char>)
    ensures
        ({
            let base = "http://localhost:"@ + decimal::digits(port as nat);
            let url = local_url_of(port, path);
            &&& url.len() == base.len() + path.len()
            &&& url.take(base.len() as int) == base
            &&& url.skip(base.len() as int) == path
        }),
{
    let base = "http://localhost:"@ + decimal::digits(port as nat);
    let url = local_url_of(port, path);
    assert(url =~= base + path);
    assert(url.take(base.len() as int) =~= base);
    assert(url.skip(base.len() as int) =~= path);
}

/// Two requests to one local server go to the same URL only where they are for the same path.
pub proof fn law_paths_apart(port: u16, one: Seq<char>, other: Seq<char>)
    requires
        local_url_of(port, one) == local_url_of(port, other),
    ensures
        one == other,
{
    law_local_url(port, one);
    law_local_url(port, other);
}

/// Requests for paths that begin with a slash go to the same URL only on the same port.
pub proof fn law_ports_apart(port: u16, path: Seq<char>, other: u16, elsewhere: Seq<char>)
    requires
        path.len() > 0 && path[0] == '/',
        elsewhere.len() > 0 && elsewhere[0] == '/',
        local_url_of(port, path) == local_url_of(other, elsewhere),
    ensures
        port == other,
        path == elsewhere,
{
    let front = "http://localhost:"@;
    let digits = decimal::digits(port as nat);
    let others = decimal::digits(other as nat);
    let url = local_url_of(port, path);
    let end = (front + digits).len() as int;
    let other_end = (front + others).len() as int;
    law_local_url(port, path);
    law_local_url(other, elsewhere);
    decimal::lemma_digits(port as nat);
    decimal::lemma_digits(other as nat);
    assert(url[end] == url.skip(end)[0]);
    assert(url[other_end] == url.skip(other_end)[0]);
    if end < other_end {
        assert(url[end] == url.take(other_end)[end]);
        assert(url[end] == others[end - front.len()]);
        assert(decimal::is_digit(others[end - front.len()]));
    }
    if other_end < end {
        assert(url[other_end] == url.take(end)[other_end]);
        assert(url[other_end] == digits[other_end - front.len()]);
        assert(decimal::is_digit(digits[other_end - front.len()]));
    }
    assert(digits =~= url.take(end).skip(front.len() as int));
    assert(others =~= url.take(other_end).skip(front.len() as int));
    decimal::law_digits_tell_apart(port as nat, other as nat);
}

/// A client that is made for a server and a port is one for that server and that port, with no
/// request yet; there is one if and only if the URL can be read.
pub proof fn law_connection(
    server: Seq<char>,
    port: u16,
    host: Result<Option<Seq<char>>, Seq<char>>,
)
    ensures
        connection(server, port, host) is Ok <==> host is Ok,
        connection(server, port, host) matches Ok(client) ==> {
            &&& client.server == server
            &&& client.port == port
            &&& forall|id: u128| !client.pending.contains_key(id)
        },
        connection(server, port, host) matches Err(reason) ==> host == Err::<
            Option<Seq<char>>,
            Seq<char>,
        >(reason),
{
}

/// Whatever a client receives, it stays a client of the same server for the same port.
pub proof fn law_port_stays(
    client: ClientView,
    incoming: IncomingView,
    channel: u64,
    host: Result<Option<Seq<char>>, Seq<char>>,
    relay: RelayView,
    event: LocalEventView,
)
    ensures
        client.receive(incoming, channel, host).0.port == client.port,
        client.receive(incoming, channel, host).0.server == client.server,
        client.settle(relay, event).port == client.port,
        client.settle(relay, event).server == client.server,
{
}

/// A client that is made for a port forwards to that port: the first request that it receives goes,
/// with its method, to the port that the client was made for, and there to the whole path.
pub proof fn law_forwards_to_its_port(
    server: Seq<char>,
    port: u16,
    host: Result<Option<Seq<char>>, Seq<char>>,
    id: u128,
    method: Seq<char>,
    path: Seq<char>,
    headers: Seq<Field>,
    channel: u64,
)
    ensures
        connection(server, port, host) matches Ok(client) ==> {
            let start = MessageView::RequestStart { id, method, path, headers };
            let action = client.receive(IncomingView::Message(start), channel, host).1;
            action matches ClientActionView::Forward { request, replaced } && {
                &&& request.relay.id == id
                &&& request.method == method
                &&& request.url == "http://localhost:"@ + decimal::digits(port as nat) + path
                &&& replaced is None
            }
        },
{
}

/// A tunnel is announced at its name, a dot and the host of its server's URL, in full; where the
/// URL names no host, at a name that stands for it.
pub proof fn law_public_url(subdomain: Seq<char>, host: Seq<char>)
    ensures
        ({
            let url = public_url_of(subdomain, Some(host));
            let front = "https://"@.len() as int;
            &&& url.len() == front + subdomain.len() + 1 + host.len()
            &&& url.take(front) == "https://"@
            &&& url.subrange(front, front + subdomain.len()) == subdomain
            &&& url[front + subdomain.len()] == '.'
            &&& url.skip(front + subdomain.len() + 1) == host
        }),
        public_url_of(subdomain, None) == public_url_of(subdomain, Some("yourdomain.com"@)),
{
    reveal_strlit(".");
    let url = public_url_of(subdomain, Some(host));
    let front = "https://"@.len() as int;
    assert(url.take(front) =~= "https://"@);
    assert(url.subrange(front, front + subdomain.len()) =~= subdomain);
    assert(url.skip(front + subdomain.len() + 1) =~= host);
}

/// Where the local server cannot be reached, what is answered is the words `Bad Gateway`, byte for
/// byte.
pub proof fn law_bad_gateway_bytes()
    ensures
        bad_gateway_bytes().len() == "Bad Gateway"@.len(),
        forall|i: int|
            0 <= i < bad_gateway_bytes().len() ==> #[trigger] bad_gateway_bytes()[i] as char
                == "Bad Gateway"@[i],
{
    reveal_strlit("Bad Gateway");
    assert(vstd::utf8::is_ascii_chars("Bad Gateway"@));
    vstd::utf8::is_ascii_chars_encode_utf8("Bad Gateway"@);
}

/// A piece of a request's body goes, as it is, to the channel of the request that it belongs to,
/// where that one is still forwarded, and nowhere else.
pub proof fn law_body_delivery(
    client: ClientView,
    message: MessageView,
    id: u128,
    channel: u64,
    host: Result<Option<Seq<char>>, Seq<char>>,
)
    requires
        message matches MessageView::RequestChunk { id: of, .. } && of == id || message
            == (MessageView::RequestEnd { id }),
    ensures
        client.pending.contains_key(id) ==> client.receive(
            IncomingView::Message(message),
            channel,
            host,
        ) == (client, ClientActionView::Deliver { channel: client.pending[id], message }),
        !client.pending.contains_key(id) ==> client.receive(
            IncomingView::Message(message),
            channel,
            host,
        ) == (client, ClientActionView::Skip),
{
}

/// What ends a connection ends it with the reason that came, and a frame that is none of a server's
/// is noted as it is; the client stays as it was.
pub proof fn law_other_frames(
    client: ClientView,
    reason: Seq<char>,
    message: MessageView,
    channel: u64,
    host: Result<Option<Seq<char>>, Seq<char>>,
)
    requires
        message is Register || message is ResponseStart || message is ResponseChunk
            || message is ResponseEnd,
    ensures
        client.receive(
            IncomingView::Message(MessageView::Error { message: reason }),
            channel,
            host,
        ) == (client, ClientActionView::Fail(reason)),
        client.receive(IncomingView::Undecodable(reason), channel, host) == (
            client,
            ClientActionView::Fail(reason),
        ),
        client.receive(IncomingView::Failed(reason), channel, host) == (
            client,
            ClientActionView::Fail(reason),
        ),
        client.receive(IncomingView::Closed, channel, host) == (client, ClientActionView::Finish),
        client.receive(IncomingView::NonText, channel, host) == (client, ClientActionView::Skip),
        client.receive(IncomingView::Message(message), channel, host) == (
            client,
            ClientActionView::Unexpected(message),
        ),
{
}

/// A request whose id is new replaces none; one whose id is still being forwarded takes the place
/// of that one, and of no other.
pub proof fn law_replaced(
    client: ClientView,
    id: u128,
    method: Seq<char>,
    path: Seq<char>,
    headers: Seq<Field>,
    channel: u64,
    host: Result<Option<Seq<char>>, Seq<char>>,
)
    ensures
        ({
            let start = MessageView::RequestStart { id, method, path, headers };
            let (after, action) = client.receive(IncomingView::Message(start), channel, host);
            &&& after.pending.contains_key(id)
            &&& after.pending[id] == channel
            &&& after.pending.remove(id) == client.pending.remove(id)
            &&& action matches ClientActionView::Forward { replaced, .. } && {
                &&& client.pending.contains_key(id) ==> replaced == Some(client.pending[id])
                &&& !client.pending.contains_key(id) ==> replaced is None
            }
        }),
{
    let start = MessageView::RequestStart { id, method, path, headers };
    let after = client.receive(IncomingView::Message(start), channel, host).0;
    assert(after.pending.remove(id) =~= client.pending.remove(id));
}

/// The channel of a request is closed in the step that completes its answer, and in no other.
pub proof fn law_released(client: ClientView, relay: RelayView, event: LocalEventView)
    ensures
        event is Answered || (event matches LocalEventView::Body(Some(_))) ==> client.released(
            relay,
            event,
        ) is None && client.settle(relay, event) == client,
        event is Unreachable || event == LocalEventView::Body(None) ==> {
            &&& client.pending.contains_key(relay.id) ==> client.released(relay, event) == Some(
                client.pending[relay.id],
            )
            &&& !client.pending.contains_key(relay.id) ==> client.released(relay, event) is None
            &&& client.settle(relay, event).pending == client.pending.remove(relay.id)
        },
{
}

/// What a client sends for a step of an answer belongs to that request, and says what came: the
/// status, the bytes as their base64 text, or the end.
pub proof fn law_relayed(
    relay: RelayView,
    status: u16,
    headers: Seq<RawField>,
    chunk: Seq<u8>,
    event: LocalEventView,
)
    ensures
        forall|i: int|
            0 <= i < relay.next(event).1.len() ==> (#[trigger] relay.next(event).1[i]).response_id()
                == Some(relay.id),
        relay.after(event).id == relay.id,
        ({
            let sent = relay.next(LocalEventView::Answered { status, headers }).1;
            &&& sent.len() == 1
            &&& sent[0] matches MessageView::ResponseStart { status: said, headers: fields, .. }
                && said == status && fields == headers::gathered(headers)
        }),
        relay.next(LocalEventView::Body(Some(chunk))).1 == seq![
            MessageView::ResponseChunk { id: relay.id, body: body::base64_text(chunk) },
        ],
        relay.next(LocalEventView::Body(None)).1 == seq![
            MessageView::ResponseEnd { id: relay.id },
        ],
        ({
            let sent = relay.next(LocalEventView::Unreachable).1;
            &&& sent.len() == 3
            &&& sent[0] matches MessageView::ResponseStart { status: said, headers: fields, .. }
                && said == 502 && fields.len() == 0
            &&& sent[1] == (MessageView::ResponseChunk {
                id: relay.id,
                body: body::base64_text(bad_gateway_bytes()),
            })
            &&& sent[2] == (MessageView::ResponseEnd { id: relay.id })
        }),
{
}

/// An answer with whatever status and fields can come of a request that waits, and so can that the
/// local server is not reached; then come chunks, of any bytes that can be encoded, and the end.
pub proof fn law_relay_expects(id: u128, status: u16, headers: Seq<RawField>, chunk: Seq<u8>)
    ensures
        ({
            let waiting = RelayView { id, stage: RelayStage::Waiting };
            let streaming = RelayView { id, stage: RelayStage::Streaming };
            &&& waiting.expects(LocalEventView::Answered { status, headers })
            &&& waiting.expects(LocalEventView::Unreachable)
            &&& waiting.after(LocalEventView::Answered { status, headers }) == streaming
            &&& (chunk.len() + 2) / 3 * 4 <= isize::MAX ==> streaming.expects(
                LocalEventView::Body(Some(chunk)),
            )
            &&& streaming.after(LocalEventView::Body(Some(chunk))) == streaming
            &&& streaming.expects(LocalEventView::Body(None))
            &&& streaming.after(LocalEventView::Body(None)).stage == RelayStage::Done
            &&& waiting.after(LocalEventView::Unreachable).stage == RelayStage::Done
        }),
{
    body::law_encodable(chunk.len());
}

/// A request to the local server says its method, its URL and its fields, each in full.
pub proof fn law_local_request_says(request: LocalRequest)
    ensures
        request@.relay == request.relay@,
        request@.method == request.method@,
        request@.url == request.url@,
        request@.headers == request.headers@,
{
}

/// What a client does and what comes of its requests say what they hold, in full.
pub proof fn law_steps_say(
    subdomain: String,
    public_url: String,
    request: LocalRequest,
    replaced: Option<u64>,
    channel: u64,
    message: TunnelMessage,
    reason: String,
    status: u16,
    headers: Vec<(String, Vec<u8>)>,
    bytes: Vec<u8>,
)
    ensures
        (ClientAction::Announce { subdomain, public_url })@ == (ClientActionView::Announce {
            subdomain: subdomain@,
            public_url: public_url@,
        }),
        (ClientAction::Forward { request, replaced })@ == (ClientActionView::Forward {
            request: request@,
            replaced,
        }),
        (ClientAction::Deliver { channel, message })@ == (ClientActionView::Deliver {
            channel,
            message: message@,
        }),
        ClientAction::Unexpected(message)@ == ClientActionView::Unexpected(message@),
        ClientAction::Skip@ == ClientActionView::Skip,
        ClientAction::Fail(reason)@ == ClientActionView::Fail(reason@),
        ClientAction::Finish@ == ClientActionView::Finish,
        ({
            let event = (LocalEvent::Answered { status, headers })@;
            event matches LocalEventView::Answered { status: said, headers: fields } && {
                &&& said == status
                &&& fields.len() == headers@.len()
                &&& forall|i: int|
                    0 <= i < headers@.len() ==> (#[trigger] fields[i]).0 == headers@[i].0@
                        && fields[i].1 == headers@[i].1@
            }
        }),
        LocalEvent::Unreachable@ == LocalEventView::Unreachable,
        LocalEvent::Body(Some(bytes))@ == LocalEventView::Body(Some(bytes@)),
        LocalEvent::Body(None)@ == LocalEventView::Body(None),
{
    headers::law_fields_as_they_are(headers@, Seq::empty());
}

} // verus!
