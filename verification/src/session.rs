//! A client's connection as a whole: everything that happens on it, what the client sends, and what
//! each of the requests that travel at the same time gets of its body.

use vstd::prelude::*;

use crate::client::{
    local_url_of, ClientActionView, ClientView, LocalEventView, LocalRequestView, RelayStage,
    RelayView,
};
use crate::headers::{without_host_of, Field};
use crate::laws::{law_request_body, relayable, relayed, request_body_of, request_bytes};
use crate::message::{on_channel, IncomingView, MessageView};
use crate::table::{alone_on, unused};

verus! {

/// What happens to a client on its connection.
pub enum Happening {
    /// A frame comes; a request that it starts takes its body on `channel`.
    Frame { incoming: IncomingView, channel: u64 },
    /// Something comes of a request to the local server: the one at that place among those that
    /// were made.
    Local { request: int, event: LocalEventView },
}

impl Happening {
    /// The id of the request that this starts.
    pub open spec fn starts(self) -> Option<u128> {
        match self {
            Happening::Frame {
                incoming: IncomingView::Message(MessageView::RequestStart { id, .. }),
                ..
            } => Some(id),
            _ => None,
        }
    }

    /// The message that this brings for the body of the request with that id.
    pub open spec fn body_message(self, id: u128) -> Option<MessageView> {
        match self {
            Happening::Frame { incoming: IncomingView::Message(message), .. } => {
                if message.request_body_id() == Some(id) {
                    Some(message)
                } else {
                    None
                }
            },
            _ => None,
        }
    }

    /// Whether this leaves the request with that id, and the channel that it takes its body on, to
    /// that request: it starts no other with the id or on the channel.
    pub open spec fn spares(self, id: u128, channel: u64) -> bool {
        self.starts() is Some ==> self.starts() != Some(id) && self->channel != channel
    }
}

/// A client's connection so far.
pub struct SessionView {
    /// The client.
    pub client: ClientView,
    /// The requests that were made to the local server, in order.
    pub requests: Seq<LocalRequestView>,
    /// How far the answer to each of them has come.
    pub relays: Seq<RelayView>,
    /// The messages that were handed to a request, each with the channel, in order.
    pub delivered: Seq<(u64, MessageView)>,
    /// The messages that were sent to the server, in order.
    pub sent: Seq<MessageView>,
}

/// A connection that has just been opened: the client has asked for its tunnel.
pub open spec fn opened(
    client: ClientView,
    token: Seq<char>,
    name: Option<Seq<char>>,
) -> SessionView {
    SessionView {
        client,
        requests: Seq::empty(),
        relays: Seq::empty(),
        delivered: Seq::empty(),
        sent: seq![MessageView::Register { token, name }],
    }
}

impl SessionView {
    /// Whether that can happen.
    pub open spec fn expects(self, happening: Happening) -> bool {
        match happening {
            Happening::Frame { .. } => true,
            Happening::Local { request, event } => {
                &&& 0 <= request < self.relays.len()
                &&& self.relays[request].expects(event)
            },
        }
    }

    /// The connection one step on, where `host` is what can be read of the server's URL.
    pub open spec fn step(
        self,
        host: Result<Option<Seq<char>>, Seq<char>>,
        happening: Happening,
    ) -> SessionView {
        match happening {
            Happening::Frame { incoming, channel } => {
                let (client, action) = self.client.receive(incoming, channel, host);
                match action {
                    ClientActionView::Forward { request, .. } => SessionView {
                        client,
                        requests: self.requests.push(request),
                        relays: self.relays.push(request.relay),
                        ..self
                    },
                    ClientActionView::Deliver { channel, message } => SessionView {
                        client,
                        delivered: self.delivered.push((channel, message)),
                        ..self
                    },
                    _ => SessionView { client, ..self },
                }
            },
            Happening::Local { request, event } => {
                let relay = self.relays[request];
                SessionView {
                    client: self.client.settle(relay, event),
                    relays: self.relays.update(request, relay.after(event)),
                    sent: self.sent + relay.next(event).1,
                    ..self
                }
            },
        }
    }

    /// The connection after all of that has happened.
    pub open spec fn run(
        self,
        host: Result<Option<Seq<char>>, Seq<char>>,
        happenings: Seq<Happening>,
    ) -> SessionView
        decreases happenings.len(),
    {
        if happenings.len() == 0 {
            self
        } else {
            self.run(host, happenings.drop_last()).step(host, happenings.last())
        }
    }

    /// Whether all of that can happen, one after the other.
    pub open spec fn possible(
        self,
        host: Result<Option<Seq<char>>, Seq<char>>,
        happenings: Seq<Happening>,
    ) -> bool
        decreases happenings.len(),
    {
        happenings.len() == 0 || {
            &&& self.possible(host, happenings.drop_last())
            &&& self.run(host, happenings.drop_last()).expects(happenings.last())
        }
    }
}

proof fn lemma_sent_grows(
    session: SessionView,
    host: Result<Option<Seq<char>>, Seq<char>>,
    happenings: Seq<Happening>,
    count: int,
)
    requires
        0 <= count <= happenings.len(),
    ensures
        session.run(host, happenings.take(count)).sent.len() <= session.run(
            host,
            happenings,
        ).sent.len(),
    decreases happenings.len(),
{
    if count == happenings.len() {
        assert(happenings.take(count) =~= happenings);
    } else {
        let front = happenings.drop_last();
        lemma_sent_grows(session, host, front, count);
        assert(front.take(count) =~= happenings.take(count));
    }
}

proof fn lemma_started(
    client: ClientView,
    token: Seq<char>,
    name: Option<Seq<char>>,
    host: Result<Option<Seq<char>>, Seq<char>>,
    happenings: Seq<Happening>,
    request: int,
)
    requires
        opened(client, token, name).possible(host, happenings),
        0 <= request < opened(client, token, name).run(host, happenings).relays.len(),
    ensures
        exists|j: int|
            0 <= j < happenings.len() && (#[trigger] happenings[j]).starts() == Some(
                opened(client, token, name).run(host, happenings).relays[request].id,
            ),
    decreases happenings.len(),
{
    let session = opened(client, token, name);
    if happenings.len() > 0 {
        let front = happenings.drop_last();
        let before = session.run(host, front);
        let id = session.run(host, happenings).relays[request].id;
        if request < before.relays.len() {
            lemma_started(client, token, name, host, front, request);
            let j = choose|j: int|
                0 <= j < front.len() && (#[trigger] front[j]).starts() == Some(
                    before.relays[request].id,
                );
            assert(happenings[j] == front[j]);
            assert(before.relays[request].id == id);
        } else {
            assert(happenings[happenings.len() - 1].starts() == Some(id));
        }
    }
}

/// Whether the message at that place among those that were sent belongs to the answer to a request
/// that the happening at place `j` started, before that message was sent.
pub open spec fn answers(
    session: SessionView,
    host: Result<Option<Seq<char>>, Seq<char>>,
    happenings: Seq<Happening>,
    message: int,
    j: int,
) -> bool {
    &&& 0 <= j < happenings.len()
    &&& happenings[j].starts() is Some
    &&& session.run(host, happenings).sent[message].response_id() == happenings[j].starts()
    &&& session.run(host, happenings.take(j + 1)).sent.len() <= message
}

/// The first message that a client sends asks for its tunnel, with its token and the name it was
/// given; each later one is the start, a chunk or the end of the answer to a request that the
/// server had started before.
pub proof fn law_sent(
    client: ClientView,
    token: Seq<char>,
    name: Option<Seq<char>>,
    host: Result<Option<Seq<char>>, Seq<char>>,
    happenings: Seq<Happening>,
    message: int,
)
    requires
        opened(client, token, name).possible(host, happenings),
        0 <= message < opened(client, token, name).run(host, happenings).sent.len(),
    ensures
        message == 0 ==> opened(client, token, name).run(host, happenings).sent[message]
            == (MessageView::Register { token, name }),
        message > 0 ==> exists|j: int|
            #[trigger] answers(opened(client, token, name), host, happenings, message, j),
    decreases happenings.len(),
{
    let session = opened(client, token, name);
    if happenings.len() > 0 {
        let front = happenings.drop_last();
        let before = session.run(host, front);
        if message < before.sent.len() {
            law_sent(client, token, name, host, front, message);
            if message > 0 {
                let j = choose|j: int| #[trigger] answers(session, host, front, message, j);
                assert(front.take(j + 1) =~= happenings.take(j + 1));
                assert(answers(session, host, happenings, message, j));
            }
        } else {
            let request = happenings.last()->request;
            lemma_started(client, token, name, host, front, request);
            let id = before.relays[request].id;
            let j = choose|j: int|
                0 <= j < front.len() && (#[trigger] front[j]).starts() == Some(id);
            lemma_sent_grows(session, host, front, j + 1);
            assert(front.take(j + 1) =~= happenings.take(j + 1));
            assert(happenings[j] == front[j]);
            lemma_sent_grows(session, host, front, 0);
            assert(front.take(0) =~= Seq::<Happening>::empty());
            assert(answers(session, host, happenings, message, j));
        }
    }
}

/// The messages for the body of the request with that id, in the order in which they come.
pub open spec fn addressed_to(happenings: Seq<Happening>, id: u128) -> Seq<MessageView> {
    happenings.filter_map(|happening: Happening| happening.body_message(id))
}

/// The requests with that id.
pub open spec fn requests_for(requests: Seq<LocalRequestView>, id: u128) -> Seq<LocalRequestView> {
    requests.filter_map(
        |request: LocalRequestView|
            if request.relay.id == id {
                Some(request)
            } else {
                None
            },
    )
}

/// A channel that no request takes its body on stays silent until one is started on it.
pub proof fn law_unused_channel(
    session: SessionView,
    host: Result<Option<Seq<char>>, Seq<char>>,
    happenings: Seq<Happening>,
    channel: u64,
)
    requires
        unused(session.client.pending, channel),
        forall|i: int|
            0 <= i < happenings.len() && (#[trigger] happenings[i]).starts() is Some
                ==> happenings[i]->channel != channel,
    ensures
        ({
            let after = session.run(host, happenings);
            &&& unused(after.client.pending, channel)
            &&& on_channel(after.delivered, channel) == on_channel(session.delivered, channel)
        }),
    decreases happenings.len(),
{
    if happenings.len() > 0 {
        let front = happenings.drop_last();
        assert forall|i: int|
            0 <= i < front.len() && (#[trigger] front[i]).starts() is Some implies front[i]->channel
            != channel by {
            assert(front[i] == happenings[i]);
        }
        law_unused_channel(session, host, front, channel);
        let before = session.run(host, front);
        let after = session.run(host, happenings);
        let last = happenings[happenings.len() - 1];
        assert(last.starts() is Some ==> last->channel != channel);
        if after.delivered.len() > before.delivered.len() {
            assert(after.delivered.drop_last() =~= before.delivered);
            assert(on_channel(after.delivered, channel) =~= on_channel(before.delivered, channel));
        }
    }
}

/// A request, and what it gets of its body, from the frame that starts it on. For as long as its
/// answer is not complete, exactly the messages for its id come on its channel, in order: none is
/// missing and none of another request is among them, however the requests are mixed. Once its
/// answer is complete nothing more comes. One request with that id is made to the local server:
/// with that method, on the local server's URL for that path, and with those fields but for `host`.
pub proof fn law_interleaved(
    session: SessionView,
    host: Result<Option<Seq<char>>, Seq<char>>,
    id: u128,
    method: Seq<char>,
    path: Seq<char>,
    headers: Seq<Field>,
    channel: u64,
    happenings: Seq<Happening>,
)
    requires
        unused(session.client.pending, channel),
        forall|i: int|
            0 <= i < happenings.len() ==> (#[trigger] happenings[i]).spares(id, channel),
    ensures
        ({
            let incoming = IncomingView::Message(
                MessageView::RequestStart { id, method, path, headers },
            );
            let started = session.step(host, Happening::Frame { incoming, channel });
            let after = started.run(host, happenings);
            let all = on_channel(session.delivered, channel) + addressed_to(happenings, id);
            &&& requests_for(after.requests, id) == requests_for(session.requests, id).push(
                LocalRequestView {
                    relay: RelayView { id, stage: RelayStage::Waiting },
                    method,
                    url: local_url_of(session.client.port, path),
                    headers: without_host_of(headers),
                },
            )
            &&& on_channel(after.delivered, channel).is_prefix_of(all)
            &&& if after.client.pending.contains_key(id) {
                &&& after.client.pending[id] == channel
                &&& on_channel(after.delivered, channel) == all
            } else {
                unused(after.client.pending, channel)
            }
        }),
{
    let incoming = IncomingView::Message(MessageView::RequestStart { id, method, path, headers });
    let started = session.step(host, Happening::Frame { incoming, channel });
    assert(started.requests.drop_last() =~= session.requests);
    lemma_interleaved(started, host, id, channel, happenings);
}

proof fn lemma_interleaved(
    started: SessionView,
    host: Result<Option<Seq<char>>, Seq<char>>,
    id: u128,
    channel: u64,
    happenings: Seq<Happening>,
)
    requires
        alone_on(started.client.pending, id, channel),
        forall|i: int|
            0 <= i < happenings.len() ==> (#[trigger] happenings[i]).spares(id, channel),
    ensures
        ({
            let after = started.run(host, happenings);
            &&& alone_on(after.client.pending, id, channel)
            &&& requests_for(after.requests, id) == requests_for(started.requests, id)
            &&& on_channel(started.delivered, channel).is_prefix_of(
                on_channel(after.delivered, channel),
            )
            &&& on_channel(after.delivered, channel).is_prefix_of(
                on_channel(started.delivered, channel) + addressed_to(happenings, id),
            )
            &&& after.client.pending.contains_key(id) ==> on_channel(after.delivered, channel)
                == on_channel(started.delivered, channel) + addressed_to(happenings, id)
        }),
    decreases happenings.len(),
{
    let after = started.run(host, happenings);
    if happenings.len() == 0 {
        assert(on_channel(after.delivered, channel) =~= on_channel(started.delivered, channel)
            + addressed_to(happenings, id));
    } else {
        let front = happenings.drop_last();
        assert forall|i: int| 0 <= i < front.len() implies (#[trigger] front[i]).spares(
            id,
            channel,
        ) by {
            assert(front[i] == happenings[i]);
        }
        lemma_interleaved(started, host, id, channel, front);
        let before = started.run(host, front);
        let last = happenings[happenings.len() - 1];
        assert(last.spares(id, channel));
        if after.requests.len() > before.requests.len() {
            assert(after.requests.drop_last() =~= before.requests);
            assert(requests_for(after.requests, id) =~= requests_for(before.requests, id));
        }
        if after.delivered.len() > before.delivered.len() {
            assert(after.delivered.drop_last() =~= before.delivered);
        }
        if after.client.pending.contains_key(id) {
            assert(on_channel(after.delivered, channel) =~= on_channel(started.delivered, channel)
                + addressed_to(happenings, id));
        }
    }
}

/// A request over the whole of a connection. Where its id and its channel are its own, one request
/// with that id is made to the local server: with that method, on the local server's URL for that
/// path, and with those fields but for `host`. Its body is made of its own chunks alone: those that
/// come for its id up to its end and can be decoded, in their order. One that cannot be decoded is
/// passed over, and the chunks of other requests that come in between are not in it. (Where its
/// answer is complete before its end has come, the rest of its body is not taken.)
pub proof fn law_request_over_connection(
    client: ClientView,
    token: Seq<char>,
    name: Option<Seq<char>>,
    host: Result<Option<Seq<char>>, Seq<char>>,
    earlier: Seq<Happening>,
    id: u128,
    method: Seq<char>,
    path: Seq<char>,
    headers: Seq<Field>,
    channel: u64,
    happenings: Seq<Happening>,
    messages: Seq<MessageView>,
    later: Seq<Happening>,
)
    requires
        client.pending == Map::<u128, u64>::empty(),
        forall|i: int| 0 <= i < earlier.len() ==> (#[trigger] earlier[i]).spares(id, channel),
        forall|i: int|
            0 <= i < happenings.len() ==> (#[trigger] happenings[i]).spares(id, channel),
        forall|i: int| 0 <= i < later.len() ==> (#[trigger] later[i]).spares(id, channel),
        addressed_to(happenings, id) == messages.push(MessageView::RequestEnd { id }),
        forall|i: int| 0 <= i < messages.len() ==> !((#[trigger] messages[i]) is RequestEnd),
        ({
            let incoming = IncomingView::Message(
                MessageView::RequestStart { id, method, path, headers },
            );
            let session = opened(client, token, name).run(host, earlier);
            let started = session.step(host, Happening::Frame { incoming, channel });
            started.run(host, happenings).client.pending.contains_key(id)
        }),
    ensures
        ({
            let incoming = IncomingView::Message(
                MessageView::RequestStart { id, method, path, headers },
            );
            let session = opened(client, token, name).run(host, earlier);
            let started = session.step(host, Happening::Frame { incoming, channel });
            let after = started.run(host, happenings).run(host, later);
            &&& requests_for(after.requests, id) == seq![
                LocalRequestView {
                    relay: RelayView { id, stage: RelayStage::Waiting },
                    method,
                    url: local_url_of(client.port, path),
                    headers: without_host_of(headers),
                },
            ]
            &&& request_body_of(on_channel(after.delivered, channel)) == messages.filter_map(
                |message: MessageView| request_bytes(message),
            )
        }),
{
    let incoming = IncomingView::Message(MessageView::RequestStart { id, method, path, headers });
    let first = opened(client, token, name);
    let session = first.run(host, earlier);
    let started = session.step(host, Happening::Frame { incoming, channel });
    let ended = started.run(host, happenings);
    let after = ended.run(host, later);
    law_unused_channel(first, host, earlier, channel);
    lemma_interleaved(first, host, id, channel, earlier);
    lemma_port(first, host, earlier);
    law_interleaved(session, host, id, method, path, headers, channel, happenings);
    lemma_interleaved(started, host, id, channel, happenings);
    lemma_interleaved(ended, host, id, channel, later);
    assert(requests_for(first.requests, id) =~= Seq::<LocalRequestView>::empty());
    assert(on_channel(first.delivered, channel) =~= Seq::<MessageView>::empty());
    let all = messages.push(MessageView::RequestEnd { id });
    assert(on_channel(ended.delivered, channel) =~= all);
    let got = on_channel(after.delivered, channel);
    let rest = got.skip(all.len() as int);
    assert(got =~= all + rest);
    law_request_body(messages, id, rest);
}

proof fn lemma_port(
    session: SessionView,
    host: Result<Option<Seq<char>>, Seq<char>>,
    happenings: Seq<Happening>,
)
    ensures
        session.run(host, happenings).client.port == session.client.port,
    decreases happenings.len(),
{
    if happenings.len() > 0 {
        lemma_port(session, host, happenings.drop_last());
    }
}

/// The messages of the answer to the request with that id.
pub open spec fn sent_for(sent: Seq<MessageView>, id: u128) -> Seq<MessageView> {
    sent.filter_map(
        |message: MessageView|
            if message.response_id() == Some(id) {
                Some(message)
            } else {
                None
            },
    )
}

/// What comes of the request at that place, in order.
pub open spec fn events_of(happenings: Seq<Happening>, request: int) -> Seq<LocalEventView> {
    happenings.filter_map(
        |happening: Happening|
            match happening {
                Happening::Local { request: place, event } if place == request => Some(event),
                _ => None,
            },
    )
}

proof fn lemma_sent_for(sent: Seq<MessageView>, more: Seq<MessageView>, of: u128, id: u128)
    requires
        forall|i: int| 0 <= i < more.len() ==> (#[trigger] more[i]).response_id() == Some(of),
    ensures
        sent_for(sent + more, id) == if of == id {
            sent_for(sent, id) + more
        } else {
            sent_for(sent, id)
        },
    decreases more.len(),
{
    if more.len() == 0 {
        assert(sent + more =~= sent);
        assert(sent_for(sent, id) + more =~= sent_for(sent, id));
    } else {
        let front = more.drop_last();
        assert forall|i: int| 0 <= i < front.len() implies (#[trigger] front[i]).response_id()
            == Some(of) by {
            assert(front[i] == more[i]);
        }
        lemma_sent_for(sent, front, of, id);
        assert(more[more.len() - 1].response_id() == Some(of));
        assert((sent + more).drop_last() =~= sent + front);
        assert(of == id ==> sent_for(sent + more, id) =~= sent_for(sent, id) + more);
    }
}

/// The answer to a request is sent as what comes of that request alone makes it, in order, whatever
/// comes of the others in between. No other request gets its id.
pub proof fn law_interleaved_answers(
    session: SessionView,
    host: Result<Option<Seq<char>>, Seq<char>>,
    happenings: Seq<Happening>,
    request: int,
)
    requires
        session.possible(host, happenings),
        0 <= request < session.relays.len(),
        forall|i: int|
            0 <= i < session.relays.len() && i != request ==> (#[trigger] session.relays[i]).id
                != session.relays[request].id,
        forall|i: int|
            0 <= i < happenings.len() ==> (#[trigger] happenings[i]).starts() != Some(
                session.relays[request].id,
            ),
    ensures
        ({
            let relay = session.relays[request];
            let events = events_of(happenings, request);
            let after = session.run(host, happenings);
            &&& request < after.relays.len()
            &&& after.relays[request].id == relay.id
            &&& forall|i: int|
                0 <= i < after.relays.len() && i != request ==> (#[trigger] after.relays[i]).id
                    != relay.id
            &&& relayable(relay, events)
            &&& after.relays[request] == relayed(relay, events).0
            &&& sent_for(after.sent, relay.id) == sent_for(session.sent, relay.id) + relayed(
                relay,
                events,
            ).1
        }),
    decreases happenings.len(),
{
    let relay = session.relays[request];
    let events = events_of(happenings, request);
    let after = session.run(host, happenings);
    if happenings.len() == 0 {
        assert(sent_for(session.sent, relay.id) + relayed(relay, events).1 =~= sent_for(
            session.sent,
            relay.id,
        ));
    } else {
        let front = happenings.drop_last();
        assert forall|i: int| 0 <= i < front.len() implies (#[trigger] front[i]).starts() != Some(
            relay.id,
        ) by {
            assert(front[i] == happenings[i]);
        }
        law_interleaved_answers(session, host, front, request);
        let before = session.run(host, front);
        assert(happenings[happenings.len() - 1].starts() != Some(relay.id));
        match happenings.last() {
            Happening::Local { request: place, event } => {
                let other = before.relays[place];
                lemma_sent_for(before.sent, other.next(event).1, other.id, relay.id);
                if place == request {
                    assert(events.drop_last() =~= events_of(front, request));
                    assert(sent_for(after.sent, relay.id) =~= sent_for(session.sent, relay.id)
                        + relayed(relay, events).1);
                }
            },
            Happening::Frame { .. } => {},
        }
    }
}

} // verus!
