//! The server's side of a tunnel: who may open one, under which name, and where its replies go.

use std::collections::hash_map::RandomState;

use dashmap::DashMap;
use vstd::prelude::*;

use crate::ident::{
    is_marked_random, is_random_id, lemma_same_back, lemma_same_front, random_id, short_name,
    short_name_of, IDS_PER_NAME,
};
use crate::message::{Incoming, IncomingView, MessageView, TunnelMessage};
use crate::table;
use crate::text;

verus! {

/// The state of a server. A channel is known by its number: under its subdomain, the one that
/// leads to a tunnel's client; under its id, the one on which a request waits for its reply.
pub struct AppState {
    tunnels: DashMap<String, u64, RandomState>,
    pending_requests: DashMap<u128, u64, RandomState>,
    token: String,
    domain: String,
}

/// What an `AppState` holds.
pub struct StateView {
    pub tunnels: Map<Seq<char>, u64>,
    pub pending: Map<u128, u64>,
    pub token: Seq<char>,
    pub domain: Seq<char>,
}

impl View for AppState {
    type V = StateView;

    closed spec fn view(&self) -> StateView {
        StateView {
            tunnels: table::named_channels(self.tunnels),
            pending: table::numbered_channels(self.pending_requests),
            token: self.token@,
            domain: self.domain@,
        }
    }
}

/// What comes of the first frame of a tunnel's connection.
#[derive(Debug, PartialEq, Eq)]
pub enum Handshake {
    /// The tunnel stands; the reply says under which name.
    Established { subdomain: String, reply: TunnelMessage },
    /// The client is told why not, and the connection ends.
    Refused { reply: TunnelMessage },
    /// The connection ends without a word.
    Dropped,
}

/// What a `Handshake` says.
pub enum HandshakeView {
    Established { subdomain: Seq<char>, reply: MessageView },
    Refused { reply: MessageView },
    Dropped,
}

impl View for Handshake {
    type V = HandshakeView;

    open spec fn view(&self) -> HandshakeView {
        match *self {
            Handshake::Established { subdomain, reply } => HandshakeView::Established {
                subdomain: subdomain@,
                reply: reply@,
            },
            Handshake::Refused { reply } => HandshakeView::Refused { reply: reply@ },
            Handshake::Dropped => HandshakeView::Dropped,
        }
    }
}

/// What a server does with a later frame of a tunnel's connection.
#[derive(Debug, PartialEq, Eq)]
pub enum SocketAction {
    /// Hands the message to the request that waits on that channel.
    Deliver { channel: u64, message: TunnelMessage },
    /// Notes that a client does not send such a message.
    Unexpected(TunnelMessage),
    /// Nothing.
    Skip,
    /// Ends the connection.
    Disconnect,
}

/// What a `SocketAction` says.
pub enum SocketActionView {
    Deliver { channel: u64, message: MessageView },
    Unexpected(MessageView),
    Skip,
    Disconnect,
}

impl View for SocketAction {
    type V = SocketActionView;

    open spec fn view(&self) -> SocketActionView {
        match *self {
            SocketAction::Deliver { channel, message } => SocketActionView::Deliver {
                channel,
                message: message@,
            },
            SocketAction::Unexpected(message) => SocketActionView::Unexpected(message@),
            SocketAction::Skip => SocketActionView::Skip,
            SocketAction::Disconnect => SocketActionView::Disconnect,
        }
    }
}

/// What a client with the wrong token is told.
pub open spec fn invalid_token_reply() -> MessageView {
    MessageView::Error { message: "Invalid authentication token"@ }
}

/// What a client is told that asks for a name that is taken.
pub open spec fn name_taken_reply(subdomain: Seq<char>) -> MessageView {
    MessageView::Error { message: "Subdomain '"@ + subdomain + "' is already in use"@ }
}

impl StateView {
    /// The state with the tunnel in it.
    pub open spec fn with_tunnel(self, subdomain: Seq<char>, channel: u64) -> StateView {
        StateView { tunnels: self.tunnels.insert(subdomain, channel), ..self }
    }

    /// The state without the tunnel.
    pub open spec fn without_tunnel(self, subdomain: Seq<char>) -> StateView {
        StateView { tunnels: self.tunnels.remove(subdomain), ..self }
    }

    /// The state with the request waiting.
    pub open spec fn with_pending(self, id: u128, channel: u64) -> StateView {
        StateView { pending: self.pending.insert(id, channel), ..self }
    }

    /// The state without the request.
    pub open spec fn without_pending(self, id: u128) -> StateView {
        StateView { pending: self.pending.remove(id), ..self }
    }

    /// The first frame of a connection: a client that registers with the server's token gets the
    /// name it asks for, or else the fallback, unless another tunnel has it.
    pub open spec fn handshake(
        self,
        incoming: IncomingView,
        channel: u64,
        fallback: Seq<char>,
    ) -> (StateView, HandshakeView) {
        match incoming {
            IncomingView::Message(MessageView::Register { token, name }) => {
                let subdomain = text::given_or(name, fallback);
                if token != self.token {
                    (self, HandshakeView::Refused { reply: invalid_token_reply() })
                } else if self.tunnels.contains_key(subdomain) {
                    (self, HandshakeView::Refused { reply: name_taken_reply(subdomain) })
                } else {
                    (
                        self.with_tunnel(subdomain, channel),
                        HandshakeView::Established {
                            subdomain,
                            reply: MessageView::Registered { subdomain },
                        },
                    )
                }
            },
            _ => (self, HandshakeView::Dropped),
        }
    }

    /// A later frame of a connection: a message of a response goes to the request it belongs to,
    /// if that one still waits.
    pub open spec fn route(self, incoming: IncomingView) -> SocketActionView {
        match incoming {
            IncomingView::Message(message) => match message.response_id() {
                Some(id) => if self.pending.contains_key(id) {
                    SocketActionView::Deliver { channel: self.pending[id], message }
                } else {
                    SocketActionView::Skip
                },
                None => SocketActionView::Unexpected(message),
            },
            IncomingView::Undecodable(_) => SocketActionView::Skip,
            IncomingView::NonText => SocketActionView::Skip,
            IncomingView::Failed(_) => SocketActionView::Disconnect,
            IncomingView::Closed => SocketActionView::Disconnect,
        }
    }
}

/// The name of the ids that stand that many names behind an id, counted round.
pub open spec fn name_at(first: u128, front: int) -> Seq<char> {
    short_name_of(
        ((first as int / IDS_PER_NAME as int + front) % 0x1_0000_0000 * IDS_PER_NAME) as u128,
    )
}

proof fn lemma_name_at(first: u128, front: int, id: u128)
    requires
        0 <= front <= 0x1_0000_0000,
        id as int / IDS_PER_NAME as int == (first as int / IDS_PER_NAME as int + front)
            % 0x1_0000_0000,
    ensures
        short_name_of(id) == name_at(first, front),
{
    let there = (first as int / IDS_PER_NAME as int + front) % 0x1_0000_0000;
    let plain = (there * IDS_PER_NAME) as u128;
    assert(0 <= there * IDS_PER_NAME <= u128::MAX);
    assert(plain as int / IDS_PER_NAME as int == there);
    lemma_same_front(id, plain);
}

/// The address that a server listens on, given the port that it is told.
pub fn listen_address(port: Option<String>) -> (address: String)
    ensures
        address@ == "0.0.0.0:"@ + text::given_or(text::optional(port), "3010"@),
{
    let port = text::or_default(port, "3010");
    "0.0.0.0:".to_owned().concat(port.as_str())
}

impl AppState {
    /// A server with these settings, and with neither tunnels nor requests.
    pub fn new(token: Option<String>, domain: Option<String>) -> (state: AppState)
        ensures
            state@.tunnels == Map::<Seq<char>, u64>::empty(),
            state@.pending == Map::<u128, u64>::empty(),
            state@.token == text::given_or(text::optional(token), "secret"@),
            state@.domain == text::given_or(text::optional(domain), "localhost"@),
    {
        AppState {
            tunnels: table::new_named(),
            pending_requests: table::new_numbered(),
            token: text::or_default(token, "secret"),
            domain: text::or_default(domain, "localhost"),
        }
    }

    /// The first frame of a connection, where `fallback` is the name for a client that asks for
    /// none and `channel` the one that leads to the client.
    pub fn handshake_with(
        &mut self,
        incoming: Incoming,
        channel: u64,
        fallback: String,
    ) -> (outcome: Handshake)
        ensures
            (final(self)@, outcome@) == old(self)@.handshake(incoming@, channel, fallback@),
    {
        match incoming {
            Incoming::Message(TunnelMessage::Register { token, name }) => {
                if !(token == self.token) {
                    return Handshake::Refused {
                        reply: TunnelMessage::Error {
                            message: "Invalid authentication token".to_owned(),
                        },
                    };
                }
                let subdomain = match name {
                    Some(name) => name,
                    None => fallback,
                };
                if table::named_contains(&self.tunnels, &subdomain) {
                    let message = "Subdomain '".to_owned().concat(subdomain.as_str()).concat(
                        "' is already in use",
                    );
                    return Handshake::Refused { reply: TunnelMessage::Error { message } };
                }
                table::named_insert(&mut self.tunnels, subdomain.clone(), channel);
                let reply = TunnelMessage::Registered { subdomain: subdomain.clone() };
                Handshake::Established { subdomain, reply }
            },
            _ => Handshake::Dropped,
        }
    }

    /// The id itself where the name that it gives is free, and otherwise another one that gives a
    /// free name; where there is none, the id itself.
    pub fn id_of_free_name(&self, first: u128) -> (id: u128)
        requires
            is_random_id(first),
        ensures
            is_random_id(id),
            !self@.tunnels.contains_key(short_name_of(first)) ==> id == first,
            (exists|other: u128| #[trigger]
                is_random_id(other) && !self@.tunnels.contains_key(short_name_of(other)))
                ==> !self@.tunnels.contains_key(short_name_of(id)),
    {
        let mut id: u128 = first;
        let mut steps: u64 = 0;
        while steps < 0x1_0000_0000
            invariant
                0 <= steps <= 0x1_0000_0000,
                is_random_id(first),
                id % IDS_PER_NAME == first % IDS_PER_NAME,
                id / IDS_PER_NAME == (first / IDS_PER_NAME + steps) % 0x1_0000_0000,
                steps == 0 ==> id == first,
                steps > 0 ==> self@.tunnels.contains_key(short_name_of(first)),
                forall|front: int|
                    0 <= front < steps ==> self@.tunnels.contains_key(
                        #[trigger] name_at(first, front),
                    ),
            decreases 0x1_0000_0000 - steps,
        {
            let name = short_name(id);
            proof {
                lemma_same_back(id, first);
                lemma_name_at(first, steps as int, id);
            }
            if !table::named_contains(&self.tunnels, &name) {
                return id;
            }
            let left: u128 = u128::MAX - id;
            id = if left < IDS_PER_NAME {
                IDS_PER_NAME - left - 1
            } else {
                id + IDS_PER_NAME
            };
            steps += 1;
        }
        proof {
            if exists|other: u128| #[trigger]
                is_random_id(other) && !self@.tunnels.contains_key(short_name_of(other)) {
                let other = choose|other: u128| #[trigger]
                    is_random_id(other) && !self@.tunnels.contains_key(short_name_of(other));
                let here = first as int / IDS_PER_NAME as int;
                let there = other as int / IDS_PER_NAME as int;
                let front = if there >= here {
                    there - here
                } else {
                    there - here + 0x1_0000_0000
                };
                lemma_name_at(first, front, other);
                assert(self@.tunnels.contains_key(name_at(first, front)));
            }
        }
        first
    }

    /// The first frame of a connection; a client that asks for no name gets one by chance, which is
    /// free unless every name is taken.
    pub fn handshake(&mut self, incoming: Incoming, channel: u64) -> (outcome: Handshake)
        ensures
            exists|id: u128|
                is_random_id(id) && (final(self)@, outcome@) == old(self)@.handshake(
                    incoming@,
                    channel,
                    #[trigger] short_name_of(id),
                ),
            incoming@ == IncomingView::Message(
                MessageView::Register { token: old(self)@.token, name: None },
            ) && (exists|id: u128| #[trigger]
                is_random_id(id) && !old(self)@.tunnels.contains_key(short_name_of(id))) ==> (
            outcome@ matches HandshakeView::Established { subdomain, .. } && {
                &&& !old(self)@.tunnels.contains_key(subdomain)
                &&& final(self)@.tunnels == old(self)@.tunnels.insert(subdomain, channel)
            }),
    {
        let drawn = random_id();
        let id = self.id_of_free_name(drawn);
        let fallback = short_name(id);
        self.handshake_with(incoming, channel, fallback)
    }

    /// A later frame of a connection.
    pub fn route(&self, incoming: Incoming) -> (action: SocketAction)
        ensures
            action@ == self@.route(incoming@),
    {
        match incoming {
            Incoming::Message(message) => match message.response_id() {
                Some(id) => match table::numbered_get(&self.pending_requests, id) {
                    Some(channel) => SocketAction::Deliver { channel, message },
                    None => SocketAction::Skip,
                },
                None => SocketAction::Unexpected(message),
            },
            Incoming::Undecodable(_) => SocketAction::Skip,
            Incoming::NonText => SocketAction::Skip,
            Incoming::Failed(_) => SocketAction::Disconnect,
            Incoming::Closed => SocketAction::Disconnect,
        }
    }

    /// The connection of a tunnel has ended: its name is free again.
    pub fn disconnect(&mut self, subdomain: &String)
        ensures
            final(self)@ == old(self)@.without_tunnel(subdomain@),
    {
        table::named_remove(&mut self.tunnels, subdomain);
    }

    /// The channel that leads to the client of a tunnel.
    pub fn tunnel(&self, subdomain: &String) -> (channel: Option<u64>)
        ensures
            channel == (if self@.tunnels.contains_key(subdomain@) {
                Some(self@.tunnels[subdomain@])
            } else {
                None
            }),
    {
        table::named_get(&self.tunnels, subdomain)
    }

    /// The server's own domain.
    pub fn domain(&self) -> (domain: &String)
        ensures
            domain@ == self@.domain,
    {
        &self.domain
    }

    /// Whether a request waits under that id.
    pub fn is_waiting(&self, id: u128) -> (res: bool)
        ensures
            res == self@.pending.contains_key(id),
    {
        table::numbered_get(&self.pending_requests, id).is_some()
    }

    /// The id itself where no request waits under it, and otherwise the next one that is marked as
    /// random and free; where there is none, the id itself.
    pub fn free_id(&self, first: u128) -> (id: u128)
        requires
            is_random_id(first),
        ensures
            is_random_id(id),
            !self@.pending.contains_key(first) ==> id == first,
            (exists|other: u128| #[trigger]
                is_random_id(other) && !self@.pending.contains_key(other))
                ==> !self@.pending.contains_key(id),
    {
        if !self.is_waiting(first) {
            return first;
        }
        let mut id: u128 = first;
        let mut steps: u128 = 0;
        while steps < u128::MAX
            invariant
                is_random_id(first),
                self@.pending.contains_key(first),
                id == first + steps || id == first + steps - u128::MAX - 1,
                forall|other: u128|
                    #![trigger is_random_id(other)]
                    (first <= other <= first + steps || other + u128::MAX + 1 <= first + steps)
                        && is_random_id(other) ==> self@.pending.contains_key(other),
            decreases u128::MAX - steps,
        {
            id = if id == u128::MAX {
                0
            } else {
                id + 1
            };
            steps += 1;
            if is_marked_random(id) && !self.is_waiting(id) {
                return id;
            }
        }
        first
    }

    /// A request waits on that channel.
    pub(crate) fn add_pending(&mut self, id: u128, channel: u64)
        ensures
            final(self)@ == old(self)@.with_pending(id, channel),
    {
        table::numbered_insert(&mut self.pending_requests, id, channel);
    }

    /// A request waits no more.
    pub(crate) fn drop_pending(&mut self, id: u128)
        ensures
            final(self)@ == old(self)@.without_pending(id),
    {
        table::numbered_remove(&mut self.pending_requests, id);
    }
}

/// A client with the wrong token is told so, and nothing changes.
pub proof fn law_wrong_token(
    state: StateView,
    token: Seq<char>,
    name: Option<Seq<char>>,
    channel: u64,
    fallback: Seq<char>,
)
    requires
        token != state.token,
    ensures
        state.handshake(
            IncomingView::Message(MessageView::Register { token, name }),
            channel,
            fallback,
        ) == (
            state,
            HandshakeView::Refused {
                reply: MessageView::Error { message: "Invalid authentication token"@ },
            },
        ),
{
}

/// A name has one tunnel: a client whose name is taken, be it the one it asks for or the fallback,
/// is told so, and nothing changes.
pub proof fn law_name_taken(
    state: StateView,
    name: Option<Seq<char>>,
    channel: u64,
    fallback: Seq<char>,
)
    requires
        state.tunnels.contains_key(text::given_or(name, fallback)),
    ensures
        state.handshake(
            IncomingView::Message(MessageView::Register { token: state.token, name }),
            channel,
            fallback,
        ) == (
            state,
            HandshakeView::Refused {
                reply: MessageView::Error {
                    message: "Subdomain '"@ + text::given_or(name, fallback)
                        + "' is already in use"@,
                },
            },
        ),
{
}

/// A client with the right token gets the name it asks for if that is free, and one that asks for
/// none gets the fallback; the tunnel then leads to the client's channel.
pub proof fn law_name_granted(
    state: StateView,
    name: Option<Seq<char>>,
    channel: u64,
    fallback: Seq<char>,
)
    requires
        !state.tunnels.contains_key(text::given_or(name, fallback)),
    ensures
        ({
            let subdomain = text::given_or(name, fallback);
            let (after, outcome) = state.handshake(
                IncomingView::Message(MessageView::Register { token: state.token, name }),
                channel,
                fallback,
            );
            &&& outcome == (HandshakeView::Established {
                subdomain,
                reply: MessageView::Registered { subdomain },
            })
            &&& after.tunnels.contains_key(subdomain)
            &&& after.tunnels[subdomain] == channel
        }),
{
}

/// Whatever the first frame of a connection is, it neither ends nor redirects a tunnel that stands,
/// and it touches no request, nor the settings.
pub proof fn law_tunnels_stand(
    state: StateView,
    incoming: IncomingView,
    channel: u64,
    fallback: Seq<char>,
)
    ensures
        ({
            let after = state.handshake(incoming, channel, fallback).0;
            &&& state.tunnels.submap_of(after.tunnels)
            &&& after.pending == state.pending
            &&& after.token == state.token
            &&& after.domain == state.domain
        }),
{
}

/// Only a message that registers with the right token brings a tunnel about.
pub proof fn law_only_registration(
    state: StateView,
    incoming: IncomingView,
    channel: u64,
    fallback: Seq<char>,
)
    ensures
        state.handshake(incoming, channel, fallback).0 != state ==> (incoming matches
            IncomingView::Message(MessageView::Register { token, .. }) && token == state.token),
        state.handshake(incoming, channel, fallback).1 is Established ==> (incoming matches
            IncomingView::Message(MessageView::Register { token, .. }) && token == state.token),
{
}

/// The end of a connection undoes its beginning: the state is what it was before the tunnel.
pub proof fn law_disconnect_undoes(
    state: StateView,
    incoming: IncomingView,
    channel: u64,
    fallback: Seq<char>,
)
    ensures
        ({
            let (after, outcome) = state.handshake(incoming, channel, fallback);
            outcome matches HandshakeView::Established { subdomain, .. } ==> after.without_tunnel(
                subdomain,
            ) == state
        }),
{
    let (after, outcome) = state.handshake(incoming, channel, fallback);
    if let HandshakeView::Established { subdomain, .. } = outcome {
        assert(after.without_tunnel(subdomain).tunnels =~= state.tunnels);
    }
}

/// A message is delivered if and only if it is one of a response whose request waits; it goes, as
/// it is, to the channel of that request.
pub proof fn law_delivery(state: StateView, message: MessageView, channel: u64)
    ensures
        (state.route(IncomingView::Message(message)) == SocketActionView::Deliver {
            channel,
            message,
        }) <==> (message.response_id() matches Some(id) && state.pending.contains_key(id)
            && state.pending[id] == channel),
{
}

/// What a client is told that is refused: that its token is wrong, or that the name is taken.
pub proof fn law_refusals(subdomain: Seq<char>)
    ensures
        invalid_token_reply() == (MessageView::Error { message: "Invalid authentication token"@ }),
        name_taken_reply(subdomain) == (MessageView::Error {
            message: "Subdomain '"@ + subdomain + "' is already in use"@,
        }),
{
}

/// A client that registers with the right token under a name that is free is told that name, as it
/// is, and the tunnel leads to it; every other tunnel, every request and the settings stay.
pub proof fn law_registered(
    state: StateView,
    name: Seq<char>,
    channel: u64,
    fallback: Seq<char>,
)
    ensures
        ({
            let hello = IncomingView::Message(
                MessageView::Register { token: state.token, name: Some(name) },
            );
            let (after, outcome) = state.handshake(hello, channel, fallback);
            if state.tunnels.contains_key(name) {
                &&& after == state
                &&& outcome is Refused
            } else {
                &&& outcome == (HandshakeView::Established {
                    subdomain: name,
                    reply: MessageView::Registered { subdomain: name },
                })
                &&& after.tunnels == state.tunnels.insert(name, channel)
                &&& after.pending == state.pending
                &&& after.token == state.token
                &&& after.domain == state.domain
            }
        }),
{
}

/// A connection whose first frame registers nothing ends without a word, and changes nothing.
pub proof fn law_dropped(
    state: StateView,
    incoming: IncomingView,
    channel: u64,
    fallback: Seq<char>,
)
    requires
        !(incoming matches IncomingView::Message(MessageView::Register { .. })),
    ensures
        state.handshake(incoming, channel, fallback) == (state, HandshakeView::Dropped),
{
}

/// The end of a tunnel's connection frees its name, and touches nothing else.
pub proof fn law_disconnect(state: StateView, subdomain: Seq<char>)
    ensures
        ({
            let after = state.without_tunnel(subdomain);
            &&& !after.tunnels.contains_key(subdomain)
            &&& forall|other: Seq<char>|
                other != subdomain ==> (#[trigger] after.tunnels.contains_key(other)
                    <==> state.tunnels.contains_key(other))
            &&& forall|other: Seq<char>| #[trigger]
                after.tunnels.contains_key(other) ==> after.tunnels[other] == state.tunnels[other]
            &&& after.pending == state.pending
            &&& after.token == state.token
            &&& after.domain == state.domain
        }),
{
}

/// What comes on a tunnel's connection and is no message of a response is noted as it is, or passed
/// over where it holds no message; only the failure or the end of the connection ends it.
pub proof fn law_other_frames(state: StateView, message: MessageView, reason: Seq<char>)
    ensures
        message is Register || message is Registered || message is RequestStart
            || message is RequestChunk || message is RequestEnd || message is Error ==> state.route(
            IncomingView::Message(message),
        ) == SocketActionView::Unexpected(message),
        state.route(IncomingView::Undecodable(reason)) == SocketActionView::Skip,
        state.route(IncomingView::NonText) == SocketActionView::Skip,
        state.route(IncomingView::Failed(reason)) == SocketActionView::Disconnect,
        state.route(IncomingView::Closed) == SocketActionView::Disconnect,
{
}

/// What comes of a first frame, and what is done with a later one, say what they hold, in full.
pub proof fn law_outcomes_say(subdomain: String, reply: TunnelMessage, channel: u64)
    ensures
        (Handshake::Established { subdomain, reply })@ == (HandshakeView::Established {
            subdomain: subdomain@,
            reply: reply@,
        }),
        (Handshake::Refused { reply })@ == (HandshakeView::Refused { reply: reply@ }),
        Handshake::Dropped@ == HandshakeView::Dropped,
        (SocketAction::Deliver { channel, message: reply })@ == (SocketActionView::Deliver {
            channel,
            message: reply@,
        }),
        SocketAction::Unexpected(reply)@ == SocketActionView::Unexpected(reply@),
        SocketAction::Skip@ == SocketActionView::Skip,
        SocketAction::Disconnect@ == SocketActionView::Disconnect,
{
}

} // verus!
