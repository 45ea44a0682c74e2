//! A server as a whole: everything that happens to it, and what each of the requests that it serves
//! at the same time gets of its response.

use vstd::prelude::*;

use crate::exchange::{
    is_status, ActionView, EventView, ExchangeView, OpenedView, RequestView, Stage,
};
use crate::headers::{answerable, Field};
use crate::laws::{emitted, law_any_response_arrives, played, replies, response_bytes};
use crate::message::{on_channel, IncomingView, MessageView};
use crate::server::{SocketActionView, StateView};
use crate::table::{alone_on, unused};

verus! {

/// What happens to a server.
pub enum Occurrence {
    /// A request comes in, is to have that id, and would wait on that channel.
    Request { request: RequestView, channel: u64, id: u128 },
    /// Something happens to a request that was handed to a tunnel: the one at that place among
    /// them.
    Progress { exchange: int, event: EventView },
    /// A later frame comes on the connection of some tunnel.
    Frame { incoming: IncomingView },
    /// The first frame comes on a connection that `channel` leads to.
    Handshake { incoming: IncomingView, channel: u64, fallback: Seq<char> },
    /// The connection of a tunnel ends.
    Disconnect { subdomain: Seq<char> },
}

impl Occurrence {
    /// The message that this brings for the response to the request with that id.
    pub open spec fn response_message(self, id: u128) -> Option<MessageView> {
        match self {
            Occurrence::Frame { incoming: IncomingView::Message(message) } => {
                if message.response_id() == Some(id) {
                    Some(message)
                } else {
                    None
                }
            },
            _ => None,
        }
    }

    /// Whether this leaves the id and the channel to the request that has them: it brings no other
    /// with the one or on the other.
    pub open spec fn spares(self, id: u128, channel: u64) -> bool {
        self matches Occurrence::Request { channel: other_channel, id: other_id, .. } ==> other_id
            != id && other_channel != channel
    }
}

/// A server so far.
pub struct ServiceView {
    /// The state.
    pub state: StateView,
    /// The requests that were handed to a tunnel, in order.
    pub exchanges: Seq<ExchangeView>,
    /// The messages that were handed to a request, each with the channel, in order.
    pub delivered: Seq<(u64, MessageView)>,
}

impl ServiceView {
    /// The server one step on.
    pub open spec fn step(self, occurrence: Occurrence) -> ServiceView {
        match occurrence {
            Occurrence::Request { request, channel, id } => {
                let (state, opened) = self.state.open(request, channel, id);
                match opened {
                    OpenedView::Answered(_) => ServiceView { state, ..self },
                    OpenedView::Forwarded { exchange, .. } => ServiceView {
                        state,
                        exchanges: self.exchanges.push(exchange),
                        ..self
                    },
                }
            },
            Occurrence::Progress { exchange, event } => ServiceView {
                state: self.state.settle(self.exchanges[exchange], event),
                exchanges: self.exchanges.update(exchange, self.exchanges[exchange].after(event)),
                ..self
            },
            Occurrence::Frame { incoming } => match self.state.route(incoming) {
                SocketActionView::Deliver { channel, message } => ServiceView {
                    delivered: self.delivered.push((channel, message)),
                    ..self
                },
                _ => self,
            },
            Occurrence::Handshake { incoming, channel, fallback } => ServiceView {
                state: self.state.handshake(incoming, channel, fallback).0,
                ..self
            },
            Occurrence::Disconnect { subdomain } => ServiceView {
                state: self.state.without_tunnel(subdomain),
                ..self
            },
        }
    }

    /// The server after all of that has happened.
    pub open spec fn run(self, occurrences: Seq<Occurrence>) -> ServiceView
        decreases occurrences.len(),
    {
        if occurrences.len() == 0 {
            self
        } else {
            self.run(occurrences.drop_last()).step(occurrences.last())
        }
    }
}

/// The messages for the response to the request with that id, in the order in which they come.
pub open spec fn responding_to(occurrences: Seq<Occurrence>, id: u128) -> Seq<MessageView> {
    occurrences.filter_map(|occurrence: Occurrence| occurrence.response_message(id))
}

/// What a request gets of its response, from when it is handed to a tunnel on. For as long as it is
/// not over, exactly the messages for its id come on its channel, in order, however the responses
/// are mixed and on whichever connections they come. Once it is over nothing more comes.
pub proof fn law_interleaved_responses(
    service: ServiceView,
    request: RequestView,
    channel: u64,
    id: u128,
    occurrences: Seq<Occurrence>,
)
    requires
        service.state.open(request, channel, id).1 is Forwarded,
        unused(service.state.pending, channel),
        forall|i: int|
            0 <= i < occurrences.len() ==> (#[trigger] occurrences[i]).spares(id, channel),
    ensures
        ({
            let opened = service.step(Occurrence::Request { request, channel, id });
            let after = opened.run(occurrences);
            let all = on_channel(service.delivered, channel) + responding_to(occurrences, id);
            &&& on_channel(after.delivered, channel).is_prefix_of(all)
            &&& if after.state.pending.contains_key(id) {
                &&& after.state.pending[id] == channel
                &&& on_channel(after.delivered, channel) == all
            } else {
                unused(after.state.pending, channel)
            }
        }),
{
    let opened = service.step(Occurrence::Request { request, channel, id });
    lemma_interleaved_responses(opened, id, channel, occurrences);
}

proof fn lemma_interleaved_responses(
    opened: ServiceView,
    id: u128,
    channel: u64,
    occurrences: Seq<Occurrence>,
)
    requires
        alone_on(opened.state.pending, id, channel),
        forall|i: int|
            0 <= i < occurrences.len() ==> (#[trigger] occurrences[i]).spares(id, channel),
    ensures
        ({
            let after = opened.run(occurrences);
            let all = on_channel(opened.delivered, channel) + responding_to(occurrences, id);
            &&& alone_on(after.state.pending, id, channel)
            &&& on_channel(after.delivered, channel).is_prefix_of(all)
            &&& after.state.pending.contains_key(id) ==> on_channel(after.delivered, channel) == all
        }),
    decreases occurrences.len(),
{
    let after = opened.run(occurrences);
    let all = on_channel(opened.delivered, channel) + responding_to(occurrences, id);
    if occurrences.len() == 0 {
        assert(on_channel(after.delivered, channel) =~= all);
    } else {
        let front = occurrences.drop_last();
        assert forall|i: int| 0 <= i < front.len() implies (#[trigger] front[i]).spares(
            id,
            channel,
        ) by {
            assert(front[i] == occurrences[i]);
        }
        lemma_interleaved_responses(opened, id, channel, front);
        let before = opened.run(front);
        assert(occurrences[occurrences.len() - 1].spares(id, channel));
        if after.delivered.len() > before.delivered.len() {
            assert(after.delivered.drop_last() =~= before.delivered);
        }
        if after.state.pending.contains_key(id) {
            assert(on_channel(after.delivered, channel) =~= all);
        }
    }
}

/// A request is answered with its own response alone. Where the messages that come for its id are
/// the start of a response, more messages, and its end, the browser gets that status, the fields as
/// far as HTTP admits them, and the chunks that can be decoded, in their order. One that cannot be
/// decoded is passed over, and the chunks of other responses that come in between are not in it.
pub proof fn law_interleaved_response_body(
    service: ServiceView,
    request: RequestView,
    channel: u64,
    id: u128,
    occurrences: Seq<Occurrence>,
    status: u16,
    headers: Seq<Field>,
    messages: Seq<MessageView>,
)
    requires
        service.state.open(request, channel, id).1 is Forwarded,
        unused(service.state.pending, channel),
        on_channel(service.delivered, channel).len() == 0,
        forall|i: int|
            0 <= i < occurrences.len() ==> (#[trigger] occurrences[i]).spares(id, channel),
        service.step(Occurrence::Request { request, channel, id }).run(
            occurrences,
        ).state.pending.contains_key(id),
        is_status(status),
        responding_to(occurrences, id) == seq![MessageView::ResponseStart { id, status, headers }]
            + messages.push(MessageView::ResponseEnd { id }),
        forall|i: int| 0 <= i < messages.len() ==> !((#[trigger] messages[i]) is ResponseEnd),
    ensures
        ({
            let opened = service.step(Occurrence::Request { request, channel, id });
            let after = opened.run(occurrences);
            let awaiting = ExchangeView { id, stage: Stage::Awaiting };
            let (exchange, actions) = played(
                awaiting,
                replies(on_channel(after.delivered, channel)),
            );
            &&& exchange == (ExchangeView { id, stage: Stage::Done })
            &&& actions[0] == ActionView::StartResponse { status, headers: answerable(headers) }
            &&& actions.last() == ActionView::Finish
            &&& emitted(actions) == messages.filter_map(
                |message: MessageView| response_bytes(message),
            )
        }),
{
    law_interleaved_responses(service, request, channel, id, occurrences);
    law_any_response_arrives(id, status, headers, messages);
    assert(on_channel(service.delivered, channel) + responding_to(occurrences, id)
        =~= responding_to(occurrences, id));
}

} // verus!
