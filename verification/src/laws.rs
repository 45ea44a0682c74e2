//! What holds of a tunnel as a whole, from the browser to the local server and back.

use vstd::prelude::*;

use crate::body::{
    base64_bytes, base64_text, encodable, request_body_step_of, response_body_step_of, survives,
    BodyStepView,
};
use crate::client::{
    bad_gateway_bytes, local_url_of, public_url_of, ClientActionView, ClientView, LocalEventView,
    LocalRequestView, RelayStage, RelayView,
};
use crate::decimal::digits;
use crate::exchange::{
    is_status, law_start, lost_reply, offline_reply, path_or_root, start_of, timeout_reply,
    ActionView, EventView, ExchangeView, OpenedView, RequestView, Stage,
};
use crate::headers::{
    answerable, carries, field_name_of, gathered, has_name, host_text_of, is_field_value,
    law_answerable, law_gathered, law_host_text, law_without_host, lemma_map_of, without_host_of,
    Field, RawField,
};
use crate::host::{dotted, law_reached_by_name, subdomain_of};
use crate::message::{IncomingView, MessageView};
use crate::server::{HandshakeView, SocketActionView, StateView};
use crate::text::lowercase;

verus! {

/// Whether a request that is on its way waits for its reply, and one that is over does not.
pub open spec fn waits(state: StateView, exchange: ExchangeView) -> bool {
    exchange.stage != Stage::Done <==> state.pending.contains_key(exchange.id)
}

/// A request that goes to a tunnel waits from then on, on its own channel; one that is answered at
/// once leaves everything as it was. No tunnel and no other request is touched.
pub proof fn law_opening(state: StateView, request: RequestView, channel: u64, id: u128)
    ensures
        ({
            let (after, opened) = state.open(request, channel, id);
            &&& opened matches OpenedView::Answered(_) ==> after == state
            &&& opened matches OpenedView::Forwarded { exchange, .. } ==> {
                &&& exchange.id == id
                &&& waits(after, exchange)
                &&& after.pending[id] == channel
            }
            &&& after.tunnels == state.tunnels
            &&& after.pending.remove(id) == state.pending.remove(id)
        }),
{
    let after = state.open(request, channel, id).0;
    assert(after.pending.remove(id) =~= state.pending.remove(id));
}

/// Through every step, a request that is on its way keeps waiting on its channel, and one that is
/// over waits no more. No tunnel and no other request is touched.
pub proof fn law_waits_until_over(state: StateView, exchange: ExchangeView, event: EventView)
    requires
        exchange.expects(event),
        waits(state, exchange),
    ensures
        ({
            let after = state.settle(exchange, event);
            let next = exchange.after(event);
            &&& next.id == exchange.id
            &&& waits(after, next)
            &&& next.stage != Stage::Done ==> after.pending[next.id] == state.pending[next.id]
            &&& after.tunnels == state.tunnels
            &&& after.pending.remove(next.id) == state.pending.remove(next.id)
        }),
{
    let after = state.settle(exchange, event);
    assert(after.pending.remove(exchange.id) =~= state.pending.remove(exchange.id));
}

/// A request is over if and only if its answer is complete: the server has answered it by itself,
/// or the body of the response has ended.
pub proof fn law_over_when_answered(exchange: ExchangeView, event: EventView)
    requires
        exchange.expects(event),
    ensures
        exchange.after(event).stage == Stage::Done <==> (exchange.next(event).1 is Respond
            || exchange.next(event).1 is Finish),
{
}

/// A request whose tunnel is lost before its start is sent, and one whose client does not begin a
/// response, is answered by the server itself; nothing else makes the server answer by itself.
pub proof fn law_own_answers(exchange: ExchangeView, event: EventView)
    requires
        exchange.expects(event),
    ensures
        exchange.stage == Stage::Opening && event == EventView::Sent(false) ==> exchange.next(
            event,
        ).1 == ActionView::Respond(lost_reply()),
        exchange.stage == Stage::Awaiting && !(event matches EventView::Reply(
            Some(MessageView::ResponseStart { .. }),
        )) ==> exchange.next(event).1 == ActionView::Respond(timeout_reply()),
        exchange.next(event).1 matches ActionView::Respond(reply) ==> reply == lost_reply() || reply
            == timeout_reply(),
{
}

/// The messages of a body of that many chunks that a server sends.
pub open spec fn request_chunks(id: u128, chunks: Seq<Seq<u8>>) -> Seq<MessageView> {
    chunks.map_values(|chunk: Seq<u8>| MessageView::RequestChunk { id, body: base64_text(chunk) })
}

/// The messages of a body of that many chunks that a client sends.
pub open spec fn response_chunks(id: u128, chunks: Seq<Seq<u8>>) -> Seq<MessageView> {
    chunks.map_values(|chunk: Seq<u8>| MessageView::ResponseChunk { id, body: base64_text(chunk) })
}

/// A request through a series of events: where it ends up, and what the server does on the way.
pub open spec fn played(exchange: ExchangeView, events: Seq<EventView>) -> (
    ExchangeView,
    Seq<ActionView>,
)
    decreases events.len(),
{
    if events.len() == 0 {
        (exchange, Seq::empty())
    } else {
        let (before, actions) = played(exchange, events.drop_last());
        (before.after(events.last()), actions.push(before.next(events.last()).1))
    }
}

/// Whether each of a series of events can happen to the request where it then stands.
pub open spec fn playable(exchange: ExchangeView, events: Seq<EventView>) -> bool
    decreases events.len(),
{
    events.len() == 0 || {
        &&& playable(exchange, events.drop_last())
        &&& played(exchange, events.drop_last()).0.expects(events.last())
    }
}

/// The messages among the actions of a server.
pub open spec fn sent(actions: Seq<ActionView>) -> Seq<MessageView>
    decreases actions.len(),
{
    if actions.len() == 0 {
        Seq::empty()
    } else {
        match actions.last() {
            ActionView::Send(message) => sent(actions.drop_last()).push(message),
            _ => sent(actions.drop_last()),
        }
    }
}

/// What happens to a request whose body is read in these chunks and whose tunnel takes every
/// message, up to the end of the body.
pub open spec fn upload(chunks: Seq<Seq<u8>>) -> Seq<EventView>
    decreases chunks.len(),
{
    if chunks.len() == 0 {
        seq![EventView::Sent(true)]
    } else {
        upload(chunks.drop_last()).push(EventView::Body(Some(chunks.last()))).push(
            EventView::Sent(true),
        )
    }
}

proof fn lemma_upload(id: u128, chunks: Seq<Seq<u8>>)
    requires
        forall|i: int| 0 <= i < chunks.len() ==> encodable((#[trigger] chunks[i]).len()),
    ensures
        ({
            let opening = ExchangeView { id, stage: Stage::Opening };
            let (exchange, actions) = played(opening, upload(chunks));
            &&& playable(opening, upload(chunks))
            &&& exchange == (ExchangeView { id, stage: Stage::Uploading })
            &&& sent(actions) == request_chunks(id, chunks)
        }),
    decreases chunks.len(),
{
    let opening = ExchangeView { id, stage: Stage::Opening };
    let events = upload(chunks);
    reveal_with_fuel(played, 3);
    reveal_with_fuel(playable, 3);
    reveal_with_fuel(sent, 3);
    if chunks.len() == 0 {
        assert(events.drop_last() =~= Seq::<EventView>::empty());
        let actions = played(opening, events).1;
        assert(actions.drop_last() =~= Seq::<ActionView>::empty());
        assert(sent(actions) =~= request_chunks(id, chunks));
    } else {
        let front = chunks.drop_last();
        assert forall|i: int| 0 <= i < front.len() implies encodable(
            (#[trigger] front[i]).len(),
        ) by {
            assert(front[i] == chunks[i]);
        }
        lemma_upload(id, front);
        assert(encodable(chunks[chunks.len() - 1].len()));
        let before = upload(front);
        let middle = before.push(EventView::Body(Some(chunks.last())));
        assert(events.drop_last() =~= middle);
        assert(middle.drop_last() =~= before);
        let first = played(opening, before).1;
        let second = played(opening, middle).1;
        let third = played(opening, events).1;
        assert(second.drop_last() =~= first);
        assert(third.drop_last() =~= second);
        assert(sent(third) =~= request_chunks(id, chunks));
    }
}

/// The body of a request goes to the client chunk by chunk, in the order in which it was read, and
/// then its end; after that the server waits for the response.
pub proof fn law_upload(id: u128, chunks: Seq<Seq<u8>>, taken: bool)
    requires
        forall|i: int| 0 <= i < chunks.len() ==> encodable((#[trigger] chunks[i]).len()),
    ensures
        ({
            let opening = ExchangeView { id, stage: Stage::Opening };
            let events = upload(chunks).push(EventView::Body(None)).push(EventView::Sent(taken));
            let (exchange, actions) = played(opening, events);
            &&& playable(opening, events)
            &&& exchange == (ExchangeView { id, stage: Stage::Awaiting })
            &&& sent(actions) == request_chunks(id, chunks).push(MessageView::RequestEnd { id })
            &&& actions.last() == ActionView::AwaitReply
        }),
{
    lemma_upload(id, chunks);
    let opening = ExchangeView { id, stage: Stage::Opening };
    let before = upload(chunks);
    let middle = before.push(EventView::Body(None));
    let events = middle.push(EventView::Sent(taken));
    reveal_with_fuel(played, 3);
    reveal_with_fuel(playable, 3);
    reveal_with_fuel(sent, 3);
    assert(events.drop_last() =~= middle);
    assert(middle.drop_last() =~= before);
    let first = played(opening, before).1;
    let second = played(opening, middle).1;
    let third = played(opening, events).1;
    assert(second.drop_last() =~= first);
    assert(third.drop_last() =~= second);
}

/// The chunks of the body that a series of messages for a request makes up.
pub open spec fn request_body_of(messages: Seq<MessageView>) -> Seq<Seq<u8>>
    decreases messages.len(),
{
    if messages.len() == 0 {
        Seq::empty()
    } else {
        match request_body_step_of(Some(messages[0])) {
            BodyStepView::Emit(bytes) => seq![bytes] + request_body_of(messages.skip(1)),
            BodyStepView::Skip => request_body_of(messages.skip(1)),
            BodyStepView::End => Seq::empty(),
        }
    }
}

/// The chunks of the body that a series of messages for a response makes up.
pub open spec fn response_body_of(messages: Seq<MessageView>) -> Seq<Seq<u8>>
    decreases messages.len(),
{
    if messages.len() == 0 {
        Seq::empty()
    } else {
        match response_body_step_of(Some(messages[0])) {
            BodyStepView::Emit(bytes) => seq![bytes] + response_body_of(messages.skip(1)),
            BodyStepView::Skip => response_body_of(messages.skip(1)),
            BodyStepView::End => Seq::empty(),
        }
    }
}

/// The bytes that a message adds to the body of a request: those of a chunk that can be decoded.
pub open spec fn request_bytes(message: MessageView) -> Option<Seq<u8>> {
    match message {
        MessageView::RequestChunk { body, .. } => base64_bytes(body),
        _ => None,
    }
}

/// The bytes that a message adds to the body of a response: those of a chunk that can be decoded.
pub open spec fn response_bytes(message: MessageView) -> Option<Seq<u8>> {
    match message {
        MessageView::ResponseChunk { body, .. } => base64_bytes(body),
        _ => None,
    }
}

proof fn lemma_filter_map_first(
    messages: Seq<MessageView>,
    f: spec_fn(MessageView) -> Option<Seq<u8>>,
)
    requires
        messages.len() > 0,
    ensures
        messages.filter_map(f) == (match f(messages[0]) {
            Some(bytes) => seq![bytes] + messages.skip(1).filter_map(f),
            None => messages.skip(1).filter_map(f),
        }),
    decreases messages.len(),
{
    let rest = messages.skip(1);
    let front = messages.drop_last();
    if messages.len() == 1 {
        assert(front.filter_map(f) =~= Seq::<Seq<u8>>::empty());
        assert(rest.filter_map(f) =~= Seq::<Seq<u8>>::empty());
    } else {
        lemma_filter_map_first(front, f);
        assert(front.skip(1) =~= rest.drop_last());
        assert(rest.last() == messages.last());
    }
    assert(messages.filter_map(f) =~= (match f(messages[0]) {
        Some(bytes) => seq![bytes] + rest.filter_map(f),
        None => rest.filter_map(f),
    }));
}

/// The body of a request is the bytes of the chunks that can be decoded, in their order, up to the
/// end of the request; a chunk that cannot be decoded is passed over, and so is what follows the
/// end.
pub proof fn law_request_body(messages: Seq<MessageView>, id: u128, rest: Seq<MessageView>)
    requires
        forall|i: int| 0 <= i < messages.len() ==> !((#[trigger] messages[i]) is RequestEnd),
    ensures
        request_body_of(messages.push(MessageView::RequestEnd { id }) + rest)
            == messages.filter_map(|message: MessageView| request_bytes(message)),
    decreases messages.len(),
{
    let f = |message: MessageView| request_bytes(message);
    let all = messages.push(MessageView::RequestEnd { id }) + rest;
    if messages.len() > 0 {
        let tail = messages.skip(1);
        assert forall|i: int| 0 <= i < tail.len() implies !((#[trigger] tail[i]) is RequestEnd) by {
            assert(tail[i] == messages[i + 1]);
        }
        law_request_body(tail, id, rest);
        lemma_filter_map_first(messages, f);
        assert(all[0] == messages[0]);
        assert(all.skip(1) =~= tail.push(MessageView::RequestEnd { id }) + rest);
    } else {
        assert(all[0] == MessageView::RequestEnd { id });
    }
}

/// The body of a response is the bytes of the chunks that can be decoded, in their order, up to the
/// end of the response; a chunk that cannot be decoded is passed over, and so is what follows the
/// end.
pub proof fn law_response_body(messages: Seq<MessageView>, id: u128, rest: Seq<MessageView>)
    requires
        forall|i: int| 0 <= i < messages.len() ==> !((#[trigger] messages[i]) is ResponseEnd),
    ensures
        response_body_of(messages.push(MessageView::ResponseEnd { id }) + rest)
            == messages.filter_map(|message: MessageView| response_bytes(message)),
    decreases messages.len(),
{
    let f = |message: MessageView| response_bytes(message);
    let all = messages.push(MessageView::ResponseEnd { id }) + rest;
    if messages.len() > 0 {
        let tail = messages.skip(1);
        assert forall|i: int| 0 <= i < tail.len() implies !(
        (#[trigger] tail[i]) is ResponseEnd) by {
            assert(tail[i] == messages[i + 1]);
        }
        law_response_body(tail, id, rest);
        lemma_filter_map_first(messages, f);
        assert(all[0] == messages[0]);
        assert(all.skip(1) =~= tail.push(MessageView::ResponseEnd { id }) + rest);
    } else {
        assert(all[0] == MessageView::ResponseEnd { id });
    }
}

/// What the server read of a request's body is what the local server gets of it, chunk by chunk.
/// (That a chunk survives its base64 text is what the step that sends it gives.)
pub proof fn law_request_body_arrives(id: u128, chunks: Seq<Seq<u8>>)
    requires
        forall|i: int| 0 <= i < chunks.len() ==> survives(#[trigger] chunks[i]),
    ensures
        request_body_of(request_chunks(id, chunks).push(MessageView::RequestEnd { id })) == chunks,
    decreases chunks.len(),
{
    let messages = request_chunks(id, chunks).push(MessageView::RequestEnd { id });
    if chunks.len() > 0 {
        let rest = chunks.skip(1);
        assert forall|i: int| 0 <= i < rest.len() implies survives(#[trigger] rest[i]) by {
            assert(rest[i] == chunks[i + 1]);
        }
        law_request_body_arrives(id, rest);
        assert(survives(chunks[0]));
        assert(messages.skip(1) =~= request_chunks(id, rest).push(MessageView::RequestEnd { id }));
        assert(seq![chunks[0]] + rest =~= chunks);
    } else {
        assert(request_body_of(messages) =~= chunks);
    }
}

/// The body of a request as the local server gets it, out of what the server sends for one that it
/// reads in these chunks.
pub proof fn law_request_body_through_tunnel(id: u128, chunks: Seq<Seq<u8>>, taken: bool)
    requires
        forall|i: int|
            0 <= i < chunks.len() ==> {
                &&& encodable((#[trigger] chunks[i]).len())
                &&& survives(chunks[i])
            },
    ensures
        ({
            let opening = ExchangeView { id, stage: Stage::Opening };
            let events = upload(chunks).push(EventView::Body(None)).push(EventView::Sent(taken));
            request_body_of(sent(played(opening, events).1)) == chunks
        }),
{
    law_upload(id, chunks, taken);
    law_request_body_arrives(id, chunks);
}

/// The answer of a local server through a series of events: where it ends up, and the messages that
/// the client sends on the way.
pub open spec fn relayed(relay: RelayView, events: Seq<LocalEventView>) -> (
    RelayView,
    Seq<MessageView>,
)
    decreases events.len(),
{
    if events.len() == 0 {
        (relay, Seq::empty())
    } else {
        let (before, messages) = relayed(relay, events.drop_last());
        (before.after(events.last()), messages + before.next(events.last()).1)
    }
}

/// Whether each of a series of events can come of the request where its answer then stands.
pub open spec fn relayable(relay: RelayView, events: Seq<LocalEventView>) -> bool
    decreases events.len(),
{
    events.len() == 0 || {
        &&& relayable(relay, events.drop_last())
        &&& relayed(relay, events.drop_last()).0.expects(events.last())
    }
}

/// What comes of a request that the local server answers with this head and a body of these chunks,
/// up to the end of the body.
pub open spec fn answer(status: u16, headers: Seq<RawField>, chunks: Seq<Seq<u8>>) -> Seq<
    LocalEventView,
>
    decreases chunks.len(),
{
    if chunks.len() == 0 {
        seq![LocalEventView::Answered { status, headers }]
    } else {
        answer(status, headers, chunks.drop_last()).push(LocalEventView::Body(Some(chunks.last())))
    }
}

/// The messages of a response without its end.
pub open spec fn response_without_end(
    id: u128,
    status: u16,
    headers: Seq<Field>,
    chunks: Seq<Seq<u8>>,
) -> Seq<MessageView> {
    seq![MessageView::ResponseStart { id, status, headers }] + response_chunks(id, chunks)
}

/// The messages of a response.
pub open spec fn response(id: u128, status: u16, headers: Seq<Field>, chunks: Seq<Seq<u8>>) -> Seq<
    MessageView,
> {
    response_without_end(id, status, headers, chunks).push(MessageView::ResponseEnd { id })
}

proof fn lemma_answer(id: u128, status: u16, headers: Seq<RawField>, chunks: Seq<Seq<u8>>)
    requires
        forall|i: int| 0 <= i < chunks.len() ==> encodable((#[trigger] chunks[i]).len()),
    ensures
        ({
            let waiting = RelayView { id, stage: RelayStage::Waiting };
            let (relay, messages) = relayed(waiting, answer(status, headers, chunks));
            &&& relayable(waiting, answer(status, headers, chunks))
            &&& relay == (RelayView { id, stage: RelayStage::Streaming })
            &&& messages == response_without_end(id, status, gathered(headers), chunks)
        }),
    decreases chunks.len(),
{
    let waiting = RelayView { id, stage: RelayStage::Waiting };
    let events = answer(status, headers, chunks);
    let messages = relayed(waiting, events).1;
    if chunks.len() == 0 {
        assert(events.drop_last() =~= Seq::<LocalEventView>::empty());
        assert(relayed(waiting, events.drop_last()) == (waiting, Seq::<MessageView>::empty()));
        assert(relayable(waiting, events.drop_last()));
        assert(messages =~= response_without_end(id, status, gathered(headers), chunks));
    } else {
        let front = chunks.drop_last();
        assert forall|i: int| 0 <= i < front.len() implies encodable(
            (#[trigger] front[i]).len(),
        ) by {
            assert(front[i] == chunks[i]);
        }
        lemma_answer(id, status, headers, front);
        assert(encodable(chunks[chunks.len() - 1].len()));
        assert(events.drop_last() =~= answer(status, headers, front));
        assert(messages =~= response_without_end(id, status, gathered(headers), chunks));
    }
}

/// The answer of a local server goes to the server as the start of a response, its chunks in the
/// order in which they were read, and its end.
pub proof fn law_answer(id: u128, status: u16, headers: Seq<RawField>, chunks: Seq<Seq<u8>>)
    requires
        forall|i: int| 0 <= i < chunks.len() ==> encodable((#[trigger] chunks[i]).len()),
    ensures
        ({
            let waiting = RelayView { id, stage: RelayStage::Waiting };
            let events = answer(status, headers, chunks).push(LocalEventView::Body(None));
            let (relay, messages) = relayed(waiting, events);
            &&& relayable(waiting, events)
            &&& relay == (RelayView { id, stage: RelayStage::Done })
            &&& messages == response(id, status, gathered(headers), chunks)
        }),
{
    lemma_answer(id, status, headers, chunks);
    let waiting = RelayView { id, stage: RelayStage::Waiting };
    let events = answer(status, headers, chunks).push(LocalEventView::Body(None));
    assert(events.drop_last() =~= answer(status, headers, chunks));
    assert(relayed(waiting, events).1 =~= response(id, status, gathered(headers), chunks));
}

/// Where the local server cannot be reached, the client answers for it: status 502, no fields, and
/// the words `Bad Gateway`.
pub proof fn law_unreachable(id: u128)
    ensures
        ({
            let waiting = RelayView { id, stage: RelayStage::Waiting };
            waiting.next(LocalEventView::Unreachable) == (
                RelayStage::Done,
                response(id, 502, Seq::<Field>::empty(), seq![bad_gateway_bytes()]),
            )
        }),
{
    let waiting = RelayView { id, stage: RelayStage::Waiting };
    assert(waiting.next(LocalEventView::Unreachable).1 =~= response(
        id,
        502,
        Seq::<Field>::empty(),
        seq![bad_gateway_bytes()],
    ));
}

/// The arrival of messages, one after the other.
pub open spec fn replies(messages: Seq<MessageView>) -> Seq<EventView> {
    messages.map_values(|message: MessageView| EventView::Reply(Some(message)))
}

/// What a server does to answer a request with this head and a body of these chunks, up to the end
/// of the body.
pub open spec fn answering(status: u16, headers: Seq<Field>, chunks: Seq<Seq<u8>>) -> Seq<
    ActionView,
> {
    seq![ActionView::StartResponse { status, headers }] + chunks.map_values(
        |chunk: Seq<u8>| ActionView::Emit(chunk),
    )
}

proof fn lemma_response(id: u128, status: u16, headers: Seq<Field>, chunks: Seq<Seq<u8>>)
    requires
        is_status(status),
        forall|i: int| 0 <= i < chunks.len() ==> survives(#[trigger] chunks[i]),
    ensures
        ({
            let awaiting = ExchangeView { id, stage: Stage::Awaiting };
            let events = replies(response_without_end(id, status, headers, chunks));
            let (exchange, actions) = played(awaiting, events);
            &&& playable(awaiting, events)
            &&& exchange == (ExchangeView { id, stage: Stage::Streaming })
            &&& actions == answering(status, answerable(headers), chunks)
        }),
    decreases chunks.len(),
{
    let awaiting = ExchangeView { id, stage: Stage::Awaiting };
    let events = replies(response_without_end(id, status, headers, chunks));
    let actions = played(awaiting, events).1;
    if chunks.len() == 0 {
        assert(events.drop_last() =~= Seq::<EventView>::empty());
        assert(played(awaiting, events.drop_last()) == (awaiting, Seq::<ActionView>::empty()));
        assert(playable(awaiting, events.drop_last()));
        assert(actions =~= answering(status, answerable(headers), chunks));
    } else {
        let front = chunks.drop_last();
        assert forall|i: int| 0 <= i < front.len() implies survives(#[trigger] front[i]) by {
            assert(front[i] == chunks[i]);
        }
        lemma_response(id, status, headers, front);
        assert(survives(chunks[chunks.len() - 1]));
        assert(events.drop_last() =~= replies(response_without_end(id, status, headers, front)));
        assert(events.last() == EventView::Reply(
            Some(MessageView::ResponseChunk { id, body: base64_text(chunks.last()) }),
        ));
        assert(actions =~= answering(status, answerable(headers), chunks));
    }
}

/// A response comes out of the server as it went in at the client: its status, its fields as far
/// as HTTP admits them, its body chunk by chunk, and then its end. (That a chunk survives its
/// base64 text is what the step that sends it gives.)
pub proof fn law_response_arrives(
    id: u128,
    status: u16,
    headers: Seq<Field>,
    chunks: Seq<Seq<u8>>,
)
    requires
        is_status(status),
        forall|i: int| 0 <= i < chunks.len() ==> survives(#[trigger] chunks[i]),
    ensures
        ({
            let awaiting = ExchangeView { id, stage: Stage::Awaiting };
            let events = replies(response(id, status, headers, chunks));
            let (exchange, actions) = played(awaiting, events);
            &&& playable(awaiting, events)
            &&& exchange == (ExchangeView { id, stage: Stage::Done })
            &&& actions == answering(status, answerable(headers), chunks).push(ActionView::Finish)
        }),
{
    lemma_response(id, status, headers, chunks);
    let awaiting = ExchangeView { id, stage: Stage::Awaiting };
    let events = replies(response(id, status, headers, chunks));
    assert(events.drop_last() =~= replies(response_without_end(id, status, headers, chunks)));
    assert(events.last() == EventView::Reply(Some(MessageView::ResponseEnd { id })));
}

/// The bytes that a server adds to the body of an answer.
pub open spec fn emitted(actions: Seq<ActionView>) -> Seq<Seq<u8>> {
    actions.filter_map(
        |action: ActionView|
            match action {
                ActionView::Emit(bytes) => Some(bytes),
                _ => None,
            },
    )
}

proof fn lemma_any_response(
    id: u128,
    status: u16,
    headers: Seq<Field>,
    messages: Seq<MessageView>,
)
    requires
        is_status(status),
        forall|i: int| 0 <= i < messages.len() ==> !((#[trigger] messages[i]) is ResponseEnd),
    ensures
        ({
            let awaiting = ExchangeView { id, stage: Stage::Awaiting };
            let events = replies(
                seq![MessageView::ResponseStart { id, status, headers }] + messages,
            );
            let (exchange, actions) = played(awaiting, events);
            &&& playable(awaiting, events)
            &&& exchange == (ExchangeView { id, stage: Stage::Streaming })
            &&& actions.len() == 1 + messages.len()
            &&& actions[0] == ActionView::StartResponse { status, headers: answerable(headers) }
            &&& emitted(actions) == messages.filter_map(
                |message: MessageView| response_bytes(message),
            )
        }),
    decreases messages.len(),
{
    let awaiting = ExchangeView { id, stage: Stage::Awaiting };
    let start = MessageView::ResponseStart { id, status, headers };
    let events = replies(seq![start] + messages);
    let actions = played(awaiting, events).1;
    let f = |message: MessageView| response_bytes(message);
    if messages.len() == 0 {
        assert(events.drop_last() =~= Seq::<EventView>::empty());
        assert(played(awaiting, events.drop_last()) == (awaiting, Seq::<ActionView>::empty()));
        assert(playable(awaiting, events.drop_last()));
        assert(events.last() == EventView::Reply(Some(start)));
        assert(actions.drop_last() =~= Seq::<ActionView>::empty());
        assert(emitted(actions.drop_last()) =~= Seq::<Seq<u8>>::empty());
        assert(emitted(actions) =~= messages.filter_map(f));
    } else {
        let front = messages.drop_last();
        assert forall|i: int| 0 <= i < front.len() implies !(
        (#[trigger] front[i]) is ResponseEnd) by {
            assert(front[i] == messages[i]);
        }
        lemma_any_response(id, status, headers, front);
        assert(events.drop_last() =~= replies(seq![start] + front));
        assert(events.last() == EventView::Reply(Some(messages.last())));
        assert(!(messages[messages.len() - 1] is ResponseEnd));
        let before = played(awaiting, events.drop_last()).1;
        assert(actions.drop_last() =~= before);
        assert(emitted(actions) =~= messages.filter_map(f));
    }
}

/// Whatever messages follow the start of a response up to its end, the body of the answer is the
/// body that they make up: the bytes of the chunks that can be decoded, in their order.
pub proof fn law_any_response_arrives(
    id: u128,
    status: u16,
    headers: Seq<Field>,
    messages: Seq<MessageView>,
)
    requires
        is_status(status),
        forall|i: int| 0 <= i < messages.len() ==> !((#[trigger] messages[i]) is ResponseEnd),
    ensures
        ({
            let awaiting = ExchangeView { id, stage: Stage::Awaiting };
            let body = messages.push(MessageView::ResponseEnd { id });
            let events = replies(seq![MessageView::ResponseStart { id, status, headers }] + body);
            let (exchange, actions) = played(awaiting, events);
            &&& playable(awaiting, events)
            &&& exchange == (ExchangeView { id, stage: Stage::Done })
            &&& actions[0] == ActionView::StartResponse { status, headers: answerable(headers) }
            &&& actions.last() == ActionView::Finish
            &&& emitted(actions) == response_body_of(body)
            &&& emitted(actions) == messages.filter_map(
                |message: MessageView| response_bytes(message),
            )
        }),
{
    let awaiting = ExchangeView { id, stage: Stage::Awaiting };
    let start = MessageView::ResponseStart { id, status, headers };
    let body = messages.push(MessageView::ResponseEnd { id });
    let events = replies(seq![start] + body);
    lemma_any_response(id, status, headers, messages);
    assert(events.drop_last() =~= replies(seq![start] + messages));
    assert(events.last() == EventView::Reply(Some(MessageView::ResponseEnd { id })));
    let before = played(awaiting, events.drop_last()).1;
    let actions = played(awaiting, events).1;
    assert(actions.drop_last() =~= before);
    law_response_body(messages, id, Seq::empty());
    assert(body + Seq::<MessageView>::empty() =~= body);
}

/// What a local server answers is what the browser gets: the same status, the fields as far as they
/// are visible and HTTP admits them, and the same body, chunk by chunk.
pub proof fn law_response_through_tunnel(
    id: u128,
    status: u16,
    headers: Seq<RawField>,
    chunks: Seq<Seq<u8>>,
)
    requires
        is_status(status),
        forall|i: int|
            0 <= i < chunks.len() ==> {
                &&& encodable((#[trigger] chunks[i]).len())
                &&& survives(chunks[i])
            },
    ensures
        ({
            let waiting = RelayView { id, stage: RelayStage::Waiting };
            let events = answer(status, headers, chunks).push(LocalEventView::Body(None));
            let awaiting = ExchangeView { id, stage: Stage::Awaiting };
            played(awaiting, replies(relayed(waiting, events).1)) == (
                ExchangeView { id, stage: Stage::Done },
                answering(status, answerable(gathered(headers)), chunks).push(ActionView::Finish),
            )
        }),
{
    law_answer(id, status, headers, chunks);
    law_response_arrives(id, status, gathered(headers), chunks);
}

/// Where the local server cannot be reached, the browser gets status 502 and the words
/// `Bad Gateway`.
pub proof fn law_bad_gateway(id: u128)
    requires
        survives(bad_gateway_bytes()),
    ensures
        ({
            let waiting = RelayView { id, stage: RelayStage::Waiting };
            let awaiting = ExchangeView { id, stage: Stage::Awaiting };
            played(awaiting, replies(waiting.next(LocalEventView::Unreachable).1)) == (
                ExchangeView { id, stage: Stage::Done },
                answering(502, Seq::<Field>::empty(), seq![bad_gateway_bytes()]).push(
                    ActionView::Finish,
                ),
            )
        }),
{
    law_unreachable(id);
    law_response_arrives(id, 502, Seq::<Field>::empty(), seq![bad_gateway_bytes()]);
}

/// Every message of a response finds its way to the request that waits for it.
pub proof fn law_response_is_routed(
    state: StateView,
    id: u128,
    status: u16,
    headers: Seq<Field>,
    chunks: Seq<Seq<u8>>,
    i: int,
)
    requires
        state.pending.contains_key(id),
        0 <= i < response(id, status, headers, chunks).len(),
    ensures
        state.route(IncomingView::Message(response(id, status, headers, chunks)[i]))
            == (SocketActionView::Deliver {
            channel: state.pending[id],
            message: response(id, status, headers, chunks)[i],
        }),
{
}

/// A request that the server hands to a tunnel is the request that the client sends to its local
/// server: the same method and path, and the same fields but for `host`.
pub proof fn law_request_arrives(
    client: ClientView,
    request: RequestView,
    id: u128,
    channel: u64,
    host: Result<Option<Seq<char>>, Seq<char>>,
)
    ensures
        ({
            let (after, action) = client.receive(
                IncomingView::Message(start_of(id, request)),
                channel,
                host,
            );
            &&& action matches ClientActionView::Forward { request: local, .. } && local == (
            LocalRequestView {
                relay: RelayView { id, stage: RelayStage::Waiting },
                method: request.method,
                url: local_url_of(client.port, path_or_root(request.path)),
                headers: without_host_of(gathered(request.headers)),
            }) && {
                let base = "http://localhost:"@ + digits(client.port as nat);
                &&& request.path matches Some(path) ==> local.url == base + path
                &&& request.path is None ==> local.url == base + "/"@
            }
            &&& after.pending == client.pending.insert(id, channel)
        }),
{
}

/// The body of a forwarded request finds its way to that request.
pub proof fn law_request_body_is_routed(
    client: ClientView,
    id: u128,
    chunks: Seq<Seq<u8>>,
    channel: u64,
    host: Result<Option<Seq<char>>, Seq<char>>,
    i: int,
)
    requires
        client.pending.contains_key(id),
        0 <= i <= chunks.len(),
    ensures
        ({
            let message = request_chunks(id, chunks).push(MessageView::RequestEnd { id })[i];
            client.receive(IncomingView::Message(message), channel, host) == (
                client,
                ClientActionView::Deliver { channel: client.pending[id], message },
            )
        }),
{
}

/// A client keeps a request for as long as its answer is on the way, and no longer; it touches no
/// other.
pub proof fn law_kept_until_answered(client: ClientView, relay: RelayView, event: LocalEventView)
    requires
        relay.expects(event),
        client.pending.contains_key(relay.id),
    ensures
        ({
            let after = client.settle(relay, event);
            let next = relay.after(event);
            &&& next.id == relay.id
            &&& next.stage != RelayStage::Done <==> after.pending.contains_key(next.id)
            &&& next.stage != RelayStage::Done ==> after == client
            &&& after.pending.remove(next.id) == client.pending.remove(next.id)
        }),
{
    let after = client.settle(relay, event);
    assert(after.pending.remove(relay.id) =~= client.pending.remove(relay.id));
}

/// A host that is the name of a tunnel and the server's domain leads to the channel of that tunnel,
/// whatever the name.
pub proof fn law_host_leads_to_tunnel(
    state: StateView,
    name: Seq<char>,
    tunnel: u64,
    request: RequestView,
    channel: u64,
    id: u128,
)
    requires
        host_text_of(request.headers) == name + dotted(state.domain),
        state.tunnels.contains_key(name),
        state.tunnels[name] == tunnel,
    ensures
        state.open(request, channel, id) == (
            state.with_pending(id, channel),
            OpenedView::Forwarded {
                exchange: ExchangeView { id, stage: Stage::Opening },
                tunnel,
                start: start_of(id, request),
            },
        ),
{
    law_reached_by_name(name, state.domain);
}

/// A tunnel that stands is reached at its name, a dot and the server's domain: a request whose
/// first `host` field is that, byte for byte, goes to the channel of that tunnel, and waits from
/// then on. The client is told the request as it came.
pub proof fn law_tunnel_is_reached(
    state: StateView,
    name: Seq<char>,
    request: RequestView,
    i: int,
    channel: u64,
    id: u128,
)
    requires
        0 <= i < request.headers.len(),
        request.headers[i].0 == "host"@,
        forall|j: int| 0 <= j < i ==> (#[trigger] request.headers[j]).0 != "host"@,
        request.headers[i].1.len() == (name + "."@ + state.domain).len(),
        forall|k: int|
            0 <= k < request.headers[i].1.len() ==> {
                &&& 32 <= #[trigger] request.headers[i].1[k] <= 126
                &&& request.headers[i].1[k] as char == (name + "."@ + state.domain)[k]
            },
        state.tunnels.contains_key(name),
    ensures
        ({
            let (after, opened) = state.open(request, channel, id);
            &&& opened matches OpenedView::Forwarded { exchange, tunnel, start } && {
                &&& exchange == (ExchangeView { id, stage: Stage::Opening })
                &&& tunnel == state.tunnels[name]
                &&& start matches MessageView::RequestStart { id: said, method, path, .. } && {
                    &&& said == id
                    &&& method == request.method
                    &&& request.path matches Some(given) ==> path == given
                    &&& request.path is None ==> path == "/"@
                }
            }
            &&& after.pending == state.pending.insert(id, channel)
            &&& after.tunnels == state.tunnels
            &&& after.token == state.token
            &&& after.domain == state.domain
        }),
{
    let host = name + "."@ + state.domain;
    law_host_text(request.headers, i);
    assert forall|k: int| 0 <= k < request.headers[i].1.len() implies (32
        <= #[trigger] request.headers[i].1[k] <= 126 || request.headers[i].1[k] == 9) by {}
    assert(host_text_of(request.headers) =~= host);
    assert(host =~= name + dotted(state.domain));
    law_host_leads_to_tunnel(state, name, state.tunnels[name], request, channel, id);
    law_start(id, request);
}

/// A field of a request reaches the local server: one whose name is not `host` under any capitals,
/// and that none of the same name follows, is there with the characters of its value where all of
/// it is visible, and empty where it is not.
pub proof fn law_request_field_arrives(
    client: ClientView,
    request: RequestView,
    i: int,
    id: u128,
    channel: u64,
    host: Result<Option<Seq<char>>, Seq<char>>,
)
    requires
        0 <= i < request.headers.len(),
        forall|j: int|
            i < j < request.headers.len() ==> (#[trigger] request.headers[j]).0
                != request.headers[i].0,
        lowercase(request.headers[i].0) != "host"@,
    ensures
        ({
            let (name, value) = request.headers[i];
            let incoming = IncomingView::Message(start_of(id, request));
            let action = client.receive(incoming, channel, host).1;
            action matches ClientActionView::Forward { request: local, .. } && exists|k: int|
                0 <= k < local.headers.len() && (#[trigger] local.headers[k]).0 == name && carries(
                    local.headers[k].1,
                    value,
                )
        }),
{
    let (name, value) = request.headers[i];
    let list = gathered(request.headers);
    let kept = without_host_of(list);
    law_gathered(request.headers);
    law_without_host(list);
    assert(request.headers[i].0 == name);
    assert(has_name(list, name));
    assert(has_name(kept, name));
    let k = choose|k: int| 0 <= k < kept.len() && (#[trigger] kept[k]).0 == name;
    lemma_map_of(kept, k);
    assert(carries(kept[k].1, value));
    let incoming = IncomingView::Message(start_of(id, request));
    let action = client.receive(incoming, channel, host).1;
    assert(action is Forward && action->request.headers == kept);
    assert(action->request.headers[k].0 == name);
}

/// Every field that the local server gets was one of the request's, and is not `host`.
pub proof fn law_no_field_is_added(
    client: ClientView,
    request: RequestView,
    id: u128,
    channel: u64,
    host: Result<Option<Seq<char>>, Seq<char>>,
    k: int,
)
    requires
        client.receive(IncomingView::Message(start_of(id, request)), channel, host).1 matches
            ClientActionView::Forward { request: local, .. } && 0 <= k < local.headers.len(),
    ensures
        client.receive(IncomingView::Message(start_of(id, request)), channel, host).1 matches
            ClientActionView::Forward { request: local, .. } && {
            &&& lowercase(local.headers[k].0) != "host"@
            &&& exists|i: int|
                0 <= i < request.headers.len() && (#[trigger] request.headers[i]).0
                    == local.headers[k].0
        },
{
    let list = gathered(request.headers);
    let kept = without_host_of(list);
    law_gathered(request.headers);
    law_without_host(list);
    assert(has_name(kept, kept[k].0));
    assert(has_name(list, kept[k].0));
}

/// A field of a local server's answer reaches the browser: one whose name HTTP admits, whose value
/// is visible, and that none of the same name follows, is there under its name in small letters,
/// with the characters of its value.
pub proof fn law_response_field_arrives(
    id: u128,
    status: u16,
    headers: Seq<RawField>,
    i: int,
)
    requires
        is_status(status),
        0 <= i < headers.len(),
        field_name_of(headers[i].0) is Some,
        forall|k: int|
            0 <= k < headers[i].1.len() ==> (32 <= #[trigger] headers[i].1[k] <= 126
                || headers[i].1[k] == 9),
        forall|j: int|
            0 <= j < headers.len() && j != i ==> field_name_of((#[trigger] headers[j]).0)
                != field_name_of(headers[i].0),
    ensures
        ({
            let waiting = RelayView { id, stage: RelayStage::Waiting };
            let awaiting = ExchangeView { id, stage: Stage::Awaiting };
            let start = waiting.next(LocalEventView::Answered { status, headers }).1[0];
            awaiting.next(EventView::Reply(Some(start))).1 matches ActionView::StartResponse {
                status: said,
                headers: fields,
            } && said == status && exists|k: int|
                0 <= k < fields.len() && Some((#[trigger] fields[k]).0) == field_name_of(
                    headers[i].0,
                ) && fields[k].1.len() == headers[i].1.len() && forall|n: int|
                    0 <= n < headers[i].1.len() ==> #[trigger] fields[k].1[n]
                        == headers[i].1[n] as char
        }),
{
    let (raw_name, value) = headers[i];
    let name = field_name_of(raw_name)->0;
    let list = gathered(headers);
    let fields = answerable(list);
    law_gathered(headers);
    law_answerable(list);
    assert forall|j: int| i < j < headers.len() implies (#[trigger] headers[j]).0
        != headers[i].0 by {
        assert(field_name_of(headers[j].0) != field_name_of(headers[i].0));
    }
    assert(headers[i].0 == raw_name);
    assert(has_name(list, raw_name));
    let at = choose|at: int| 0 <= at < list.len() && (#[trigger] list[at]).0 == raw_name;
    lemma_map_of(list, at);
    assert(carries(list[at].1, value));
    assert(is_field_value(list[at].1)) by {
        assert forall|n: int| 0 <= n < list[at].1.len() implies ({
            let c = #[trigger] list[at].1[n] as u32;
            32 <= c && c != 127 || c == 9
        }) by {
            assert(list[at].1[n] == headers[i].1[n] as char);
            assert(32 <= headers[i].1[n] <= 126 || headers[i].1[n] == 9);
        }
    }
    assert forall|j: int|
        at < j < list.len() && is_field_value((#[trigger] list[j]).1) implies field_name_of(
        list[j].0,
    ) != field_name_of(list[at].0) by {
        assert(has_name(list, list[j].0));
        let from = choose|from: int|
            0 <= from < headers.len() && (#[trigger] headers[from]).0 == list[j].0;
        assert(list[j].0 != list[at].0);
        assert(from != i);
    }
    assert(has_name(fields, name));
    let k = choose|k: int| 0 <= k < fields.len() && (#[trigger] fields[k]).0 == name;
    lemma_map_of(fields, k);
    assert(fields[k].1 == list[at].1);
    let waiting = RelayView { id, stage: RelayStage::Waiting };
    let awaiting = ExchangeView { id, stage: Stage::Awaiting };
    let start = waiting.next(LocalEventView::Answered { status, headers }).1[0];
    let action = awaiting.next(EventView::Reply(Some(start))).1;
    assert(action is StartResponse && action->headers == fields);
    assert forall|n: int| 0 <= n < headers[i].1.len() implies #[trigger] fields[k].1[n]
        == headers[i].1[n] as char by {
        assert(list[at].1[n] == headers[i].1[n] as char);
    }
    assert(Some(fields[k].0) == field_name_of(headers[i].0));
}

/// What a local server answers is what the browser gets, one by one: the status first, then each
/// chunk that was read, in order, and then the end.
pub proof fn law_answer_step_by_step(
    id: u128,
    status: u16,
    headers: Seq<RawField>,
    chunks: Seq<Seq<u8>>,
)
    requires
        is_status(status),
        forall|i: int|
            0 <= i < chunks.len() ==> {
                &&& encodable((#[trigger] chunks[i]).len())
                &&& survives(chunks[i])
            },
    ensures
        ({
            let waiting = RelayView { id, stage: RelayStage::Waiting };
            let events = answer(status, headers, chunks).push(LocalEventView::Body(None));
            let awaiting = ExchangeView { id, stage: Stage::Awaiting };
            let actions = played(awaiting, replies(relayed(waiting, events).1)).1;
            &&& actions.len() == chunks.len() + 2
            &&& actions[0] matches ActionView::StartResponse { status: said, .. } && said == status
            &&& forall|i: int|
                0 <= i < chunks.len() ==> #[trigger] actions[i + 1] == ActionView::Emit(chunks[i])
            &&& actions.last() == ActionView::Finish
        }),
{
    law_response_through_tunnel(id, status, headers, chunks);
}

/// A tunnel is reached where its client announces it: the host in the URL that the user is told is
/// the one that leads to the tunnel, where the server's URL names the server's domain.
pub proof fn law_reached_where_announced(
    state: StateView,
    name: Seq<char>,
    tunnel: u64,
    client: ClientView,
    channel: u64,
)
    requires
        !state.tunnels.contains_key(name),
    ensures
        ({
            let hello = MessageView::Register { token: state.token, name: Some(name) };
            let (after, outcome) = state.handshake(
                IncomingView::Message(hello),
                tunnel,
                Seq::empty(),
            );
            outcome matches HandshakeView::Established { reply, .. } && {
                let host = Ok::<Option<Seq<char>>, Seq<char>>(Some(state.domain));
                let told = client.receive(IncomingView::Message(reply), channel, host).1;
                &&& told == (ClientActionView::Announce {
                    subdomain: name,
                    public_url: "https://"@ + name + "."@ + state.domain,
                })
                &&& subdomain_of(name + "."@ + state.domain, state.domain) == Some(name)
                &&& after.tunnels.contains_key(name)
                &&& after.tunnels[name] == tunnel
            }
        }),
{
    law_reached_by_name(name, state.domain);
    assert(name + "."@ + state.domain =~= name + dotted(state.domain));
}

/// A request for a tunnel that has been taken down is told that it is not there.
pub proof fn law_gone_when_disconnected(
    state: StateView,
    name: Seq<char>,
    request: RequestView,
    channel: u64,
    id: u128,
)
    requires
        subdomain_of(host_text_of(request.headers), state.domain) == Some(name),
    ensures
        ({
            let after = state.without_tunnel(name);
            after.open(request, channel, id) == (after, OpenedView::Answered(offline_reply(name)))
        }),
{
}

/// Where the client is registered under a name, it announces the name under the host of its
/// server's URL; where it is refused, it gives up for the reason that it is told.
pub proof fn law_client_follows(
    state: StateView,
    incoming: IncomingView,
    tunnel: u64,
    fallback: Seq<char>,
    client: ClientView,
    channel: u64,
    host: Option<Seq<char>>,
)
    ensures
        ({
            let reading = Ok::<Option<Seq<char>>, Seq<char>>(host);
            match state.handshake(incoming, tunnel, fallback).1 {
                HandshakeView::Established { subdomain, reply } => client.receive(
                    IncomingView::Message(reply),
                    channel,
                    reading,
                ) == (
                    client,
                    ClientActionView::Announce {
                        subdomain,
                        public_url: public_url_of(subdomain, host),
                    },
                ) && (host matches Some(given) ==> public_url_of(subdomain, host) == "https://"@
                    + subdomain + "."@ + given),
                HandshakeView::Refused { reply } => reply matches MessageView::Error { message }
                    && client.receive(IncomingView::Message(reply), channel, reading) == (
                    client,
                    ClientActionView::Fail(message),
                ),
                HandshakeView::Dropped => true,
            }
        }),
{
}

} // verus!
