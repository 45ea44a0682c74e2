//! Bodies that are at hand as a whole: each is taken through all of its steps, and what is sent for
//! it is what the other end gets back out.

use vstd::prelude::*;

use crate::body::{base64_text, encodable, survives};
use crate::client::{
    bad_gateway_bytes, Client, ClientView, LocalEvent, Relay, RelayStage, RelayView, Relayed,
};
use crate::exchange::{is_status, Action, ActionView, Event, Exchange, ExchangeView, Stage};
use crate::headers::{answerable, gathered, raw_fields_of, Field};
use crate::laws::{
    answering, law_answer, law_bad_gateway, law_request_body_through_tunnel,
    law_response_through_tunnel, law_unreachable, law_upload, played, replies, request_body_of,
    request_chunks, response, response_without_end,
};
use crate::message::{message_views, MessageView, TunnelMessage};
use crate::server::AppState;
use crate::table;

verus! {

/// The bytes of chunks.
pub open spec fn byte_chunks(chunks: Seq<Vec<u8>>) -> Seq<Seq<u8>> {
    chunks.map_values(|chunk: Vec<u8>| chunk@)
}

/// Whether the base64 text of each chunk can be held in memory.
pub open spec fn all_encodable(chunks: Seq<Vec<u8>>) -> bool {
    forall|i: int| 0 <= i < chunks.len() ==> encodable((#[trigger] chunks[i])@.len())
}

/// Takes a request whose start was sent through the whole of its body, over a tunnel that takes
/// every message: the messages that are sent for it, out of which the client gets the same chunks.
pub fn send_body(state: &mut AppState, exchange: &mut Exchange, chunks: &Vec<Vec<u8>>) -> (messages:
    Vec<TunnelMessage>)
    requires
        old(exchange)@.stage == Stage::Opening,
        all_encodable(chunks@),
    ensures
        final(exchange)@ == (ExchangeView { id: old(exchange)@.id, stage: Stage::Awaiting }),
        final(state)@ == old(state)@,
        message_views(messages@) == request_chunks(
            old(exchange)@.id,
            byte_chunks(chunks@),
        ).push(MessageView::RequestEnd { id: old(exchange)@.id }),
        request_body_of(message_views(messages@)) == byte_chunks(chunks@),
{
    let ghost id = exchange@.id;
    let ghost before = state@;
    let mut messages: Vec<TunnelMessage> = Vec::new();
    state.advance(exchange, Event::Sent(true));
    let mut i: usize = 0;
    while i < chunks.len()
        invariant
            0 <= i <= chunks.len(),
            all_encodable(chunks@),
            exchange@ == (ExchangeView { id, stage: Stage::Uploading }),
            state@ == before,
            message_views(messages@) == request_chunks(id, byte_chunks(chunks@.take(i as int))),
            forall|j: int| 0 <= j < i ==> survives((#[trigger] chunks@[j])@),
        decreases chunks.len() - i,
    {
        let chunk = chunks[i].clone();
        assert(chunk@ =~= chunks@[i as int]@);
        let ghost sent = messages@;
        if let Action::Send(message) = state.advance(exchange, Event::Body(Some(chunk))) {
            messages.push(message);
        }
        assert(message_views(messages@) =~= message_views(sent).push(
            MessageView::RequestChunk { id, body: base64_text(chunks@[i as int]@) },
        ));
        state.advance(exchange, Event::Sent(true));
        i += 1;
        assert(message_views(messages@) =~= request_chunks(
            id,
            byte_chunks(chunks@.take(i as int)),
        ));
    }
    if let Action::Send(message) = state.advance(exchange, Event::Body(None)) {
        messages.push(message);
    }
    state.advance(exchange, Event::Sent(true));
    proof {
        assert(chunks@.take(i as int) =~= chunks@);
        assert(message_views(messages@) =~= request_chunks(id, byte_chunks(chunks@)).push(
            MessageView::RequestEnd { id },
        ));
        law_upload(id, byte_chunks(chunks@), true);
        law_request_body_through_tunnel(id, byte_chunks(chunks@), true);
    }
    messages
}

/// Takes an answer of the local server through the whole of its body: the messages that are sent
/// for it, out of which the server answers with the same status, the fields as far as they are
/// visible and HTTP admits them, and the same chunks.
pub fn send_answer(
    client: &mut Client,
    relay: &mut Relay,
    status: u16,
    headers: Vec<(String, Vec<u8>)>,
    chunks: &Vec<Vec<u8>>,
) -> (relayed: Relayed)
    requires
        old(relay)@.stage == RelayStage::Waiting,
        all_encodable(chunks@),
    ensures
        final(relay)@ == (RelayView { id: old(relay)@.id, stage: RelayStage::Done }),
        final(client)@ == (ClientView {
            pending: old(client)@.pending.remove(old(relay)@.id),
            ..old(client)@
        }),
        relayed.released == table::channel_of(old(client)@.pending, old(relay)@.id),
        message_views(relayed.messages@) == response(
            old(relay)@.id,
            status,
            gathered(raw_fields_of(headers@)),
            byte_chunks(chunks@),
        ),
        is_status(status) ==> played(
            ExchangeView { id: old(relay)@.id, stage: Stage::Awaiting },
            replies(message_views(relayed.messages@)),
        ) == (
            ExchangeView { id: old(relay)@.id, stage: Stage::Done },
            answering(
                status,
                answerable(gathered(raw_fields_of(headers@))),
                byte_chunks(chunks@),
            ).push(ActionView::Finish),
        ),
{
    let ghost id = relay@.id;
    let ghost before = client@;
    let ghost raw = raw_fields_of(headers@);
    let ghost fields = gathered(raw);
    let mut messages = client.relay(relay, LocalEvent::Answered { status, headers }).messages;
    assert(message_views(messages@) =~= response_without_end(id, status, fields, Seq::empty()));
    let mut i: usize = 0;
    assert(byte_chunks(chunks@.take(0)) =~= Seq::<Seq<u8>>::empty());
    while i < chunks.len()
        invariant
            0 <= i <= chunks.len(),
            all_encodable(chunks@),
            relay@ == (RelayView { id, stage: RelayStage::Streaming }),
            client@ == before,
            message_views(messages@) == response_without_end(
                id,
                status,
                fields,
                byte_chunks(chunks@.take(i as int)),
            ),
            forall|j: int| 0 <= j < i ==> survives((#[trigger] chunks@[j])@),
        decreases chunks.len() - i,
    {
        let chunk = chunks[i].clone();
        assert(chunk@ =~= chunks@[i as int]@);
        let ghost sent = messages@;
        let mut step = client.relay(relay, LocalEvent::Body(Some(chunk)));
        let ghost added = step.messages@;
        messages.append(&mut step.messages);
        i += 1;
        assert(message_views(messages@) =~= message_views(sent) + message_views(added));
        assert(message_views(messages@) =~= response_without_end(
            id,
            status,
            fields,
            byte_chunks(chunks@.take(i as int)),
        ));
    }
    let ghost sent = messages@;
    let mut step = client.relay(relay, LocalEvent::Body(None));
    let ghost added = step.messages@;
    messages.append(&mut step.messages);
    proof {
        assert(chunks@.take(i as int) =~= chunks@);
        assert(message_views(messages@) =~= message_views(sent) + message_views(added));
        assert(message_views(messages@) =~= response(id, status, fields, byte_chunks(chunks@)));
        if is_status(status) {
            law_answer(id, status, raw, byte_chunks(chunks@));
            law_response_through_tunnel(id, status, raw, byte_chunks(chunks@));
        }
    }
    Relayed { messages, released: step.released }
}

/// Answers for a local server that cannot be reached: the messages that are sent, out of which the
/// server answers with status 502 and the words `Bad Gateway`.
pub fn send_bad_gateway(client: &mut Client, relay: &mut Relay) -> (relayed: Relayed)
    requires
        old(relay)@.stage == RelayStage::Waiting,
    ensures
        final(relay)@ == (RelayView { id: old(relay)@.id, stage: RelayStage::Done }),
        final(client)@ == (ClientView {
            pending: old(client)@.pending.remove(old(relay)@.id),
            ..old(client)@
        }),
        relayed.released == table::channel_of(old(client)@.pending, old(relay)@.id),
        message_views(relayed.messages@) == response(
            old(relay)@.id,
            502,
            Seq::<Field>::empty(),
            seq![bad_gateway_bytes()],
        ),
        (played(
            ExchangeView { id: old(relay)@.id, stage: Stage::Awaiting },
            replies(message_views(relayed.messages@)),
        ) == (
            ExchangeView { id: old(relay)@.id, stage: Stage::Done },
            answering(502, Seq::<Field>::empty(), seq![bad_gateway_bytes()]).push(
                ActionView::Finish,
            ),
        )),
{
    let ghost id = relay@.id;
    let relayed = client.relay(relay, LocalEvent::Unreachable);
    proof {
        law_unreachable(id);
        law_bad_gateway(id);
    }
    relayed
}

/// The bytes of chunks are those of each chunk, in order.
pub proof fn law_byte_chunks(chunks: Seq<Vec<u8>>)
    ensures
        byte_chunks(chunks).len() == chunks.len(),
        forall|i: int| 0 <= i < chunks.len() ==> #[trigger] byte_chunks(chunks)[i] == chunks[i]@,
{
}

} // verus!
