use std::collections::HashMap;

use tunly::body::{request_body_step, response_body_step, BodyStep};
use tunly::client::{register, Client, ClientAction, LocalEvent, LocalRequest};
use tunly::exchange::{HttpRequest, Opened};
use tunly::headers::Headers;
use tunly::message::{Incoming, TunnelMessage};
use tunly::server::{AppState, SocketAction};

fn client() -> Client {
    Client::new("wss://tunly.sh/tunnel".to_string(), 3000).ok().unwrap()
}

fn start(id: u128, path: &str) -> TunnelMessage {
    TunnelMessage::RequestStart {
        id,
        method: "POST".to_string(),
        path: path.to_string(),
        headers: Headers::new(),
    }
}

fn request_chunk(id: u128, body: &str) -> TunnelMessage {
    TunnelMessage::RequestChunk { id, body: body.to_string() }
}

fn response_chunk(id: u128, body: &str) -> TunnelMessage {
    TunnelMessage::ResponseChunk { id, body: body.to_string() }
}

#[test]
fn mixed_requests_get_their_own_bodies() {
    let mut client = client();
    let mut requests: Vec<LocalRequest> = Vec::new();
    let mut bodies: HashMap<u64, Vec<Vec<u8>>> = HashMap::new();
    let frames = vec![
        start(1, "/a"),
        request_chunk(1, "b25l"),
        start(2, "/b"),
        request_chunk(2, "dHdv"),
        request_chunk(1, "no base64"),
        request_chunk(3, "bm9uZQ=="),
        request_chunk(1, "dGhyZWU="),
        TunnelMessage::RequestEnd { id: 2 },
        TunnelMessage::RequestEnd { id: 1 },
    ];
    for (channel, frame) in (20..).zip(frames) {
        match client.receive(Incoming::Message(frame), channel) {
            ClientAction::Forward { request, replaced } => {
                assert_eq!(replaced, None);
                requests.push(request);
                bodies.insert(channel, Vec::new());
            }
            ClientAction::Deliver { channel, message } => {
                if let BodyStep::Emit(bytes) = request_body_step(Some(message)) {
                    bodies.get_mut(&channel).unwrap().push(bytes);
                }
            }
            ClientAction::Skip => (),
            other => panic!("{:?}", other),
        }
    }
    assert_eq!(requests.len(), 2);
    assert_eq!(requests[0].relay.id(), 1);
    assert_eq!(requests[0].url, "http://localhost:3000/a");
    assert_eq!(requests[1].relay.id(), 2);
    assert_eq!(requests[1].url, "http://localhost:3000/b");
    assert_eq!(bodies[&20], vec![b"one".to_vec(), b"three".to_vec()]);
    assert_eq!(bodies[&22], vec![b"two".to_vec()]);
}

#[test]
fn mixed_responses_reach_their_own_requests() {
    let mut state = AppState::new(None, None);
    let hello = register("secret".to_string(), Some("myapp".to_string()));
    state.handshake(Incoming::Message(hello), 7);
    for (id, channel) in [(1, 40), (2, 41)] {
        let request = HttpRequest {
            method: "GET".to_string(),
            path: None,
            headers: vec![("host".to_string(), b"myapp.localhost".to_vec())],
        };
        assert!(matches!(state.open_with(request, channel, id), Opened::Forwarded { .. }));
    }
    let mut bodies: HashMap<u64, Vec<Vec<u8>>> = HashMap::new();
    let frames = vec![
        response_chunk(2, "dHdv"),
        response_chunk(1, "b25l"),
        response_chunk(3, "bm9uZQ=="),
        response_chunk(2, "!"),
        response_chunk(1, "dGhyZWU="),
    ];
    for frame in frames {
        match state.route(Incoming::Message(frame)) {
            SocketAction::Deliver { channel, message } => {
                if let BodyStep::Emit(bytes) = response_body_step(Some(message)) {
                    bodies.entry(channel).or_default().push(bytes);
                }
            }
            SocketAction::Skip => (),
            other => panic!("{:?}", other),
        }
    }
    assert_eq!(bodies[&40], vec![b"one".to_vec(), b"three".to_vec()]);
    assert_eq!(bodies[&41], vec![b"two".to_vec()]);
}

#[test]
fn client_sends_its_registration_and_then_answers_alone() {
    let mut client = client();
    let mut sent = vec![register("secret".to_string(), None)];
    let mut relays = Vec::new();
    for (channel, id) in [(20, 1), (21, 2)] {
        match client.receive(Incoming::Message(start(id, "/")), channel) {
            ClientAction::Forward { request, .. } => relays.push(request.relay),
            other => panic!("{:?}", other),
        }
    }
    let answered = || LocalEvent::Answered { status: 204, headers: vec![] };
    sent.extend(client.relay(&mut relays[1], answered()).messages);
    sent.extend(client.relay(&mut relays[0], LocalEvent::Unreachable).messages);
    sent.extend(client.relay(&mut relays[1], LocalEvent::Body(None)).messages);
    assert_eq!(sent[0], TunnelMessage::Register { token: "secret".to_string(), name: None });
    let ids: Vec<Option<u128>> = sent.iter().map(|message| message.response_id()).collect();
    assert_eq!(ids, vec![None, Some(2), Some(1), Some(1), Some(1), Some(2)]);
    assert_eq!(
        sent[1],
        TunnelMessage::ResponseStart { id: 2, status: 204, headers: Headers::new() }
    );
    assert_eq!(sent[4], TunnelMessage::ResponseEnd { id: 1 });
    assert_eq!(sent[5], TunnelMessage::ResponseEnd { id: 2 });
}
