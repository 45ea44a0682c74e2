use tunly::body::{request_body_step, BodyStep};
use tunly::client::{register, Client, ClientAction, LocalEvent};
use tunly::exchange::{Action, Event, HttpRequest, Opened, Stage};
use tunly::headers::Headers;
use tunly::message::{Incoming, TunnelMessage};
use tunly::server::{AppState, Handshake, SocketAction};

struct Tunnel {
    state: AppState,
    client: Client,
}

fn tunnel() -> Tunnel {
    let mut state =
        AppState::new(Some("mysecrettoken".to_string()), Some("yourdomain.com".to_string()));
    let mut client = Client::new("wss://yourdomain.com/tunnel".to_string(), 3000).ok().unwrap();
    let hello = register("mysecrettoken".to_string(), Some("myapp".to_string()));
    let reply = match state.handshake(Incoming::Message(hello), 7) {
        Handshake::Established { reply, .. } => reply,
        other => panic!("{:?}", other),
    };
    match client.receive(Incoming::Message(reply), 0) {
        ClientAction::Announce { public_url, .. } => {
            assert_eq!(public_url, "https://myapp.yourdomain.com");
        }
        other => panic!("{:?}", other),
    }
    Tunnel { state, client }
}

fn request() -> HttpRequest {
    HttpRequest {
        method: "PUT".to_string(),
        path: Some("/things?n=1".to_string()),
        headers: vec![
            ("host".to_string(), b"myapp.yourdomain.com".to_vec()),
            ("content-type".to_string(), b"text/plain".to_vec()),
        ],
    }
}

/// Sends a request through the tunnel in these chunks, and what the local server makes of it back.
fn exchanged(chunks: &[&[u8]], events: Vec<LocalEvent>) -> (Vec<Vec<u8>>, Vec<Action>) {
    let Tunnel { mut state, mut client } = tunnel();
    let (mut exchange, start) = match state.open(request(), 40) {
        Opened::Forwarded { exchange, tunnel: 7, start } => (exchange, start),
        other => panic!("{:?}", other),
    };
    let local = match client.receive(Incoming::Message(start), 90) {
        ClientAction::Forward { request, .. } => request,
        other => panic!("{:?}", other),
    };
    assert_eq!(local.method, "PUT");
    assert_eq!(local.url, "http://localhost:3000/things?n=1");
    assert_eq!(
        local.headers.entries(),
        &vec![("content-type".to_string(), "text/plain".to_string())]
    );

    let mut body = Vec::new();
    let mut rest = chunks.iter();
    let mut action = state.advance(&mut exchange, Event::Sent(true));
    loop {
        action = match action {
            Action::ReadBody => state
                .advance(&mut exchange, Event::Body(rest.next().map(|chunk| chunk.to_vec()))),
            Action::Send(message) => {
                match client.receive(Incoming::Message(message), 91) {
                    ClientAction::Deliver { channel: 90, message } => {
                        if let BodyStep::Emit(bytes) = request_body_step(Some(message)) {
                            body.push(bytes);
                        }
                    }
                    other => panic!("{:?}", other),
                }
                state.advance(&mut exchange, Event::Sent(true))
            }
            Action::AwaitReply => break,
            other => panic!("{:?}", other),
        };
    }

    let mut relay = local.relay;
    let mut actions = Vec::new();
    for event in events {
        for message in client.relay(&mut relay, event).messages {
            match state.route(Incoming::Message(message)) {
                SocketAction::Deliver { channel: 40, message } => {
                    actions.push(state.advance(&mut exchange, Event::Reply(Some(message))));
                }
                other => panic!("{:?}", other),
            }
        }
    }
    assert_eq!(exchange.stage(), Stage::Done);
    assert_eq!(
        state.route(Incoming::Message(TunnelMessage::ResponseEnd { id: exchange.id() })),
        SocketAction::Skip
    );
    (body, actions)
}

#[test]
fn bodies_arrive_as_they_were_sent() {
    let every: Vec<u8> = (0..=255).collect();
    let (body, actions) = exchanged(
        &[b"one", &every, b""],
        vec![
            LocalEvent::Answered {
                status: 418,
                headers: vec![("X-Kind".to_string(), b"teapot".to_vec())],
            },
            LocalEvent::Body(Some(every.clone())),
            LocalEvent::Body(Some(b"two".to_vec())),
            LocalEvent::Body(None),
        ],
    );
    assert_eq!(body, vec![b"one".to_vec(), every.clone(), Vec::new()]);
    let mut headers = Headers::new();
    headers.insert("x-kind".to_string(), "teapot".to_string());
    assert_eq!(
        actions,
        vec![
            Action::StartResponse { status: 418, headers },
            Action::Emit(every),
            Action::Emit(b"two".to_vec()),
            Action::Finish,
        ]
    );
}

#[test]
fn unreachable_local_server_is_a_bad_gateway() {
    let (body, actions) = exchanged(&[], vec![LocalEvent::Unreachable]);
    assert!(body.is_empty());
    assert_eq!(
        actions,
        vec![
            Action::StartResponse { status: 502, headers: Headers::new() },
            Action::Emit(b"Bad Gateway".to_vec()),
            Action::Finish,
        ]
    );
}

#[test]
fn refused_client_gives_up_for_the_reason_it_is_told() {
    let Tunnel { mut state, mut client } = tunnel();
    let hello = register("secret".to_string(), Some("other".to_string()));
    match state.handshake(Incoming::Message(hello), 8) {
        Handshake::Refused { reply } => assert_eq!(
            client.receive(Incoming::Message(reply), 0),
            ClientAction::Fail("Invalid authentication token".to_string())
        ),
        other => panic!("{:?}", other),
    }
}
