use tunly::body::{request_body_step, BodyStep};
use tunly::client::{Client, ClientAction, Relay, RelayStage};
use tunly::exchange::{Action, Event, Exchange, HttpRequest, Opened, Stage};
use tunly::headers::Headers;
use tunly::message::{Incoming, TunnelMessage};
use tunly::server::AppState;
use tunly::transfer::{send_answer, send_bad_gateway, send_body};

fn server() -> AppState {
    let mut state = AppState::new(None, None);
    state.handshake(
        Incoming::Message(TunnelMessage::Register {
            token: "secret".to_string(),
            name: Some("myapp".to_string()),
        }),
        7,
    );
    state
}

fn exchange(state: &mut AppState, id: u128) -> Exchange {
    let request = HttpRequest {
        method: "POST".to_string(),
        path: None,
        headers: vec![("host".to_string(), b"myapp.localhost".to_vec())],
    };
    match state.open_with(request, 40, id) {
        Opened::Forwarded { exchange, .. } => exchange,
        other => panic!("{:?}", other),
    }
}

fn awaiting(state: &mut AppState, id: u128) -> Exchange {
    let mut exchange = exchange(state, id);
    send_body(state, &mut exchange, &vec![]);
    exchange
}

fn relay(client: &mut Client, id: u128) -> Relay {
    let start = TunnelMessage::RequestStart {
        id,
        method: "POST".to_string(),
        path: "/".to_string(),
        headers: Headers::new(),
    };
    match client.receive(Incoming::Message(start), 90) {
        ClientAction::Forward { request, .. } => request.relay,
        other => panic!("{:?}", other),
    }
}

fn answered(
    state: &mut AppState,
    exchange: &mut Exchange,
    messages: Vec<TunnelMessage>,
) -> Vec<Action> {
    let mut actions = Vec::new();
    for message in messages {
        actions.push(state.advance(exchange, Event::Reply(Some(message))));
    }
    actions
}

#[test]
fn whole_request_body_is_sent() {
    let mut state = server();
    let mut exchange = exchange(&mut state, 3);
    let chunks = vec![b"hello".to_vec(), vec![], vec![0, 255]];
    let messages = send_body(&mut state, &mut exchange, &chunks);
    assert_eq!(
        messages,
        vec![
            TunnelMessage::RequestChunk { id: 3, body: "aGVsbG8=".to_string() },
            TunnelMessage::RequestChunk { id: 3, body: "".to_string() },
            TunnelMessage::RequestChunk { id: 3, body: "AP8=".to_string() },
            TunnelMessage::RequestEnd { id: 3 },
        ]
    );
    assert_eq!(exchange.stage(), Stage::Awaiting);
    let mut body = Vec::new();
    for message in messages {
        match request_body_step(Some(message)) {
            BodyStep::Emit(bytes) => body.push(bytes),
            BodyStep::Skip => panic!("a chunk is lost"),
            BodyStep::End => break,
        }
    }
    assert_eq!(body, chunks);
}

#[test]
fn whole_answer_is_sent() {
    let mut client = Client::new("wss://tunly.sh/tunnel".to_string(), 3000).ok().unwrap();
    let mut relay = relay(&mut client, 3);
    let chunks = vec![b"hello".to_vec(), vec![0, 255]];
    let fields = vec![("x-kind".to_string(), b"teapot".to_vec())];
    let relayed = send_answer(&mut client, &mut relay, 418, fields, &chunks);
    let mut headers = Headers::new();
    headers.insert("x-kind".to_string(), "teapot".to_string());
    assert_eq!(relayed.released, Some(90));
    assert_eq!(relay.stage(), RelayStage::Done);
    assert_eq!(relayed.messages.len(), 4);
    assert_eq!(
        relayed.messages[2],
        TunnelMessage::ResponseChunk { id: 3, body: "AP8=".to_string() }
    );

    let mut state = server();
    let mut exchange = awaiting(&mut state, 3);
    assert_eq!(
        answered(&mut state, &mut exchange, relayed.messages),
        vec![
            Action::StartResponse { status: 418, headers },
            Action::Emit(b"hello".to_vec()),
            Action::Emit(vec![0, 255]),
            Action::Finish,
        ]
    );
    assert_eq!(exchange.stage(), Stage::Done);
}

#[test]
fn bad_gateway_is_sent() {
    let mut client = Client::new("wss://tunly.sh/tunnel".to_string(), 3000).ok().unwrap();
    let mut relay = relay(&mut client, 3);
    let relayed = send_bad_gateway(&mut client, &mut relay);
    assert_eq!(relayed.released, Some(90));
    assert_eq!(relay.stage(), RelayStage::Done);

    let mut state = server();
    let mut exchange = awaiting(&mut state, 3);
    assert_eq!(
        answered(&mut state, &mut exchange, relayed.messages),
        vec![
            Action::StartResponse { status: 502, headers: Headers::new() },
            Action::Emit(b"Bad Gateway".to_vec()),
            Action::Finish,
        ]
    );
}

#[test]
fn undecodable_chunks_of_a_response_are_passed_over() {
    let mut state = server();
    let mut exchange = awaiting(&mut state, 3);
    let chunk = |body: &str| TunnelMessage::ResponseChunk { id: 3, body: body.to_string() };
    let start = TunnelMessage::ResponseStart { id: 3, status: 200, headers: Headers::new() };
    let end = TunnelMessage::ResponseEnd { id: 3 };
    let messages = vec![start, chunk("b25l"), chunk("%%"), chunk("dHdv"), end];
    assert_eq!(
        answered(&mut state, &mut exchange, messages),
        vec![
            Action::StartResponse { status: 200, headers: Headers::new() },
            Action::Emit(b"one".to_vec()),
            Action::NextReply,
            Action::Emit(b"two".to_vec()),
            Action::Finish,
        ]
    );
}
