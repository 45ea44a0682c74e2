use tunly::exchange::{
    valid_status, Action, Event, Exchange, HttpReply, HttpRequest, Opened, Stage,
    REPLY_TIMEOUT_SECS,
};
use tunly::headers::Headers;
use tunly::message::{Incoming, TunnelMessage};
use tunly::server::{AppState, SocketAction};

fn state() -> AppState {
    let mut state = AppState::new(Some("t".to_string()), Some("tunly.sh".to_string()));
    state.handshake(
        Incoming::Message(TunnelMessage::Register {
            token: "t".to_string(),
            name: Some("api".to_string()),
        }),
        7,
    );
    state
}

fn request(host: Option<&str>, path: Option<&str>) -> HttpRequest {
    let mut headers = vec![("accept".to_string(), b"*/*".to_vec())];
    if let Some(host) = host {
        headers.push(("host".to_string(), host.as_bytes().to_vec()));
    }
    HttpRequest {
        method: "POST".to_string(),
        path: path.map(|path| path.to_string()),
        headers,
    }
}

fn headers(fields: &[(&str, &str)]) -> Headers {
    let mut headers = Headers::new();
    for (name, value) in fields {
        headers.insert(name.to_string(), value.to_string());
    }
    headers
}

fn forwarded(state: &mut AppState, id: u128) -> Exchange {
    match state.open_with(request(Some("api.tunly.sh"), None), 40, id) {
        Opened::Forwarded { exchange, .. } => exchange,
        other => panic!("{:?}", other),
    }
}

fn reply(status: u16, body: &str) -> HttpReply {
    HttpReply { status, body: body.to_string() }
}

fn waits(state: &AppState, id: u128) -> bool {
    let message = TunnelMessage::ResponseEnd { id };
    state.route(Incoming::Message(message)) != SocketAction::Skip
}

fn awaiting(state: &mut AppState, id: u128) -> Exchange {
    let mut exchange = forwarded(state, id);
    state.advance(&mut exchange, Event::Sent(true));
    state.advance(&mut exchange, Event::Body(None));
    state.advance(&mut exchange, Event::Sent(true));
    exchange
}

#[test]
fn request_without_a_subdomain() {
    let mut state = state();
    for host in [None, Some(""), Some("tunly.sh")] {
        assert_eq!(
            state.open(request(host, None), 40),
            Opened::Answered(reply(404, "Domain mapping not found"))
        );
    }
}

#[test]
fn request_for_a_tunnel_that_is_not_there() {
    let mut state = state();
    assert_eq!(
        state.open(request(Some("web.tunly.sh"), None), 40),
        Opened::Answered(reply(404, "Tunnel 'web' not found or offline"))
    );
    state.disconnect(&"api".to_string());
    assert_eq!(
        state.open(request(Some("api.tunly.sh"), None), 40),
        Opened::Answered(reply(404, "Tunnel 'api' not found or offline"))
    );
}

#[test]
fn tunnel_is_reached_under_a_name_that_holds_the_domain() {
    let mut state = AppState::new(None, None);
    assert_eq!(
        state.open(request(Some("a.localhost.localhost"), None), 40),
        Opened::Answered(reply(404, "Tunnel 'a.localhost' not found or offline"))
    );
    for (name, channel) in [("a", 7), ("a.localhost", 8)] {
        state.handshake(
            Incoming::Message(TunnelMessage::Register {
                token: "secret".to_string(),
                name: Some(name.to_string()),
            }),
            channel,
        );
    }
    for (host, channel) in [("a.localhost", 7), ("a.localhost.localhost", 8)] {
        match state.open(request(Some(host), None), 40) {
            Opened::Forwarded { tunnel, .. } => assert_eq!(tunnel, channel),
            other => panic!("{:?}", other),
        }
    }
}

#[test]
fn request_goes_to_its_tunnel() {
    let mut state = state();
    match state.open_with(request(Some("api.tunly.sh"), Some("/a?b=c")), 40, 5) {
        Opened::Forwarded { exchange, tunnel, start } => {
            assert_eq!(exchange.id(), 5);
            assert_eq!(exchange.stage(), Stage::Opening);
            assert_eq!(tunnel, 7);
            assert_eq!(
                start,
                TunnelMessage::RequestStart {
                    id: 5,
                    method: "POST".to_string(),
                    path: "/a?b=c".to_string(),
                    headers: headers(&[("accept", "*/*"), ("host", "api.tunly.sh")]),
                }
            );
        }
        other => panic!("{:?}", other),
    }
    assert!(waits(&state, 5));
}

#[test]
fn request_without_a_path_is_for_the_root() {
    let mut state = state();
    match state.open(request(Some("api.tunly.sh"), None), 40) {
        Opened::Forwarded { start: TunnelMessage::RequestStart { id, path, .. }, exchange, .. } => {
            assert_eq!(path, "/");
            assert_eq!(exchange.id(), id);
            assert_eq!(id >> 76 & 0xf, 4);
            assert_eq!(id >> 62 & 0x3, 2);
        }
        other => panic!("{:?}", other),
    }
}

#[test]
fn lost_tunnel_is_answered_for() {
    let mut state = state();
    let mut exchange = forwarded(&mut state, 5);
    assert_eq!(
        state.advance(&mut exchange, Event::Sent(false)),
        Action::Respond(reply(500, "Tunnel connection lost"))
    );
    assert_eq!(exchange.stage(), Stage::Done);
    assert!(!waits(&state, 5));
}

#[test]
fn body_is_sent_in_chunks() {
    let mut state = state();
    let mut exchange = forwarded(&mut state, 5);
    assert_eq!(state.advance(&mut exchange, Event::Sent(true)), Action::ReadBody);
    for (chunk, text) in [("hello", "aGVsbG8="), ("", ""), ("world!", "d29ybGQh")] {
        assert_eq!(
            state.advance(&mut exchange, Event::Body(Some(chunk.as_bytes().to_vec()))),
            Action::Send(TunnelMessage::RequestChunk { id: 5, body: text.to_string() })
        );
        assert_eq!(state.advance(&mut exchange, Event::Sent(true)), Action::ReadBody);
    }
    assert_eq!(
        state.advance(&mut exchange, Event::Body(None)),
        Action::Send(TunnelMessage::RequestEnd { id: 5 })
    );
    assert_eq!(state.advance(&mut exchange, Event::Sent(false)), Action::AwaitReply);
    assert_eq!(exchange.stage(), Stage::Awaiting);
    assert!(waits(&state, 5));
    assert_eq!(REPLY_TIMEOUT_SECS, 30);
}

#[test]
fn body_is_cut_short_where_a_chunk_is_not_taken() {
    let mut state = state();
    let mut exchange = forwarded(&mut state, 5);
    state.advance(&mut exchange, Event::Sent(true));
    state.advance(&mut exchange, Event::Body(Some(vec![1])));
    assert_eq!(
        state.advance(&mut exchange, Event::Sent(false)),
        Action::Send(TunnelMessage::RequestEnd { id: 5 })
    );
}

#[test]
fn request_without_a_response_times_out() {
    let answer = || Action::Respond(reply(504, "Gateway Timeout: Client did not respond in time"));
    for event in [
        Event::TimedOut,
        Event::Reply(None),
        Event::Reply(Some(TunnelMessage::ResponseEnd { id: 5 })),
        Event::Reply(Some(TunnelMessage::ResponseChunk { id: 5, body: String::new() })),
    ] {
        let mut state = state();
        let mut exchange = awaiting(&mut state, 5);
        assert_eq!(state.advance(&mut exchange, event), answer());
        assert_eq!(exchange.stage(), Stage::Done);
        assert!(!waits(&state, 5));
    }
}

#[test]
fn response_is_handed_back() {
    let mut state = state();
    let mut exchange = awaiting(&mut state, 5);
    assert_eq!(
        state.advance(
            &mut exchange,
            Event::Reply(Some(TunnelMessage::ResponseStart {
                id: 5,
                status: 201,
                headers: headers(&[("Content-Type", "text/plain"), ("bad name", "x")]),
            }))
        ),
        Action::StartResponse { status: 201, headers: headers(&[("content-type", "text/plain")]) }
    );
    let chunk = |body: &str| {
        Event::Reply(Some(TunnelMessage::ResponseChunk { id: 5, body: body.to_string() }))
    };
    assert_eq!(
        state.advance(&mut exchange, chunk("aGVsbG8=")),
        Action::Emit(b"hello".to_vec())
    );
    assert_eq!(state.advance(&mut exchange, chunk("aGVsbG8")), Action::NextReply);
    assert_eq!(state.advance(&mut exchange, chunk("?")), Action::NextReply);
    assert_eq!(
        state.advance(&mut exchange, Event::Reply(Some(TunnelMessage::RequestEnd { id: 5 }))),
        Action::NextReply
    );
    assert!(waits(&state, 5));
    assert_eq!(
        state.advance(&mut exchange, Event::Reply(Some(TunnelMessage::ResponseEnd { id: 5 }))),
        Action::Finish
    );
    assert_eq!(exchange.stage(), Stage::Done);
    assert!(!waits(&state, 5));
}

#[test]
fn response_ends_where_nothing_more_comes() {
    let mut state = state();
    let mut exchange = awaiting(&mut state, 5);
    state.advance(
        &mut exchange,
        Event::Reply(Some(TunnelMessage::ResponseStart {
            id: 5,
            status: 200,
            headers: Headers::new(),
        })),
    );
    assert_eq!(state.advance(&mut exchange, Event::Reply(None)), Action::Finish);
    assert!(!waits(&state, 5));
}

#[test]
fn one_request_does_not_touch_another() {
    let mut state = state();
    let mut first = forwarded(&mut state, 5);
    let second = forwarded(&mut state, 6);
    state.advance(&mut first, Event::Sent(false));
    assert!(!waits(&state, 5));
    assert!(waits(&state, 6));
    assert_eq!(second.stage(), Stage::Opening);
    assert_eq!(state.tunnel(&"api".to_string()), Some(7));
}

#[test]
fn statuses() {
    assert!(!valid_status(99));
    assert!(valid_status(100));
    assert!(valid_status(999));
    assert!(!valid_status(1000));
}
