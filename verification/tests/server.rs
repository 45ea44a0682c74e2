use tunly::headers::Headers;
use tunly::ident::{random_name, short_name};
use tunly::message::{Incoming, TunnelMessage};
use tunly::exchange::{HttpRequest, Opened};
use tunly::server::{listen_address, AppState, Handshake, SocketAction};

fn state() -> AppState {
    AppState::new(Some("mysecrettoken".to_string()), Some("yourdomain.com".to_string()))
}

fn register(token: &str, name: Option<&str>) -> Incoming {
    Incoming::Message(TunnelMessage::Register {
        token: token.to_string(),
        name: name.map(|name| name.to_string()),
    })
}

fn established(name: &str) -> Handshake {
    Handshake::Established {
        subdomain: name.to_string(),
        reply: TunnelMessage::Registered { subdomain: name.to_string() },
    }
}

fn refused(message: &str) -> Handshake {
    Handshake::Refused { reply: TunnelMessage::Error { message: message.to_string() } }
}

fn get(host: &str) -> HttpRequest {
    HttpRequest {
        method: "GET".to_string(),
        path: None,
        headers: vec![("host".to_string(), host.as_bytes().to_vec())],
    }
}

#[test]
fn addresses() {
    assert_eq!(listen_address(None), "0.0.0.0:3010");
    assert_eq!(listen_address(Some("8080".to_string())), "0.0.0.0:8080");
}

#[test]
fn settings_have_defaults() {
    let mut state = AppState::new(None, None);
    assert_eq!(state.domain(), "localhost");
    assert_eq!(state.handshake(register("secret", Some("a")), 1), established("a"));
}

#[test]
fn custom_name_is_granted() {
    let mut state = state();
    assert_eq!(
        state.handshake(register("mysecrettoken", Some("myapp")), 7),
        established("myapp")
    );
    assert_eq!(state.tunnel(&"myapp".to_string()), Some(7));
    assert_eq!(state.tunnel(&"other".to_string()), None);
}

#[test]
fn wrong_token_is_refused() {
    let mut state = state();
    assert_eq!(
        state.handshake(register("secret", Some("myapp")), 7),
        refused("Invalid authentication token")
    );
    assert_eq!(state.tunnel(&"myapp".to_string()), None);
}

#[test]
fn taken_name_is_refused() {
    let mut state = state();
    state.handshake(register("mysecrettoken", Some("myapp")), 7);
    assert_eq!(
        state.handshake(register("mysecrettoken", Some("myapp")), 8),
        refused("Subdomain 'myapp' is already in use")
    );
    assert_eq!(state.tunnel(&"myapp".to_string()), Some(7));
}

#[test]
fn taken_name_by_chance_is_refused() {
    let mut state = state();
    state.handshake(register("mysecrettoken", Some("0123abcd")), 7);
    assert_eq!(
        state.handshake_with(register("mysecrettoken", None), 8, "0123abcd".to_string()),
        refused("Subdomain '0123abcd' is already in use")
    );
}

#[test]
fn anything_but_a_registration_is_dropped() {
    let mut state = state();
    for incoming in [
        Incoming::Message(TunnelMessage::Registered { subdomain: "a".to_string() }),
        Incoming::Undecodable("expected value".to_string()),
        Incoming::NonText,
        Incoming::Failed("reset".to_string()),
        Incoming::Closed,
    ] {
        assert_eq!(state.handshake(incoming, 1), Handshake::Dropped);
    }
}

#[test]
fn name_by_chance_is_eight_digits() {
    let mut state = state();
    match state.handshake(register("mysecrettoken", None), 3) {
        Handshake::Established { subdomain, .. } => {
            assert_eq!(subdomain.len(), 8);
            assert!(subdomain.chars().all(|c| c.is_ascii_digit() || ('a'..='f').contains(&c)));
            assert_eq!(state.tunnel(&subdomain), Some(3));
        }
        other => panic!("{:?}", other),
    }
    assert_ne!(random_name(), random_name());
}

#[test]
fn short_name_is_the_first_group_of_the_id() {
    assert_eq!(short_name(0xa1a2a3a4b1b2c1c2d1d2d3d4d5d6d7d8), "a1a2a3a4");
    assert_eq!(short_name(0), "00000000");
    assert_eq!(short_name(1 << 96), "00000001");
}

#[test]
fn disconnected_name_is_free_again() {
    let mut state = state();
    state.handshake(register("mysecrettoken", Some("myapp")), 7);
    state.disconnect(&"myapp".to_string());
    assert_eq!(state.tunnel(&"myapp".to_string()), None);
    assert_eq!(
        state.handshake(register("mysecrettoken", Some("myapp")), 9),
        established("myapp")
    );
    assert_eq!(state.tunnel(&"myapp".to_string()), Some(9));
}

#[test]
fn replies_go_to_the_request_that_waits() {
    let mut state = state();
    state.handshake(register("mysecrettoken", Some("myapp")), 7);
    assert!(matches!(
        state.open_with(get("myapp.yourdomain.com"), 40, 1),
        Opened::Forwarded { .. }
    ));
    assert!(matches!(
        state.open_with(get("myapp.yourdomain.com"), 41, 2),
        Opened::Forwarded { .. }
    ));
    let messages = |id: u128| {
        vec![
            TunnelMessage::ResponseStart { id, status: 200, headers: Headers::new() },
            TunnelMessage::ResponseChunk { id, body: String::new() },
            TunnelMessage::ResponseEnd { id },
        ]
    };
    for (id, channel) in [(1, 40), (2, 41)] {
        for (message, same) in messages(id).into_iter().zip(messages(id)) {
            assert_eq!(
                state.route(Incoming::Message(message)),
                SocketAction::Deliver { channel, message: same }
            );
        }
    }
    for message in messages(3) {
        assert_eq!(state.route(Incoming::Message(message)), SocketAction::Skip);
    }
}

#[test]
fn other_frames_of_a_tunnel() {
    let state = state();
    let message = || TunnelMessage::RequestEnd { id: 1 };
    assert_eq!(
        state.route(Incoming::Message(message())),
        SocketAction::Unexpected(message())
    );
    assert_eq!(state.route(Incoming::Undecodable("x".to_string())), SocketAction::Skip);
    assert_eq!(state.route(Incoming::NonText), SocketAction::Skip);
    assert_eq!(state.route(Incoming::Failed("x".to_string())), SocketAction::Disconnect);
    assert_eq!(state.route(Incoming::Closed), SocketAction::Disconnect);
}
