use tunly::body::{chunk_step, is_encodable, request_body_step, BodyStep};
use tunly::client::{
    announce, local_url, public_url, register, Client, ClientAction, LocalEvent, LocalRequest,
    RelayStage, Relayed,
};
use tunly::headers::Headers;
use tunly::message::{Incoming, TunnelMessage};

fn client() -> Client {
    Client::new("wss://tunly.sh/tunnel".to_string(), 3000).ok().unwrap()
}

fn headers(fields: &[(&str, &str)]) -> Headers {
    let mut headers = Headers::new();
    for (name, value) in fields {
        headers.insert(name.to_string(), value.to_string());
    }
    headers
}

fn start(id: u128) -> Incoming {
    Incoming::Message(TunnelMessage::RequestStart {
        id,
        method: "GET".to_string(),
        path: "/a?b=c".to_string(),
        headers: headers(&[("host", "api.tunly.sh"), ("accept", "*/*")]),
    })
}

fn forwarded(client: &mut Client, id: u128, channel: u64) -> LocalRequest {
    match client.receive(start(id), channel) {
        ClientAction::Forward { request, replaced: None } => request,
        other => panic!("{:?}", other),
    }
}

fn end(id: u128) -> Incoming {
    Incoming::Message(TunnelMessage::RequestEnd { id })
}

#[test]
fn server_url_must_be_one() {
    assert_eq!(
        Client::new("tunly.sh".to_string(), 3000).err(),
        Some("relative URL without a base".to_string())
    );
    assert!(Client::new("wss://yourdomain.com/tunnel".to_string(), 3000).is_ok());
    assert_eq!(
        Client::with_host("x".to_string(), 1, Err("no".to_string())).err(),
        Some("no".to_string())
    );
}

#[test]
fn registration() {
    assert_eq!(
        register("secret".to_string(), Some("myapp".to_string())),
        TunnelMessage::Register { token: "secret".to_string(), name: Some("myapp".to_string()) }
    );
}

#[test]
fn tunnel_is_announced_under_the_servers_host() {
    let mut client = client();
    assert_eq!(
        client.receive(
            Incoming::Message(TunnelMessage::Registered { subdomain: "myapp".to_string() }),
            1
        ),
        ClientAction::Announce {
            subdomain: "myapp".to_string(),
            public_url: "https://myapp.tunly.sh".to_string()
        }
    );
}

#[test]
fn announced_host_is_the_host_alone() {
    let url = |server: &str| {
        let mut client = Client::new(server.to_string(), 3000).ok().unwrap();
        match client.receive(
            Incoming::Message(TunnelMessage::Registered { subdomain: "a".to_string() }),
            1,
        ) {
            ClientAction::Announce { public_url, .. } => public_url,
            other => panic!("{:?}", other),
        }
    };
    assert_eq!(url("wss://user@TUNLY.local:8443/tunnel?x=y"), "https://a.tunly.local");
    assert_eq!(url("ws://127.0.0.1:3010/tunnel"), "https://a.127.0.0.1");
    assert_eq!(url("unix:/run/tunly"), "https://a.yourdomain.com");
}

#[test]
fn announcements_by_what_was_read() {
    assert_eq!(public_url(&"a".to_string(), Some("b.c".to_string())), "https://a.b.c");
    assert_eq!(public_url(&"a".to_string(), None), "https://a.yourdomain.com");
    assert_eq!(
        announce("a".to_string(), Err("invalid port number".to_string())),
        ClientAction::Fail("invalid port number".to_string())
    );
}

#[test]
fn request_goes_to_the_local_server() {
    let mut client = client();
    let request = forwarded(&mut client, 5, 9);
    assert_eq!(request.relay.id(), 5);
    assert_eq!(request.relay.stage(), RelayStage::Waiting);
    assert_eq!(request.method, "GET");
    assert_eq!(request.url, "http://localhost:3000/a?b=c");
    assert_eq!(request.headers, headers(&[("accept", "*/*")]));
}

#[test]
fn local_urls() {
    assert_eq!(local_url(80, &"/".to_string()), "http://localhost:80/");
    assert_eq!(local_url(65535, &"*".to_string()), "http://localhost:65535*");
}

#[test]
fn body_goes_to_the_request_that_takes_it() {
    let mut client = client();
    forwarded(&mut client, 5, 9);
    forwarded(&mut client, 6, 10);
    for (id, channel) in [(5, 9), (6, 10)] {
        let chunk = || TunnelMessage::RequestChunk { id, body: "aGk=".to_string() };
        assert_eq!(
            client.receive(Incoming::Message(chunk()), 11),
            ClientAction::Deliver { channel, message: chunk() }
        );
        assert_eq!(
            client.receive(end(id), 11),
            ClientAction::Deliver { channel, message: TunnelMessage::RequestEnd { id } }
        );
    }
    assert_eq!(client.receive(end(7), 11), ClientAction::Skip);
}

#[test]
fn other_frames_of_a_server() {
    let mut client = client();
    assert_eq!(
        client.receive(
            Incoming::Message(TunnelMessage::Error { message: "in use".to_string() }),
            1
        ),
        ClientAction::Fail("in use".to_string())
    );
    assert_eq!(
        client.receive(Incoming::Message(TunnelMessage::ResponseEnd { id: 1 }), 1),
        ClientAction::Unexpected(TunnelMessage::ResponseEnd { id: 1 })
    );
    assert_eq!(
        client.receive(Incoming::Undecodable("expected value".to_string()), 1),
        ClientAction::Fail("expected value".to_string())
    );
    assert_eq!(client.receive(Incoming::NonText, 1), ClientAction::Skip);
    assert_eq!(
        client.receive(Incoming::Failed("reset".to_string()), 1),
        ClientAction::Fail("reset".to_string())
    );
    assert_eq!(client.receive(Incoming::Closed, 1), ClientAction::Finish);
}

#[test]
fn answer_is_relayed() {
    let mut client = client();
    let mut relay = forwarded(&mut client, 5, 9).relay;
    assert_eq!(
        client.relay(
            &mut relay,
            LocalEvent::Answered {
                status: 200,
                headers: vec![
                    ("server".to_string(), b"x".to_vec()),
                    ("set-cookie".to_string(), b"a".to_vec()),
                    ("set-cookie".to_string(), b"b".to_vec()),
                ],
            }
        ),
        Relayed {
            messages: vec![TunnelMessage::ResponseStart {
                id: 5,
                status: 200,
                headers: headers(&[("server", "x"), ("set-cookie", "b")]),
            }],
            released: None,
        }
    );
    assert_eq!(
        client.relay(&mut relay, LocalEvent::Body(Some(b"hello".to_vec()))),
        Relayed {
            messages: vec![TunnelMessage::ResponseChunk { id: 5, body: "aGVsbG8=".to_string() }],
            released: None,
        }
    );
    assert_ne!(client.receive(end(5), 11), ClientAction::Skip);
    assert_eq!(
        client.relay(&mut relay, LocalEvent::Body(None)),
        Relayed { messages: vec![TunnelMessage::ResponseEnd { id: 5 }], released: Some(9) }
    );
    assert_eq!(relay.stage(), RelayStage::Done);
    assert_eq!(client.receive(end(5), 11), ClientAction::Skip);
}

#[test]
fn unreachable_server_is_answered_for() {
    let mut client = client();
    let mut relay = forwarded(&mut client, 5, 9).relay;
    assert_eq!(
        client.relay(&mut relay, LocalEvent::Unreachable),
        Relayed {
            messages: vec![
                TunnelMessage::ResponseStart { id: 5, status: 502, headers: Headers::new() },
                TunnelMessage::ResponseChunk { id: 5, body: "QmFkIEdhdGV3YXk=".to_string() },
                TunnelMessage::ResponseEnd { id: 5 },
            ],
            released: Some(9),
        }
    );
    assert_eq!(relay.stage(), RelayStage::Done);
    assert_eq!(client.receive(end(5), 11), ClientAction::Skip);
}

#[test]
fn second_request_with_an_id_replaces_the_first() {
    let mut client = client();
    let mut first = forwarded(&mut client, 5, 9).relay;
    let mut second = match client.receive(start(5), 10) {
        ClientAction::Forward { request, replaced } => {
            assert_eq!(replaced, Some(9));
            request.relay
        }
        other => panic!("{:?}", other),
    };
    assert_eq!(
        client.receive(end(5), 11),
        ClientAction::Deliver { channel: 10, message: TunnelMessage::RequestEnd { id: 5 } }
    );
    assert_eq!(client.relay(&mut first, LocalEvent::Unreachable).released, Some(10));
    assert_eq!(client.receive(end(5), 11), ClientAction::Skip);
    assert_eq!(client.relay(&mut second, LocalEvent::Unreachable).released, None);
}

#[test]
fn steps_of_a_request_body() {
    let chunk = |body: &str| Some(TunnelMessage::RequestChunk { id: 5, body: body.to_string() });
    assert_eq!(request_body_step(chunk("aGk=")), BodyStep::Emit(b"hi".to_vec()));
    assert_eq!(request_body_step(chunk("")), BodyStep::Emit(Vec::new()));
    assert_eq!(request_body_step(chunk("aGk")), BodyStep::Skip);
    assert_eq!(request_body_step(chunk("a-_=")), BodyStep::Skip);
    assert_eq!(
        request_body_step(Some(TunnelMessage::ResponseEnd { id: 5 })),
        BodyStep::Skip
    );
    assert_eq!(request_body_step(Some(TunnelMessage::RequestEnd { id: 5 })), BodyStep::End);
    assert_eq!(request_body_step(None), BodyStep::End);
}

#[test]
fn steps_by_what_was_decoded() {
    assert_eq!(chunk_step(Some(vec![1, 2])), BodyStep::Emit(vec![1, 2]));
    assert_eq!(chunk_step(None), BodyStep::Skip);
}

#[test]
fn lengths_that_can_be_encoded() {
    assert!(is_encodable(0));
    assert!(is_encodable(1 << 20));
    assert!(!is_encodable(usize::MAX));
}
