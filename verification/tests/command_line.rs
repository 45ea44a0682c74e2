use tunly::decimal::{read_port, write_port, PortError};
use tunly::retry::{Retry, MAX_BACKOFF_SECS};
use tunly::tunnel_spec::{name_or_default, parse, TunnelSpec};

fn spec(port: u16, name: Option<&str>) -> Result<TunnelSpec, PortError> {
    Ok(TunnelSpec { port, name: name.map(|name| name.to_string()) })
}

#[test]
fn port_alone() {
    assert_eq!(parse("3000"), spec(3000, None));
    assert_eq!(parse("8000"), spec(8000, None));
}

#[test]
fn ports_with_names() {
    assert_eq!(parse("3000:api"), spec(3000, Some("api")));
    assert_eq!(parse("4000:admin"), spec(4000, Some("admin")));
    assert_eq!(parse("5000:worker"), spec(5000, Some("worker")));
}

#[test]
fn what_follows_a_second_colon_is_left_out() {
    assert_eq!(parse("3000:api:v2"), spec(3000, Some("api")));
    assert_eq!(parse("3000:"), spec(3000, Some("")));
    assert_eq!(parse("3000::api"), spec(3000, Some("")));
}

#[test]
fn texts_that_are_no_port() {
    assert_eq!(parse(""), Err(PortError::Empty));
    assert_eq!(parse(":api"), Err(PortError::Empty));
    assert_eq!(parse("api"), Err(PortError::InvalidDigit));
    assert_eq!(parse("-1"), Err(PortError::InvalidDigit));
    assert_eq!(parse("+"), Err(PortError::InvalidDigit));
    assert_eq!(parse("++1"), Err(PortError::InvalidDigit));
    assert_eq!(parse(" 1"), Err(PortError::InvalidDigit));
    assert_eq!(parse("65536"), Err(PortError::TooLarge));
}

#[test]
fn ports_at_the_edges() {
    assert_eq!(read_port("0"), Ok(0));
    assert_eq!(read_port("65535"), Ok(65535));
    assert_eq!(read_port("+80"), Ok(80));
    assert_eq!(read_port("000080"), Ok(80));
}

#[test]
fn the_first_thing_wrong_is_what_counts() {
    assert_eq!(read_port("99999x"), Err(PortError::TooLarge));
    assert_eq!(read_port("9999x9"), Err(PortError::InvalidDigit));
}

#[test]
fn every_port_reads_as_the_standard_library_reads_it() {
    for text in ["", "+", "-", "-0", "+0", "7", "65535", "65536", "99999x", "9999x9", "٣"] {
        assert_eq!(read_port(text).ok(), text.parse::<u16>().ok(), "{}", text);
    }
}

#[test]
fn written_ports_are_read() {
    for port in [0u16, 7, 9, 10, 99, 100, 3000, 9999, 10000, 65535] {
        assert_eq!(write_port(port), port.to_string());
        assert_eq!(read_port(&write_port(port)), Ok(port));
    }
}

#[test]
fn own_name_comes_before_the_common_one() {
    let name = |name: &str| Some(name.to_string());
    assert_eq!(name_or_default(name("api"), name("myapp")), name("api"));
    assert_eq!(name_or_default(None, name("myapp")), name("myapp"));
    assert_eq!(name_or_default(None, None), None);
}

#[test]
fn waits_double_up_to_the_limit() {
    let mut retry = Retry::new();
    let mut waits = Vec::new();
    for _ in 0..9 {
        retry.begin();
        waits.push(retry.ended(false));
    }
    let expected: Vec<Option<u64>> =
        [1, 2, 4, 8, 16, 32, 60, 60, 60].iter().map(|secs| Some(*secs)).collect();
    assert_eq!(waits, expected);
    assert_eq!(retry.attempt(), 9);
    assert_eq!(MAX_BACKOFF_SECS, 60);
}

#[test]
fn a_graceful_end_starts_the_count_over() {
    let mut retry = Retry::new();
    for _ in 0..5 {
        retry.begin();
        retry.ended(false);
    }
    retry.begin();
    assert_eq!(retry.backoff_secs(), 32);
    assert_eq!(retry.ended(true), None);
    assert_eq!(retry.attempt(), 0);
    retry.begin();
    assert_eq!(retry.ended(false), Some(1));
}
