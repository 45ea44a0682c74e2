use tunly::headers::{answer_fields, field_text, gather, goes_on, host_text, without_host, Headers};

fn headers(fields: &[(&str, &str)]) -> Headers {
    let mut headers = Headers::new();
    for (name, value) in fields {
        headers.insert(name.to_string(), value.to_string());
    }
    headers
}

fn raw(fields: &[(&str, &[u8])]) -> Vec<(String, Vec<u8>)> {
    fields.iter().map(|(name, value)| (name.to_string(), value.to_vec())).collect()
}

#[test]
fn later_value_takes_the_place_of_an_earlier_one() {
    let fields = headers(&[("a", "1"), ("b", "2"), ("a", "3")]);
    assert_eq!(
        fields.entries(),
        &vec![("a".to_string(), "3".to_string()), ("b".to_string(), "2".to_string())]
    );
}

#[test]
fn visible_values_travel_as_they_are() {
    assert_eq!(field_text(&b"text/html; q=0.9".to_vec()), "text/html; q=0.9");
    assert_eq!(field_text(&b"a\tb".to_vec()), "a\tb");
    assert_eq!(field_text(&Vec::new()), "");
}

#[test]
fn other_values_travel_empty() {
    assert_eq!(field_text(&vec![b'a', 0x80]), "");
    assert_eq!(field_text(&vec![b'a', 127]), "");
    assert_eq!(field_text(&vec![b'a', b'\n']), "");
    assert_eq!(field_text(&"é".as_bytes().to_vec()), "");
}

#[test]
fn gathered_fields() {
    let gathered = gather(&raw(&[
        ("accept", b"*/*"),
        ("cookie", b"a=1"),
        ("x-raw", &[0xff]),
        ("cookie", b"b=2"),
    ]));
    assert_eq!(gathered, headers(&[("accept", "*/*"), ("cookie", "b=2"), ("x-raw", "")]));
}

#[test]
fn host_is_the_first_of_that_name() {
    assert_eq!(host_text(&raw(&[("accept", b"*/*"), ("host", b"a.b"), ("host", b"c.d")])), "a.b");
    assert_eq!(host_text(&raw(&[("accept", b"*/*")])), "");
    assert_eq!(host_text(&raw(&[("host", &[0xff]), ("host", b"c.d")])), "");
}

#[test]
fn host_is_held_back_in_any_capitals() {
    let kept = without_host(&headers(&[
        ("Host", "a"),
        ("accept", "*/*"),
        ("HOST", "b"),
        ("host", "c"),
        ("x-host", "d"),
    ]));
    assert_eq!(kept, headers(&[("accept", "*/*"), ("x-host", "d")]));
}

#[test]
fn only_host_is_held_back() {
    assert!(!goes_on("host"));
    assert!(goes_on("hosts"));
    assert!(goes_on("content-length"));
    let all = headers(&[("content-length", "5"), ("HÖST", "x"), ("", "y")]);
    assert_eq!(without_host(&all), headers(&[("content-length", "5"), ("HÖST", "x"), ("", "y")]));
}

#[test]
fn answers_carry_names_in_small_letters() {
    let fields = answer_fields(&headers(&[("Content-Type", "text/plain"), ("X-A", "1")]));
    assert_eq!(fields, headers(&[("content-type", "text/plain"), ("x-a", "1")]));
}

#[test]
fn answers_leave_out_what_is_no_field() {
    let long = "n".repeat(65536);
    let fields = answer_fields(&headers(&[
        ("bad name", "1"),
        ("", "2"),
        ("colon:", "3"),
        ("x-newline", "a\nb"),
        ("x-del", "\u{7f}"),
        ("naïve", "4"),
        (&long, "5"),
        ("x-tab", "a\tb"),
        ("x-text", "é"),
        ("!#$%&'*+-.^_`|~09", "6"),
    ]));
    assert_eq!(
        fields,
        headers(&[("x-tab", "a\tb"), ("x-text", "é"), ("!#$%&'*+-.^_`|~09", "6")])
    );
    let longest = "N".repeat(65535);
    let fields = answer_fields(&headers(&[(&longest, "7")]));
    assert_eq!(fields, headers(&[(&longest.to_lowercase(), "7")]));
}

#[test]
fn names_that_differ_in_capitals_are_one() {
    let fields = answer_fields(&headers(&[("ETag", "1"), ("a", "2"), ("etag", "3")]));
    assert_eq!(fields, headers(&[("etag", "3"), ("a", "2")]));
    let fields = answer_fields(&headers(&[("ETag", "1"), ("etag", "\n")]));
    assert_eq!(fields, headers(&[("etag", "1")]));
}
