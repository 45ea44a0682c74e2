use tunly::text::{chars_of, or_default, same, split_first, strip_suffix};

#[test]
fn characters_in_order() {
    assert_eq!(chars_of("aé!"), vec!['a', 'é', '!']);
    assert_eq!(chars_of(""), Vec::<char>::new());
}

#[test]
fn sameness_of_texts() {
    assert!(same("host", "host"));
    assert!(!same("host", "Host"));
    assert!(!same("host", "hos"));
    assert!(same("", ""));
}

#[test]
fn split_at_the_first() {
    assert_eq!(split_first("a:b:c", ':'), ("a".to_string(), Some("b:c".to_string())));
    assert_eq!(split_first("abc", ':'), ("abc".to_string(), None));
    assert_eq!(split_first(":", ':'), (String::new(), Some(String::new())));
    assert_eq!(split_first("", ':'), (String::new(), None));
    assert_eq!(split_first("ü:ö", ':'), ("ü".to_string(), Some("ö".to_string())));
}

#[test]
fn suffixes() {
    let before = |text: &str| Some(text.to_string());
    assert_eq!(strip_suffix("a.b", ".b"), before("a"));
    assert_eq!(strip_suffix("a.b.b", ".b"), before("a.b"));
    assert_eq!(strip_suffix(".b", ".b"), before(""));
    assert_eq!(strip_suffix("a.b", ""), before("a.b"));
    assert_eq!(strip_suffix("b", ".b"), None);
    assert_eq!(strip_suffix("a.b", ".c"), None);
}

#[test]
fn defaults() {
    assert_eq!(or_default(None, "secret"), "secret");
    assert_eq!(or_default(Some(String::new()), "secret"), "");
}
