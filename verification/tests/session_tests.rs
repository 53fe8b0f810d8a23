use word2ipa::dictionary::{load_dictionary, WordMapping};
use word2ipa::session::Session;

const PLACEHOLDER: &str = "IPA translation will appear here.";

fn mapping() -> WordMapping {
    load_dictionary(Some(
        r#"{"entries": [{"hello": "h ə l oʊ", "cat": "k æ t"}]}"#
            .as_bytes()
            .to_vec(),
    ))
    .unwrap()
}

#[test]
fn new_session_shows_placeholder() {
    let s = Session::new();
    assert_eq!(s.display, PLACEHOLDER.to_string());
    assert!(s.history.is_empty());
}

#[test]
fn empty_query_resets_display_and_keeps_history() {
    let m = mapping();
    let mut s = Session::new();
    s.submit("hello", &m);
    s.submit("", &m);
    assert_eq!(s.display, PLACEHOLDER.to_string());
    assert_eq!(s.history.len(), 1);
}

#[test]
fn hit_displays_and_appends_history() {
    let m = mapping();
    let mut s = Session::new();
    s.submit("HELLO", &m);
    assert_eq!(s.display, "h ə l oʊ".to_string());
    assert_eq!(
        s.history,
        vec![("HELLO".to_string(), "h ə l oʊ".to_string())]
    );
}

#[test]
fn miss_displays_error_and_keeps_history() {
    let m = mapping();
    let mut s = Session::new();
    s.submit("zzz", &m);
    assert_eq!(s.display, "Error: Word 'zzz' not found.".to_string());
    assert!(s.history.is_empty());
}

#[test]
fn history_grows_in_submission_order() {
    let m = mapping();
    let mut s = Session::new();
    s.submit("hello", &m);
    s.submit("nope", &m);
    s.submit("Cat", &m);
    assert_eq!(
        s.history,
        vec![
            ("hello".to_string(), "h ə l oʊ".to_string()),
            ("Cat".to_string(), "k æ t".to_string()),
        ]
    );
}
