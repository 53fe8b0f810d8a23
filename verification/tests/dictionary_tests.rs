use word2ipa::dictionary::{load_dictionary, resolve, LoadError, ResolveError, WordMapping};

fn doc(text: &str) -> Option<Vec<u8>> {
    Some(text.as_bytes().to_vec())
}

fn load_err(text: &str) -> LoadError {
    match load_dictionary(doc(text)) {
        Err(e) => e,
        Ok(_) => panic!("expected a load error"),
    }
}

#[test]
fn hello_block_resolves() {
    let m = load_dictionary(doc(r#"{"entries": [{"hello": "h ə l oʊ"}]}"#)).unwrap();
    assert_eq!(resolve("HELLO", &m).unwrap(), "h ə l oʊ".to_string());
    match resolve("goodbye", &m) {
        Err(ResolveError::WordNotFound(w)) => assert_eq!(w, "goodbye".to_string()),
        Ok(_) => panic!("expected word-not-found"),
    }
}

#[test]
fn resolve_returns_exact_stored_transcription() {
    let m = load_dictionary(doc(r#"{"entries": [{"cat": "k æ t", "dog": "d ɔ g"}]}"#)).unwrap();
    assert_eq!(resolve("cat", &m).unwrap(), "k æ t".to_string());
    assert_eq!(resolve("dog", &m).unwrap(), "d ɔ g".to_string());
}

#[test]
fn resolve_is_case_insensitive() {
    let m = load_dictionary(doc(r#"{"entries": [{"cat": "k æ t"}]}"#)).unwrap();
    let a = resolve("Cat", &m).unwrap();
    let b = resolve("cat", &m).unwrap();
    let c = resolve("CAT", &m).unwrap();
    assert_eq!(a, b);
    assert_eq!(b, c);
    assert_eq!(c, "k æ t".to_string());
}

#[test]
fn resolve_miss_carries_original_query() {
    let m = load_dictionary(doc(r#"{"entries": [{"cat": "k æ t"}]}"#)).unwrap();
    match resolve("Dog", &m) {
        Err(e) => {
            let ResolveError::WordNotFound(ref w) = e;
            assert_eq!(w, "Dog");
            assert_eq!(e.message(), "Error: Word 'Dog' not found.".to_string());
        }
        Ok(_) => panic!("expected word-not-found"),
    }
}

#[test]
fn zero_entry_blocks_is_empty_dictionary() {
    assert_eq!(load_err(r#"{"entries": []}"#), LoadError::EmptyDictionary);
    assert_eq!(load_err(r#"{ "entries" : [ ] }"#), LoadError::EmptyDictionary);
}

#[test]
fn invalid_json_is_malformed() {
    assert_eq!(load_err(r#"{"entries": ["#), LoadError::MalformedJson);
    assert_eq!(load_err("not json at all"), LoadError::MalformedJson);
    assert_eq!(load_err(""), LoadError::MalformedJson);
}

#[test]
fn wrong_shape_is_malformed() {
    assert_eq!(load_err(r#"{"other": []}"#), LoadError::MalformedJson);
    assert_eq!(load_err(r#"{"entries": [{"a": ["x"]}]}"#), LoadError::MalformedJson);
    assert_eq!(load_err(r#"{"entries": [42]}"#), LoadError::MalformedJson);
    assert_eq!(load_err(r#"{"entries": []} trailing"#), LoadError::MalformedJson);
}

#[test]
fn duplicate_keys_are_malformed() {
    assert_eq!(
        load_err(r#"{"entries": [{"a": "x", "a": "y"}]}"#),
        LoadError::MalformedJson
    );
}

#[test]
fn missing_resource() {
    match load_dictionary(None) {
        Err(e) => assert_eq!(e, LoadError::ResourceMissing),
        Ok(_) => panic!("expected resource-missing"),
    }
}

#[test]
fn invalid_utf8_is_encoding_error() {
    match load_dictionary(Some(vec![0xff, 0xfe, 0x20])) {
        Err(e) => assert_eq!(e, LoadError::EncodingError),
        Ok(_) => panic!("expected encoding error"),
    }
}

#[test]
fn string_escapes_decode() {
    let m = load_dictionary(doc(r#"{"entries": [{"x": "a\"b\\c\/dA\n"}]}"#)).unwrap();
    assert_eq!(resolve("x", &m).unwrap(), "a\"b\\c/dA\n".to_string());
}

#[test]
fn surrogate_pair_escape_decodes() {
    let m = load_dictionary(doc(r#"{"entries": [{"x": "\uD83D\uDE00"}]}"#)).unwrap();
    assert_eq!(resolve("x", &m).unwrap(), "\u{1F600}".to_string());
}

#[test]
fn unicode_escape_decodes() {
    let m = load_dictionary(doc(r#"{"entries": [{"x": "\u0041\u00e9"}]}"#)).unwrap();
    assert_eq!(resolve("x", &m).unwrap(), "A\u{e9}".to_string());
}

#[test]
fn lone_surrogate_is_malformed() {
    assert_eq!(
        load_err(r#"{"entries": [{"x": "\uD83D"}]}"#),
        LoadError::MalformedJson
    );
    assert_eq!(
        load_err(r#"{"entries": [{"x": "\uDE00"}]}"#),
        LoadError::MalformedJson
    );
}

#[test]
fn only_first_block_is_consulted() {
    let m =
        load_dictionary(doc(r#"{"entries": [{"a": "1"}, {"b": "2"}]}"#)).unwrap();
    assert_eq!(resolve("a", &m).unwrap(), "1".to_string());
    assert!(resolve("b", &m).is_err());
}

#[test]
fn whitespace_between_tokens_is_tolerated() {
    let m = load_dictionary(doc(
        "  {\n  \"entries\" :\t[\r\n { \"hi\" : \"h aɪ\" } ]\n}  ",
    ))
    .unwrap();
    assert_eq!(resolve("hi", &m).unwrap(), "h aɪ".to_string());
}

#[test]
fn word_mapping_new_rejects_duplicates() {
    let dup = vec![
        ("a".to_string(), "x".to_string()),
        ("a".to_string(), "y".to_string()),
    ];
    assert!(WordMapping::new(dup).is_none());
    let ok = vec![
        ("hello".to_string(), "h ə l oʊ".to_string()),
        ("cat".to_string(), "k æ t".to_string()),
    ];
    let m = WordMapping::new(ok).unwrap();
    assert_eq!(resolve("HELLO", &m).unwrap(), "h ə l oʊ".to_string());
}

#[test]
fn lowercase_folds_ascii_only() {
    assert_eq!(word2ipa::text::lowercase("CaT"), "cat".to_string());
    assert_eq!(word2ipa::text::lowercase("ÜBER"), "Über".to_string());
    assert_eq!(word2ipa::text::lowercase("already lower"), "already lower".to_string());
    let once = word2ipa::text::lowercase("MiXeD");
    assert_eq!(word2ipa::text::lowercase(&once), once);
}
