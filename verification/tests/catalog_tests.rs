use word2ipa::catalog::{load_symbol_catalog, IpaEntry};
use word2ipa::dictionary::LoadError;

fn doc(text: &str) -> Option<Vec<u8>> {
    Some(text.as_bytes().to_vec())
}

fn load_err(text: &str) -> LoadError {
    match load_symbol_catalog(doc(text)) {
        Err(e) => e,
        Ok(_) => panic!("expected a load error"),
    }
}

const SH_ENTRY: &str = r#"[
  {
    "symbol": "ʃ",
    "sound": "sh",
    "description": "voiceless postalveolar fricative",
    "examples": ["ship", "wish"],
    "ipa_examples": ["ʃɪp", "wɪʃ"]
  }
]"#;

#[test]
fn empty_catalog_is_valid_and_empty() {
    let es = load_symbol_catalog(doc("[]")).unwrap();
    assert_eq!(es.len(), 0);
    let es = load_symbol_catalog(doc("  [ ]\n")).unwrap();
    assert_eq!(es.len(), 0);
}

#[test]
fn sh_entry_parses() {
    let es = load_symbol_catalog(doc(SH_ENTRY)).unwrap();
    assert_eq!(es.len(), 1);
    let e = &es[0];
    assert_eq!(e.symbol, "ʃ".to_string());
    assert_eq!(e.sound, "sh".to_string());
    assert_eq!(e.description, "voiceless postalveolar fricative".to_string());
    assert_eq!(e.examples, vec!["ship".to_string(), "wish".to_string()]);
    assert_eq!(e.ipa_examples, vec!["ʃɪp".to_string(), "wɪʃ".to_string()]);
}

#[test]
fn sh_entry_renders_two_pairs_in_order() {
    let es = load_symbol_catalog(doc(SH_ENTRY)).unwrap();
    let pairs = es[0].paired_examples();
    assert_eq!(
        pairs,
        vec![
            ("ship".to_string(), "ʃɪp".to_string()),
            ("wish".to_string(), "wɪʃ".to_string()),
        ]
    );
}

#[test]
fn pairing_truncates_to_shorter_list() {
    let e = IpaEntry {
        symbol: "s".to_string(),
        sound: "s".to_string(),
        description: "d".to_string(),
        examples: vec!["a".to_string(), "b".to_string(), "c".to_string()],
        ipa_examples: vec!["1".to_string(), "2".to_string()],
    };
    let pairs = e.paired_examples();
    assert_eq!(
        pairs,
        vec![
            ("a".to_string(), "1".to_string()),
            ("b".to_string(), "2".to_string()),
        ]
    );
    let swapped = IpaEntry {
        symbol: "s".to_string(),
        sound: "s".to_string(),
        description: "d".to_string(),
        examples: vec!["a".to_string()],
        ipa_examples: vec!["1".to_string(), "2".to_string()],
    };
    assert_eq!(
        swapped.paired_examples(),
        vec![("a".to_string(), "1".to_string())]
    );
}

#[test]
fn field_order_is_free() {
    let es = load_symbol_catalog(doc(
        r#"[{"ipa_examples": ["ʃɪp"], "description": "d", "examples": ["ship"], "sound": "sh", "symbol": "ʃ"}]"#,
    ))
    .unwrap();
    assert_eq!(es[0].symbol, "ʃ".to_string());
    assert_eq!(es[0].examples, vec!["ship".to_string()]);
}

#[test]
fn missing_field_is_malformed() {
    assert_eq!(
        load_err(r#"[{"symbol": "ʃ", "sound": "sh", "description": "d", "examples": []}]"#),
        LoadError::MalformedJson
    );
}

#[test]
fn unknown_field_is_malformed() {
    assert_eq!(
        load_err(
            r#"[{"symbol": "s", "sound": "s", "description": "d", "examples": [], "ipa_examples": [], "extra": "x"}]"#,
        ),
        LoadError::MalformedJson
    );
}

#[test]
fn repeated_field_is_malformed() {
    assert_eq!(
        load_err(
            r#"[{"symbol": "s", "symbol": "t", "sound": "s", "description": "d", "examples": [], "ipa_examples": []}]"#,
        ),
        LoadError::MalformedJson
    );
}

#[test]
fn wrong_field_shape_is_malformed() {
    assert_eq!(
        load_err(
            r#"[{"symbol": ["s"], "sound": "s", "description": "d", "examples": [], "ipa_examples": []}]"#,
        ),
        LoadError::MalformedJson
    );
    assert_eq!(
        load_err(
            r#"[{"symbol": "s", "sound": "s", "description": "d", "examples": "x", "ipa_examples": []}]"#,
        ),
        LoadError::MalformedJson
    );
}

#[test]
fn catalog_trailing_garbage_is_malformed() {
    assert_eq!(load_err("[] x"), LoadError::MalformedJson);
    assert_eq!(load_err("["), LoadError::MalformedJson);
}

#[test]
fn catalog_missing_resource() {
    match load_symbol_catalog(None) {
        Err(e) => assert_eq!(e, LoadError::ResourceMissing),
        Ok(_) => panic!("expected resource-missing"),
    }
}

#[test]
fn catalog_invalid_utf8_is_encoding_error() {
    match load_symbol_catalog(Some(vec![0x5b, 0xff])) {
        Err(e) => assert_eq!(e, LoadError::EncodingError),
        Ok(_) => panic!("expected encoding error"),
    }
}
