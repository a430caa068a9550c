use markdown::callouts::{case_insensitive_eq, ObsidianCalloutType, ObsidianCalloutsHandler};

#[test]
fn byte_comparison_folds_ascii_case() {
    assert!(case_insensitive_eq(b"Note", b"nOTE"));
    assert!(case_insensitive_eq(b"", b""));
    assert!(!case_insensitive_eq(b"note", b"tone"));
    assert!(!case_insensitive_eq(b"note", b"notes"));
}

#[test]
fn every_callout_name_round_trips() {
    let all = [
        ObsidianCalloutType::Note,
        ObsidianCalloutType::Tip,
        ObsidianCalloutType::Warning,
        ObsidianCalloutType::Important,
        ObsidianCalloutType::Info,
        ObsidianCalloutType::Question,
        ObsidianCalloutType::Error,
    ];
    for t in all {
        assert_eq!(ObsidianCalloutType::from_str(t.as_str()), Some(t));
    }
}

#[test]
fn lookup_is_case_insensitive() {
    assert_eq!(ObsidianCalloutType::from_str("NOTE"), Some(ObsidianCalloutType::Note));
    assert_eq!(ObsidianCalloutType::from_str("WaRnInG"), Some(ObsidianCalloutType::Warning));
}

#[test]
fn unknown_tags_map_to_nothing() {
    assert_eq!(ObsidianCalloutType::from_str("nope"), None);
    assert_eq!(ObsidianCalloutType::from_str(""), None);
    assert_eq!(ObsidianCalloutType::from_str("notable"), None);
}

#[test]
fn the_class_is_the_canonical_name() {
    assert_eq!(ObsidianCalloutType::Important.to_class(), "important");
    assert_eq!(ObsidianCalloutType::Error.as_str(), "error");
}

#[test]
fn the_handler_delegates_to_the_lookup() {
    let mut h = ObsidianCalloutsHandler;
    assert_eq!(h.handle_admonition_tag("TIP"), Some(ObsidianCalloutType::Tip));
    assert_eq!(h.handle_admonition_tag("unheard-of"), None);
}
