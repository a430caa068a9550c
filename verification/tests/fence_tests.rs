use markdown::fence::{parse_range, FenceIter, FenceSettings, FenceToken, LineRange};

#[test]
fn parse_range_single_number() {
    assert_eq!(parse_range("3"), Some(LineRange { from: 3, to: 3 }));
}

#[test]
fn parse_range_pair() {
    assert_eq!(parse_range("2-4"), Some(LineRange { from: 2, to: 4 }));
}

#[test]
fn parse_range_reversed_pair_is_reordered() {
    assert_eq!(parse_range("9-5"), Some(LineRange { from: 5, to: 9 }));
}

#[test]
fn parse_range_rejects_junk() {
    assert_eq!(parse_range(""), None);
    assert_eq!(parse_range("a"), None);
    assert_eq!(parse_range("1-a"), None);
    assert_eq!(parse_range("1-2-3"), None);
    assert_eq!(parse_range("-3"), None);
    assert_eq!(parse_range("99999999999999999999999"), None);
}

#[test]
fn settings_read_every_annotation() {
    let s = FenceSettings::new("rust,linenos,linenostart=5,hl_lines=1-3 5,name=demo,copy");
    assert_eq!(s.language.as_deref(), Some("rust"));
    assert!(s.line_numbers);
    assert_eq!(s.line_number_start, 5);
    assert_eq!(
        s.highlight_lines,
        vec![LineRange { from: 1, to: 3 }, LineRange { from: 5, to: 5 }]
    );
    assert!(s.hide_lines.is_empty());
    assert_eq!(s.name.as_deref(), Some("demo"));
    assert!(s.enable_copy);
}

#[test]
fn settings_default_to_plain_rendering() {
    let s = FenceSettings::new("");
    assert_eq!(s.language, None);
    assert!(!s.line_numbers);
    assert_eq!(s.line_number_start, 1);
    assert!(s.highlight_lines.is_empty());
    assert!(s.hide_lines.is_empty());
    assert_eq!(s.name, None);
    assert!(!s.enable_copy);
}

#[test]
fn unknown_annotations_with_values_are_skipped() {
    let s = FenceSettings::new("mystery=thing,python");
    assert_eq!(s.language.as_deref(), Some("python"));
}

#[test]
fn hide_lines_accumulate_across_annotations() {
    let s = FenceSettings::new("hide_lines=1 2,hide_lines=7-8");
    assert_eq!(
        s.hide_lines,
        vec![
            LineRange { from: 1, to: 1 },
            LineRange { from: 2, to: 2 },
            LineRange { from: 7, to: 8 }
        ]
    );
}

#[test]
fn whitespace_around_tokens_is_ignored() {
    let s = FenceSettings::new("  rust , linenos ,  name=padded");
    assert_eq!(s.language.as_deref(), Some("rust"));
    assert!(s.line_numbers);
    assert_eq!(s.name.as_deref(), Some("padded"));
}

#[test]
fn malformed_numbers_leave_the_start_line_alone() {
    let s = FenceSettings::new("linenostart=abc,linenos");
    assert_eq!(s.line_number_start, 1);
    assert!(s.line_numbers);
}

#[test]
fn iterator_yields_tokens_in_order() {
    let mut it = FenceIter::new("toml,copy");
    assert_eq!(it.next(), Some(FenceToken::Language("toml".to_string())));
    assert_eq!(it.next(), Some(FenceToken::EnableCopy));
    assert_eq!(it.next(), None);
}

#[test]
fn iterator_parse_ranges_drops_bad_pieces() {
    let rs = FenceIter::parse_ranges(Some("1-2 x 4"));
    assert_eq!(rs, vec![LineRange { from: 1, to: 2 }, LineRange { from: 4, to: 4 }]);
    assert!(FenceIter::parse_ranges(None).is_empty());
}

#[test]
fn later_language_tokens_win() {
    let s = FenceSettings::new("rust,python");
    assert_eq!(s.language.as_deref(), Some("python"));
}
