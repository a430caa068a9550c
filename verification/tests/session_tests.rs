use markdown::session::RenderSession;

#[test]
fn the_session_serves_its_own_main_source() {
    let s = RenderSession::with_date("$ x $".to_string(), 2024, 6, 1);
    assert_eq!(s.main_text(), "$ x $");
}

#[test]
fn a_fixed_date_is_answered_verbatim() {
    let s = RenderSession::with_date(String::new(), 1999, 12, 31);
    assert_eq!(s.today(), (1999, 12, 31));
}

#[test]
fn a_fresh_session_carries_a_calendar_date() {
    let s = RenderSession::new("body".to_string());
    let (_, month, day) = s.today();
    assert!((1..=12).contains(&month));
    assert!((1..=31).contains(&day));
    assert_eq!(s.main_text(), "body");
}
