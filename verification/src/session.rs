use vstd::prelude::*;

verus! {

/// Relies on time::OffsetDateTime: the current local calendar date, or the
/// UTC date where no local offset can be determined.  The result depends on
/// the wall clock; only the calendar ranges hold of every outcome.
#[verifier::external_body]
fn now_date() -> (r: (i32, u8, u8))
    ensures
        1 <= r.1 <= 12,
        1 <= r.2 <= 31,
{
    let t = time::OffsetDateTime::now_local().unwrap_or_else(|_| time::OffsetDateTime::now_utc());
    let d = t.date();
    (d.year(), u8::from(d.month()), d.day())
}

/// A short-lived view over one compile: the injected main source and the
/// date captured when the session began.  The main source never enters the
/// shared file table, so synthetic per-render documents cannot pollute it.
pub struct RenderSession {
    main_source: String,
    year: i32,
    month: u8,
    day: u8,
}

impl RenderSession {
    pub closed spec fn source_text(&self) -> Seq<char> {
        self.main_source@
    }

    pub closed spec fn date(&self) -> (int, int, int) {
        (self.year as int, self.month as int, self.day as int)
    }

    /// A calendar date the session can answer "today" with.
    pub closed spec fn wf(&self) -> bool {
        1 <= self.month <= 12 && 1 <= self.day <= 31
    }

    /// Begins a session over one source body, stamped with the current date.
    pub fn new(main_source: String) -> (s: RenderSession)
        ensures
            s.wf(),
            s.source_text() == main_source@,
    {
        let (year, month, day) = now_date();
        RenderSession { main_source, year, month, day }
    }

    /// Begins a session with an explicitly chosen date.
    pub fn with_date(main_source: String, year: i32, month: u8, day: u8) -> (s: RenderSession)
        requires
            1 <= month <= 12,
            1 <= day <= 31,
        ensures
            s.wf(),
            s.source_text() == main_source@,
            s.date() == (year as int, month as int, day as int),
    {
        RenderSession { main_source, year, month, day }
    }

    /// The injected main source, served from the session itself.
    pub fn main_text(&self) -> (r: &String)
        ensures
            r@ == self.source_text(),
    {
        &self.main_source
    }

    /// The session's notion of "today".
    pub fn today(&self) -> (r: (i32, u8, u8))
        requires
            self.wf(),
        ensures
            (r.0 as int, r.1 as int, r.2 as int) == self.date(),
            1 <= r.1 <= 12,
            1 <= r.2 <= 31,
    {
        (self.year, self.month, self.day)
    }
}

} // verus!
