use vstd::prelude::*;

use crate::numeric::{all_digits, int_value, lemma_int_value_append_grows, lemma_int_value_nonneg};
use crate::textutil::{push_range, str_chars};

verus! {

/// An inclusive range of line numbers named in a fence annotation.
#[derive(Debug, Clone, Copy, PartialEq, Eq, Structural)]
pub struct LineRange {
    pub from: usize,
    pub to: usize,
}

/// The index of the first occurrence of `c` in `s` at or after `p`, if any.
pub open spec fn first_char(s: Seq<char>, p: int, c: char) -> Option<int>
    decreases s.len() - p,
    when 0 <= p
{
    if p >= s.len() {
        None
    } else if s[p] == c {
        Some(p)
    } else {
        first_char(s, p + 1, c)
    }
}

/// `s` from position `p` on, split at every occurrence of `c`.
pub open spec fn split_from(s: Seq<char>, p: int, c: char) -> Seq<Seq<char>>
    decreases s.len() - p,
    when 0 <= p <= s.len()
{
    match first_char(s, p, c) {
        Some(i) => if p <= i < s.len() {
            seq![s.subrange(p, i)] + split_from(s, i + 1, c)
        } else {
            Seq::empty()
        },
        None => seq![s.subrange(p, s.len() as int)],
    }
}

pub open spec fn is_space(c: char) -> bool {
    c == ' ' || c == '\t' || c == '\n' || c == '\r'
}

/// `s` without leading whitespace.
pub open spec fn trim_start(s: Seq<char>) -> Seq<char>
    decreases s.len(),
{
    if s.len() > 0 && is_space(s[0]) {
        trim_start(s.skip(1))
    } else {
        s
    }
}

/// `s` without trailing whitespace.
pub open spec fn trim_end(s: Seq<char>) -> Seq<char>
    decreases s.len(),
{
    if s.len() > 0 && is_space(s.last()) {
        trim_end(s.drop_last())
    } else {
        s
    }
}

/// `s` without surrounding whitespace.
pub open spec fn trimmed(s: Seq<char>) -> Seq<char> {
    trim_end(trim_start(s))
}

/// What a whole-number token denotes, if it is one the settings accept.
pub open spec fn parse_usize_spec(s: Seq<char>) -> Option<int> {
    if all_digits(s) && s.len() >= 1 && int_value(s) <= usize::MAX {
        Some(int_value(s))
    } else {
        None
    }
}

/// What a line-range token denotes: either a single line or two line
/// numbers around a dash, reordered so the lower bound comes first.
pub open spec fn parse_range_spec(s: Seq<char>) -> Option<(int, int)> {
    match first_char(s, 0, '-') {
        Some(d) => {
            let left = s.take(d);
            let right = s.skip(d + 1);
            match (parse_usize_spec(left), parse_usize_spec(right)) {
                (Some(a), Some(b)) => if b < a {
                    Some((b, a))
                } else {
                    Some((a, b))
                },
                _ => None,
            }
        },
        None => match parse_usize_spec(s) {
            Some(v) => Some((v, v)),
            None => None,
        },
    }
}

/// The well-formed ranges among space-separated tokens; malformed ones are
/// dropped.
pub open spec fn ranges_of(toks: Seq<Seq<char>>) -> Seq<(int, int)>
    decreases toks.len(),
{
    if toks.len() == 0 {
        Seq::empty()
    } else {
        match parse_range_spec(toks[0]) {
            Some(r) => seq![r] + ranges_of(toks.skip(1)),
            None => ranges_of(toks.skip(1)),
        }
    }
}

pub open spec fn parse_ranges_spec(v: Seq<char>) -> Seq<(int, int)> {
    ranges_of(split_from(v, 0, ' '))
}

/// One annotation from a fence line, in its mathematical form.
pub enum FenceTokenData {
    Language(Seq<char>),
    EnableLineNumbers,
    InitialLineNumber(int),
    HighlightLines(Seq<(int, int)>),
    HideLines(Seq<(int, int)>),
    Name(Seq<char>),
    EnableCopy,
}

/// The value carried by an annotation: the text between the first equals
/// sign and the second (or the end).
pub open spec fn annot_value(t: Seq<char>, i: int) -> Seq<char> {
    let after = t.skip(i + 1);
    match first_char(after, 0, '=') {
        Some(j) => after.take(j),
        None => after,
    }
}

/// What one comma-separated fence token means, if anything: the token is
/// trimmed, its key is the trimmed text before the first equals sign, and
/// known keys select a setting.  An unknown key with a value is ignored; an
/// unknown key without one names the language.
pub open spec fn token_data(tok: Seq<char>) -> Option<FenceTokenData> {
    let t = trimmed(tok);
    let (key, val) = (match first_char(t, 0, '=') {
        Some(i) => (trimmed(t.take(i)), Some(annot_value(t, i))),
        None => (t, None),
    });
    if key.len() == 0 {
        None
    } else if key == "linenostart"@ {
        match val {
            Some(v) => match parse_usize_spec(v) {
                Some(n) => Some(FenceTokenData::InitialLineNumber(n)),
                None => None,
            },
            None => None,
        }
    } else if key == "linenos"@ {
        Some(FenceTokenData::EnableLineNumbers)
    } else if key == "hl_lines"@ {
        Some(
            FenceTokenData::HighlightLines(
                parse_ranges_spec(
                    match val {
                        Some(v) => v,
                        None => Seq::empty(),
                    },
                ),
            ),
        )
    } else if key == "hide_lines"@ {
        Some(
            FenceTokenData::HideLines(
                parse_ranges_spec(
                    match val {
                        Some(v) => v,
                        None => Seq::empty(),
                    },
                ),
            ),
        )
    } else if key == "name"@ {
        match val {
            Some(v) => Some(FenceTokenData::Name(v)),
            None => None,
        }
    } else if key == "copy"@ {
        Some(FenceTokenData::EnableCopy)
    } else {
        match val {
            Some(_) => None,
            None => Some(FenceTokenData::Language(key)),
        }
    }
}

/// The meaningful annotations among a token list, in order.
pub open spec fn scan_tokens(toks: Seq<Seq<char>>) -> Seq<FenceTokenData>
    decreases toks.len(),
{
    if toks.len() == 0 {
        Seq::empty()
    } else {
        match token_data(toks[0]) {
            Some(t) => seq![t] + scan_tokens(toks.skip(1)),
            None => scan_tokens(toks.skip(1)),
        }
    }
}

/// Every annotation a fence info line carries, in order.
pub open spec fn fence_tokens(s: Seq<char>) -> Seq<FenceTokenData> {
    scan_tokens(split_from(s, 0, ','))
}

/// One annotation, in executable form.
#[derive(Debug, Clone, PartialEq, Eq)]
pub enum FenceToken {
    Language(String),
    EnableLineNumbers,
    InitialLineNumber(usize),
    HighlightLines(Vec<LineRange>),
    HideLines(Vec<LineRange>),
    Name(String),
    EnableCopy,
}

pub open spec fn ranges_data(rs: Seq<LineRange>) -> Seq<(int, int)> {
    rs.map(|i: int, r: LineRange| (r.from as int, r.to as int))
}

impl FenceToken {
    pub open spec fn data(&self) -> FenceTokenData {
        match self {
            FenceToken::Language(l) => FenceTokenData::Language(l@),
            FenceToken::EnableLineNumbers => FenceTokenData::EnableLineNumbers,
            FenceToken::InitialLineNumber(n) => FenceTokenData::InitialLineNumber(*n as int),
            FenceToken::HighlightLines(rs) => FenceTokenData::HighlightLines(ranges_data(rs@)),
            FenceToken::HideLines(rs) => FenceTokenData::HideLines(ranges_data(rs@)),
            FenceToken::Name(n) => FenceTokenData::Name(n@),
            FenceToken::EnableCopy => FenceTokenData::EnableCopy,
        }
    }
}

/// Parses a whole number, exactly when it fits the machine word.
pub fn parse_usize_win(s: &Vec<char>, from: usize, to: usize) -> (r: Option<usize>)
    requires
        from <= to <= s@.len(),
    ensures
        match r {
            Some(v) => parse_usize_spec(s@.subrange(from as int, to as int)) == Some(v as int),
            None => parse_usize_spec(s@.subrange(from as int, to as int)) is None,
        },
{
    let ghost tok = s@.subrange(from as int, to as int);
    if to == from {
        return None;
    }
    let mut acc: usize = 0;
    let mut sat: bool = false;
    let mut i: usize = from;
    while i < to
        invariant
            from <= i <= to <= s@.len(),
            tok == s@.subrange(from as int, to as int),
            all_digits(s@.subrange(from as int, i as int)),
            !sat ==> acc == int_value(s@.subrange(from as int, i as int)),
            sat ==> int_value(s@.subrange(from as int, i as int)) > usize::MAX,
        decreases to - i,
    {
        let c = s[i];
        if !('0' <= c && c <= '9') {
            proof {
                assert(tok[i - from] == s@[i as int]);
            }
            return None;
        }
        let d = (c as u32 - 48) as usize;
        let ghost pre = s@.subrange(from as int, i as int);
        proof {
            assert(s@.subrange(from as int, i as int + 1) =~= pre.push(c));
            lemma_int_value_append_grows(pre, c);
            lemma_int_value_nonneg(pre);
        }
        if sat {
        } else {
            let lim = (usize::MAX - d) / 10;
            if acc > lim {
                sat = true;
                proof {
                    assert(acc * 10 + d > usize::MAX) by (nonlinear_arith)
                        requires
                            acc > (usize::MAX - d) / 10,
                            0 <= d <= 9,
                    ;
                }
            } else {
                proof {
                    assert(acc * 10 + d <= usize::MAX) by (nonlinear_arith)
                        requires
                            acc <= (usize::MAX - d) / 10,
                            0 <= acc,
                            0 <= d <= 9,
                    ;
                }
                acc = acc * 10 + d;
            }
        }
        i += 1;
    }
    if sat {
        None
    } else {
        Some(acc)
    }
}

/// Parses one range token, reordering a reversed pair.
pub fn parse_range(s: &str) -> (r: Option<LineRange>)
    ensures
        match r {
            Some(lr) => parse_range_spec(s@) == Some((lr.from as int, lr.to as int)),
            None => parse_range_spec(s@) is None,
        },
{
    let cs = str_chars(s);
    let n = cs.len();
    let mut i: usize = 0;
    while i < n && cs[i] != '-'
        invariant
            0 <= i <= n,
            n == cs@.len(),
            first_char(cs@, 0, '-') == first_char(cs@, i as int, '-'),
        decreases n - i,
    {
        i += 1;
    }
    if i == n {
        proof {
            assert(cs@.subrange(0, n as int) =~= s@);
        }
        match parse_usize_win(&cs, 0, n) {
            Some(v) => Some(LineRange { from: v, to: v }),
            None => None,
        }
    } else {
        proof {
            assert(cs@.subrange(0, i as int) =~= s@.take(i as int));
            assert(cs@.subrange(i as int + 1, n as int) =~= s@.skip(i as int + 1));
        }
        let left = parse_usize_win(&cs, 0, i);
        let right = parse_usize_win(&cs, i + 1, n);
        match (left, right) {
            (Some(a), Some(b)) => if b < a {
                Some(LineRange { from: b, to: a })
            } else {
                Some(LineRange { from: a, to: b })
            },
            _ => None,
        }
    }
}

/// Splits at every occurrence of `c`, keeping empty pieces.
fn split_on(s: &Vec<char>, c: char) -> (r: Vec<Vec<char>>)
    ensures
        r.deep_view() == split_from(s@, 0, c),
{
    let n = s.len();
    let mut out: Vec<Vec<char>> = Vec::new();
    let mut start: usize = 0;
    loop
        invariant
            0 <= start <= n,
            n == s@.len(),
            split_from(s@, 0, c) == out.deep_view() + split_from(s@, start as int, c),
        decreases n - start,
    {
        let mut i = start;
        while i < n && s[i] != c
            invariant
                start <= i <= n,
                n == s@.len(),
                first_char(s@, start as int, c) == first_char(s@, i as int, c),
            decreases n - i,
        {
            i += 1;
        }
        let mut piece: Vec<char> = Vec::new();
        push_range(&mut piece, s, start, i);
        proof {
            assert(piece.deep_view() =~= piece@);
        }
        let ghost old_out = out.deep_view();
        out.push(piece);
        proof {
            assert(out.deep_view() =~= old_out.push(s@.subrange(start as int, i as int)));
        }
        if i == n {
            proof {
                assert(first_char(s@, start as int, c) is None);
                assert(split_from(s@, start as int, c) =~= seq![
                    s@.subrange(start as int, n as int),
                ]);
                assert(out.deep_view() =~= split_from(s@, 0, c));
            }
            return out;
        } else {
            proof {
                assert(first_char(s@, start as int, c) == Some(i as int));
                assert(old_out + split_from(s@, start as int, c) =~= out.deep_view() + split_from(
                    s@,
                    i as int + 1,
                    c,
                ));
            }
            start = i + 1;
        }
    }
}

/// Compares a window of characters against a fixed keyword.
fn window_eq_lit(v: &Vec<char>, from: usize, to: usize, lit: &str) -> (r: bool)
    requires
        from <= to <= v@.len(),
    ensures
        r == (v@.subrange(from as int, to as int) == lit@),
{
    let ghost win = v@.subrange(from as int, to as int);
    let lc = str_chars(lit);
    if to - from != lc.len() {
        proof {
            assert(win.len() != lit@.len());
        }
        return false;
    }
    let m = lc.len();
    let mut k: usize = 0;
    while k < m
        invariant
            k <= m,
            m == lc@.len(),
            lc@ == lit@,
            from + m <= to <= v@.len(),
            to - from == m,
            win == v@.subrange(from as int, to as int),
            forall|q: int| 0 <= q < k ==> win[q] == lit@[q],
        decreases m - k,
    {
        if v[from + k] != lc[k] {
            proof {
                assert(win[k as int] == v@[from + k]);
            }
            return false;
        }
        proof {
            assert(win[k as int] == v@[from + k]);
        }
        k += 1;
    }
    proof {
        assert(win =~= lit@);
    }
    true
}

/// The window of `v` that remains after trimming whitespace from `from..to`.
fn trim_window(v: &Vec<char>, from: usize, to: usize) -> (r: (usize, usize))
    requires
        from <= to <= v@.len(),
    ensures
        from <= r.0 <= r.1 <= to,
        v@.subrange(r.0 as int, r.1 as int) == trimmed(v@.subrange(from as int, to as int)),
{
    let ghost tok = v@.subrange(from as int, to as int);
    let mut a = from;
    while a < to && (v[a] == ' ' || v[a] == '\t' || v[a] == '\n' || v[a] == '\r')
        invariant
            from <= a <= to <= v@.len(),
            trim_start(v@.subrange(from as int, to as int)) == trim_start(
                v@.subrange(a as int, to as int),
            ),
        decreases to - a,
    {
        proof {
            assert(v@.subrange(a as int, to as int).skip(1) =~= v@.subrange(
                a as int + 1,
                to as int,
            ));
        }
        a += 1;
    }
    proof {
        assert(trim_start(v@.subrange(a as int, to as int)) =~= v@.subrange(a as int, to as int));
    }
    let mut b = to;
    while b > a && (v[b - 1] == ' ' || v[b - 1] == '\t' || v[b - 1] == '\n' || v[b - 1] == '\r')
        invariant
            a <= b <= to <= v@.len(),
            trim_end(v@.subrange(a as int, to as int)) == trim_end(v@.subrange(a as int, b as int)),
        decreases b - a,
    {
        proof {
            assert(v@.subrange(a as int, b as int).drop_last() =~= v@.subrange(
                a as int,
                b as int - 1,
            ));
        }
        b -= 1;
    }
    proof {
        assert(trim_end(v@.subrange(a as int, b as int)) =~= v@.subrange(a as int, b as int));
    }
    (a, b)
}


fn parse_range_win(piece: &Vec<char>) -> (r: Option<LineRange>)
    ensures
        match r {
            Some(lr) => parse_range_spec(piece@) == Some((lr.from as int, lr.to as int)),
            None => parse_range_spec(piece@) is None,
        },
{
    let n = piece.len();
    let mut i: usize = 0;
    while i < n && piece[i] != '-'
        invariant
            0 <= i <= n,
            n == piece@.len(),
            first_char(piece@, 0, '-') == first_char(piece@, i as int, '-'),
        decreases n - i,
    {
        i += 1;
    }
    if i == n {
        proof {
            assert(piece@.subrange(0, n as int) =~= piece@);
        }
        match parse_usize_win(piece, 0, n) {
            Some(v) => Some(LineRange { from: v, to: v }),
            None => None,
        }
    } else {
        proof {
            assert(piece@.subrange(0, i as int) =~= piece@.take(i as int));
            assert(piece@.subrange(i as int + 1, n as int) =~= piece@.skip(i as int + 1));
        }
        let left = parse_usize_win(piece, 0, i);
        let right = parse_usize_win(piece, i + 1, n);
        match (left, right) {
            (Some(a), Some(b)) => if b < a {
                Some(LineRange { from: b, to: a })
            } else {
                Some(LineRange { from: a, to: b })
            },
            _ => None,
        }
    }
}

fn parse_ranges_chars(v: &Vec<char>) -> (r: Vec<LineRange>)
    ensures
        ranges_data(r@) == parse_ranges_spec(v@),
{
    let pieces = split_on(v, ' ');
    let n = pieces.len();
    let mut out: Vec<LineRange> = Vec::new();
    proof {
        assert(pieces.deep_view().skip(0) =~= pieces.deep_view());
        assert(ranges_data(out@) =~= Seq::<(int, int)>::empty());
    }
    let mut k: usize = 0;
    while k < n
        invariant
            k <= n,
            n == pieces@.len(),
            pieces.deep_view() == split_from(v@, 0, ' '),
            pieces.deep_view().len() == n,
            parse_ranges_spec(v@) == ranges_data(out@) + ranges_of(
                pieces.deep_view().skip(k as int),
            ),
        decreases n - k,
    {
        let ghost rem = pieces.deep_view().skip(k as int);
        proof {
            assert(rem[0] == pieces.deep_view()[k as int]);
            assert(pieces.deep_view()[k as int] =~= pieces@[k as int]@);
            assert(rem.skip(1) =~= pieces.deep_view().skip(k as int + 1));
        }
        match parse_range_win(&pieces[k]) {
            Some(lr) => {
                let ghost pre = ranges_data(out@);
                out.push(lr);
                proof {
                    assert(ranges_data(out@) =~= pre.push((lr.from as int, lr.to as int)));
                    assert(pre.push((lr.from as int, lr.to as int)) + ranges_of(rem.skip(1)) =~= pre
                        + (seq![(lr.from as int, lr.to as int)] + ranges_of(rem.skip(1))));
                }
            },
            None => {},
        }
        k += 1;
    }
    proof {
        assert(pieces.deep_view().skip(n as int) =~= Seq::<Seq<char>>::empty());
        assert(ranges_data(out@) + Seq::<(int, int)>::empty() =~= ranges_data(out@));
    }
    out
}

fn token_data_exec(tok: &Vec<char>) -> (r: Option<FenceToken>)
    ensures
        match r {
            Some(t) => token_data(tok@) == Some(t.data()),
            None => token_data(tok@) is None,
        },
{
    let n = tok.len();
    let (a, b) = trim_window(tok, 0, n);
    proof {
        assert(tok@.subrange(0, n as int) =~= tok@);
    }
    let ghost t = trimmed(tok@);
    // locate the first equals sign inside the trimmed window
    let mut i = a;
    while i < b && tok[i] != '='
        invariant
            a <= i <= b <= tok@.len(),
            t == tok@.subrange(a as int, b as int),
            first_char(t, 0, '=') == first_char(t, i - a, '='),
        decreases b - i,
    {
        proof {
            assert(t[i - a] == tok@[i as int]);
        }
        i += 1;
    }
    let has_eq = i < b;
    let ghost rel = i - a;
    let (kc, kd): (usize, usize) = if has_eq {
        proof {
            assert(t[rel] == tok@[i as int]);
            assert(first_char(t, 0, '=') == Some(rel));
        }
        let w = trim_window(tok, a, i);
        proof {
            assert(tok@.subrange(a as int, i as int) =~= t.take(rel));
        }
        w
    } else {
        proof {
            assert(first_char(t, 0, '=') is None);
        }
        (a, b)
    };
    // the value runs from after the first equals sign to the second or the end
    let mut ve = b;
    if has_eq {
        let mut j = i + 1;
        while j < b && tok[j] != '='
            invariant
                i < j <= b <= tok@.len(),
                a <= i < b,
                t == tok@.subrange(a as int, b as int),
                rel == i - a,
                first_char(t.skip(rel + 1), 0, '=') == first_char(t.skip(rel + 1), j - i - 1, '='),
            decreases b - j,
        {
            proof {
                assert(t.skip(rel + 1)[j - i - 1] == tok@[j as int]);
            }
            j += 1;
        }
        ve = j;
        proof {
            let after = t.skip(rel + 1);
            if j < b {
                assert(after[j - i - 1] == tok@[j as int]);
                assert(first_char(after, 0, '=') == Some(j - i - 1));
                assert(after.take(j - i - 1) =~= tok@.subrange(i as int + 1, j as int));
            } else {
                assert(first_char(after, 0, '=') is None);
                assert(after =~= tok@.subrange(i as int + 1, b as int));
            }
            assert(annot_value(t, rel) =~= tok@.subrange(i as int + 1, ve as int));
        }
    }
    let ghost key = (match first_char(t, 0, '=') {
        Some(ii) => trimmed(t.take(ii)),
        None => t,
    });
    proof {
        assert(key =~= tok@.subrange(kc as int, kd as int));
    }
    if kd == kc {
        return None;
    }
    if window_eq_lit(tok, kc, kd, "linenostart") {
        if has_eq {
            match parse_usize_win(tok, i + 1, ve) {
                Some(v) => Some(FenceToken::InitialLineNumber(v)),
                None => None,
            }
        } else {
            None
        }
    } else if window_eq_lit(tok, kc, kd, "linenos") {
        Some(FenceToken::EnableLineNumbers)
    } else if window_eq_lit(tok, kc, kd, "hl_lines") {
        let mut val: Vec<char> = Vec::new();
        if has_eq {
            push_range(&mut val, tok, i + 1, ve);
        }
        let rs = parse_ranges_chars(&val);
        Some(FenceToken::HighlightLines(rs))
    } else if window_eq_lit(tok, kc, kd, "hide_lines") {
        let mut val: Vec<char> = Vec::new();
        if has_eq {
            push_range(&mut val, tok, i + 1, ve);
        }
        let rs = parse_ranges_chars(&val);
        Some(FenceToken::HideLines(rs))
    } else if window_eq_lit(tok, kc, kd, "name") {
        if has_eq {
            let mut val: Vec<char> = Vec::new();
            push_range(&mut val, tok, i + 1, ve);
            Some(FenceToken::Name(crate::textutil::chars_to_string(&val)))
        } else {
            None
        }
    } else if window_eq_lit(tok, kc, kd, "copy") {
        Some(FenceToken::EnableCopy)
    } else {
        if has_eq {
            None
        } else {
            let mut kv: Vec<char> = Vec::new();
            push_range(&mut kv, tok, kc, kd);
            Some(FenceToken::Language(crate::textutil::chars_to_string(&kv)))
        }
    }
}

/// Walks the comma-separated annotations of one fence info line.
pub struct FenceIter {
    tokens: Vec<Vec<char>>,
    pos: usize,
}

impl FenceIter {
    pub closed spec fn wf(&self) -> bool {
        self.pos <= self.tokens@.len()
    }

    /// The annotations not yet handed out.
    pub closed spec fn remaining_tokens(&self) -> Seq<FenceTokenData> {
        scan_tokens(self.tokens.deep_view().skip(self.pos as int))
    }

    pub fn new(fence_info: &str) -> (it: FenceIter)
        ensures
            it.wf(),
            it.remaining_tokens() == fence_tokens(fence_info@),
    {
        let cs = str_chars(fence_info);
        let tokens = split_on(&cs, ',');
        let it = FenceIter { tokens, pos: 0 };
        proof {
            assert(it.tokens.deep_view().skip(0) =~= it.tokens.deep_view());
        }
        it
    }

    /// The well-formed ranges among the space-separated pieces of a value.
    pub fn parse_ranges(token: Option<&str>) -> (r: Vec<LineRange>)
        ensures
            ranges_data(r@) == parse_ranges_spec(crate::templates::opt_text(token)),
    {
        let s = match token {
            Some(s) => s,
            None => "",
        };
        let cs = str_chars(s);
        proof {
            reveal_strlit("");
            assert(cs@ =~= crate::templates::opt_text(token));
        }
        parse_ranges_chars(&cs)
    }

    /// The next meaningful annotation, skipping malformed or unknown ones.
    pub fn next(&mut self) -> (r: Option<FenceToken>)
        requires
            old(self).wf(),
        ensures
            final(self).wf(),
            match r {
                Some(t) => old(self).remaining_tokens() == seq![t.data()]
                    + final(self).remaining_tokens(),
                None => old(self).remaining_tokens() == Seq::<FenceTokenData>::empty()
                    && final(self).remaining_tokens() == Seq::<FenceTokenData>::empty(),
            },
    {
        loop
            invariant
                self.wf(),
                self.tokens == old(self).tokens,
                old(self).pos <= self.pos,
                scan_tokens(self.tokens.deep_view().skip(old(self).pos as int)) == scan_tokens(
                    self.tokens.deep_view().skip(self.pos as int),
                ),
            decreases self.tokens@.len() - self.pos,
        {
            if self.pos >= self.tokens.len() {
                proof {
                    assert(self.tokens.deep_view().skip(self.pos as int) =~= Seq::<
                        Seq<char>,
                    >::empty());
                }
                return None;
            }
            let idx = self.pos;
            let ghost rem = self.tokens.deep_view().skip(idx as int);
            proof {
                assert(rem[0] == self.tokens.deep_view()[idx as int]);
                assert(self.tokens.deep_view()[idx as int] =~= self.tokens@[idx as int]@);
                assert(rem.skip(1) =~= self.tokens.deep_view().skip(idx as int + 1));
            }
            let t = token_data_exec(&self.tokens[idx]);
            self.pos = idx + 1;
            match t {
                Some(tk) => {
                    return Some(tk);
                },
                None => {},
            }
        }
    }
}

/// Everything a fence info line configures, in its mathematical form.
#[verifier::ext_equal]
pub struct FenceSettingsData {
    pub language: Option<Seq<char>>,
    pub line_numbers: bool,
    pub line_number_start: int,
    pub highlight_lines: Seq<(int, int)>,
    pub hide_lines: Seq<(int, int)>,
    pub name: Option<Seq<char>>,
    pub enable_copy: bool,
}

/// The settings before any annotation applies: plain rendering, lines
/// numbered from one.
pub open spec fn initial_settings() -> FenceSettingsData {
    FenceSettingsData {
        language: None,
        line_numbers: false,
        line_number_start: 1,
        highlight_lines: Seq::empty(),
        hide_lines: Seq::empty(),
        name: None,
        enable_copy: false,
    }
}

/// How one annotation changes the settings: single-valued settings are
/// replaced, line ranges accumulate.
pub open spec fn apply_token(st: FenceSettingsData, t: FenceTokenData) -> FenceSettingsData {
    match t {
        FenceTokenData::Language(l) => FenceSettingsData { language: Some(l), ..st },
        FenceTokenData::EnableLineNumbers => FenceSettingsData { line_numbers: true, ..st },
        FenceTokenData::InitialLineNumber(n) => FenceSettingsData { line_number_start: n, ..st },
        FenceTokenData::HighlightLines(rs) => FenceSettingsData {
            highlight_lines: st.highlight_lines + rs,
            ..st
        },
        FenceTokenData::HideLines(rs) => FenceSettingsData { hide_lines: st.hide_lines + rs, ..st },
        FenceTokenData::Name(nm) => FenceSettingsData { name: Some(nm), ..st },
        FenceTokenData::EnableCopy => FenceSettingsData { enable_copy: true, ..st },
    }
}

pub open spec fn fold_tokens(st: FenceSettingsData, ts: Seq<FenceTokenData>) -> FenceSettingsData
    decreases ts.len(),
{
    if ts.len() == 0 {
        st
    } else {
        fold_tokens(apply_token(st, ts[0]), ts.skip(1))
    }
}

/// Everything a fence info line configures.
#[derive(Debug)]
pub struct FenceSettings {
    pub language: Option<String>,
    pub line_numbers: bool,
    pub line_number_start: usize,
    pub highlight_lines: Vec<LineRange>,
    pub hide_lines: Vec<LineRange>,
    pub name: Option<String>,
    pub enable_copy: bool,
}

impl FenceSettings {
    pub open spec fn data(&self) -> FenceSettingsData {
        FenceSettingsData {
            language: match self.language {
                Some(l) => Some(l@),
                None => None,
            },
            line_numbers: self.line_numbers,
            line_number_start: self.line_number_start as int,
            highlight_lines: ranges_data(self.highlight_lines@),
            hide_lines: ranges_data(self.hide_lines@),
            name: match self.name {
                Some(nm) => Some(nm@),
                None => None,
            },
            enable_copy: self.enable_copy,
        }
    }

    /// Reads every annotation of a fence info line, in order, into the
    /// settings it selects.
    pub fn new(fence_info: &str) -> (r: FenceSettings)
        ensures
            r.data() == fold_tokens(initial_settings(), fence_tokens(fence_info@)),
    {
        let mut me = FenceSettings {
            language: None,
            line_numbers: false,
            line_number_start: 1,
            highlight_lines: Vec::new(),
            hide_lines: Vec::new(),
            name: None,
            enable_copy: false,
        };
        proof {
            assert(me.data() =~= initial_settings());
        }
        let mut it = FenceIter::new(fence_info);
        loop
            invariant
                it.wf(),
                fold_tokens(initial_settings(), fence_tokens(fence_info@)) == fold_tokens(
                    me.data(),
                    it.remaining_tokens(),
                ),
            decreases it.remaining_tokens().len(),
        {
            let ghost pre = me.data();
            let ghost toks = it.remaining_tokens();
            match it.next() {
                Some(tok) => {
                    let ghost td = tok.data();
                    proof {
                        assert(toks[0] == td);
                        assert(toks.skip(1) =~= it.remaining_tokens());
                    }
                    match tok {
                        FenceToken::Language(l) => {
                            me.language = Some(l);
                        },
                        FenceToken::EnableLineNumbers => {
                            me.line_numbers = true;
                        },
                        FenceToken::InitialLineNumber(n) => {
                            me.line_number_start = n;
                        },
                        FenceToken::HighlightLines(mut rs) => {
                            let ghost hpre = ranges_data(me.highlight_lines@);
                            let ghost radd = ranges_data(rs@);
                            me.highlight_lines.append(&mut rs);
                            proof {
                                assert(ranges_data(me.highlight_lines@) =~= hpre + radd);
                            }
                        },
                        FenceToken::HideLines(mut rs) => {
                            let ghost hpre = ranges_data(me.hide_lines@);
                            let ghost radd = ranges_data(rs@);
                            me.hide_lines.append(&mut rs);
                            proof {
                                assert(ranges_data(me.hide_lines@) =~= hpre + radd);
                            }
                        },
                        FenceToken::Name(nm) => {
                            me.name = Some(nm);
                        },
                        FenceToken::EnableCopy => {
                            me.enable_copy = true;
                        },
                    }
                    proof {
                        assert(me.data() =~= apply_token(pre, td));
                    }
                },
                None => {
                    return me;
                },
            }
        }
    }
}

} // verus!
