use vstd::prelude::*;

verus! {

/// Dimensions are held as integers in units of 1/10000 of a typographic
/// point, so that attribute arithmetic is exact.
pub const UNITS_PER_PT: i64 = 10000;

/// Largest integral part (in points) a parsed dimension keeps; longer
/// attribute values saturate here instead of overflowing.
pub const MAX_INT_PT: i64 = 100000000000;

pub open spec fn is_digit(c: char) -> bool {
    '0' <= c && c <= '9'
}

pub open spec fn digit_val(c: char) -> int {
    c as int - '0' as int
}

pub open spec fn digit_char(d: int) -> char {
    ((48 + d) as u8) as char
}

/// The number denoted by a digit string, most significant digit first.
pub open spec fn int_value(s: Seq<char>) -> int
    decreases s.len(),
{
    if s.len() == 0 {
        0
    } else {
        int_value(s.drop_last()) * 10 + digit_val(s.last())
    }
}

pub open spec fn all_digits(s: Seq<char>) -> bool {
    forall|i: int| 0 <= i < s.len() ==> is_digit(#[trigger] s[i])
}

pub(crate) proof fn lemma_int_value_nonneg(s: Seq<char>)
    requires
        all_digits(s),
    ensures
        int_value(s) >= 0,
    decreases s.len(),
{
    if s.len() > 0 {
        assert(all_digits(s.drop_last()));
        lemma_int_value_nonneg(s.drop_last());
        assert(int_value(s.drop_last()) * 10 >= 0) by (nonlinear_arith)
            requires
                int_value(s.drop_last()) >= 0,
        ;
    }
}

pub(crate) proof fn lemma_int_value_append_grows(s: Seq<char>, c: char)
    requires
        all_digits(s),
        is_digit(c),
    ensures
        int_value(s.push(c)) >= int_value(s),
        int_value(s.push(c)) == int_value(s) * 10 + digit_val(c),
{
    assert(s.push(c).drop_last() =~= s);
    lemma_int_value_nonneg(s);
    assert(int_value(s) * 10 >= int_value(s)) by (nonlinear_arith)
        requires
            int_value(s) >= 0,
    ;
}

/// The integral part of a parsed dimension, saturated at `MAX_INT_PT`.
pub open spec fn clamped_int_value(s: Seq<char>) -> int {
    if int_value(s) > MAX_INT_PT {
        MAX_INT_PT as int
    } else {
        int_value(s)
    }
}

/// The value, in 1/10000 pt, contributed by the digits after the decimal
/// point: only the first four count.
pub open spec fn frac_value(s: Seq<char>) -> int {
    if s.len() >= 4 {
        int_value(s.take(4))
    } else if s.len() == 3 {
        int_value(s) * 10
    } else if s.len() == 2 {
        int_value(s) * 100
    } else if s.len() == 1 {
        int_value(s) * 1000
    } else {
        0
    }
}

/// What a decimal dimension token denotes, in 1/10000 pt: digits with at
/// most one dot and at least one digit in all; anything else is malformed.
pub open spec fn decimal_value(s: Seq<char>) -> Option<int> {
    if exists|i: int| 0 <= i < s.len() && s[i] == '.' {
        let dot = choose|i: int| 0 <= i < s.len() && s[i] == '.' && (forall|j: int|
            0 <= j < i ==> s[j] != '.');
        let left = s.take(dot);
        let right = s.skip(dot + 1);
        if all_digits(left) && all_digits(right) && left.len() + right.len() >= 1 {
            Some(clamped_int_value(left) * (UNITS_PER_PT as int) + frac_value(right))
        } else {
            None
        }
    } else {
        if all_digits(s) && s.len() >= 1 {
            Some(clamped_int_value(s) * (UNITS_PER_PT as int))
        } else {
            None
        }
    }
}

/// The digit characters of a non-negative number, most significant first.
pub open spec fn dec_digits(n: int) -> Seq<char>
    decreases n,
{
    if n <= 9 {
        seq![digit_char(if n < 0 { 0 } else { n })]
    } else {
        dec_digits(n / 10).push(digit_char(n % 10))
    }
}

/// The fractional digits of a value in 1/10000 pt, trailing zeros trimmed.
pub open spec fn frac_digits(frac: int) -> Seq<char> {
    let d1 = digit_char(frac / 1000 % 10);
    let d2 = digit_char(frac / 100 % 10);
    let d3 = digit_char(frac / 10 % 10);
    let d4 = digit_char(frac % 10);
    if frac % 10 != 0 {
        seq![d1, d2, d3, d4]
    } else if frac % 100 != 0 {
        seq![d1, d2, d3]
    } else if frac % 1000 != 0 {
        seq![d1, d2]
    } else {
        seq![d1]
    }
}

/// How a non-negative value in 1/10000 pt prints: the integral part in
/// decimal, then, unless zero, a dot and the trimmed fractional digits.
pub open spec fn decimal_chars(u: int) -> Seq<char> {
    if u % (UNITS_PER_PT as int) == 0 {
        dec_digits(u / (UNITS_PER_PT as int))
    } else {
        dec_digits(u / (UNITS_PER_PT as int)) + seq!['.'] + frac_digits(u % (UNITS_PER_PT as int))
    }
}

fn digit_char_exec(d: u64) -> (c: char)
    requires
        d <= 9,
    ensures
        c == digit_char(d as int),
{
    (48 + d as u8) as char
}

/// Appends the decimal digits of `n` to `out`.
pub fn push_dec_digits(out: &mut Vec<char>, n: u64)
    ensures
        final(out)@ == old(out)@ + dec_digits(n as int),
    decreases n,
{
    if n <= 9 {
        out.push(digit_char_exec(n));
    } else {
        push_dec_digits(out, n / 10);
        out.push(digit_char_exec(n % 10));
    }
    assert(out@ =~= old(out)@ + dec_digits(n as int));
}

/// Appends the decimal rendering of a non-negative value in 1/10000 pt.
pub fn push_decimal(out: &mut Vec<char>, u: u64)
    ensures
        final(out)@ == old(out)@ + decimal_chars(u as int),
{
    let whole = u / (UNITS_PER_PT as u64);
    let frac = u % (UNITS_PER_PT as u64);
    push_dec_digits(out, whole);
    if frac != 0 {
        out.push('.');
        let d1 = frac / 1000 % 10;
        let d2 = frac / 100 % 10;
        let d3 = frac / 10 % 10;
        let d4 = frac % 10;
        out.push(digit_char_exec(d1));
        if frac % 10 != 0 {
            out.push(digit_char_exec(d2));
            out.push(digit_char_exec(d3));
            out.push(digit_char_exec(d4));
        } else if frac % 100 != 0 {
            out.push(digit_char_exec(d2));
            out.push(digit_char_exec(d3));
        } else if frac % 1000 != 0 {
            out.push(digit_char_exec(d2));
        }
    }
    assert(out@ =~= old(out)@ + decimal_chars(u as int));
}

proof fn lemma_dot_choice(s: Seq<char>, d: int)
    requires
        0 <= d < s.len(),
        s[d] == '.',
        forall|j: int| 0 <= j < d ==> s[j] != '.',
    ensures
        exists|i: int| 0 <= i < s.len() && s[i] == '.',
        ({
            let dot = choose|i: int| 0 <= i < s.len() && s[i] == '.' && (forall|j: int|
                0 <= j < i ==> s[j] != '.');
            dot == d
        }),
{
    assert(exists|i: int|
        0 <= i < s.len() && s[i] == '.' && (forall|j: int| 0 <= j < i ==> s[j] != '.')) by {
        assert(0 <= d < s.len() && s[d] == '.' && (forall|j: int| 0 <= j < d ==> s[j] != '.'));
    }
    let dot = choose|i: int| 0 <= i < s.len() && s[i] == '.' && (forall|j: int|
        0 <= j < i ==> s[j] != '.');
    if dot < d {
        assert(s[dot] != '.');
        assert(false);
    }
    if d < dot {
        assert(s[d] != '.');
        assert(false);
    }
}

/// Parses the characters `from..to` of `s` as a decimal dimension.
#[verifier::rlimit(50)]
pub fn parse_decimal(s: &Vec<char>, from: usize, to: usize) -> (r: Option<i64>)
    requires
        from <= to <= s@.len(),
    ensures
        match r {
            Some(v) => {
                &&& decimal_value(s@.subrange(from as int, to as int)) == Some(v as int)
                &&& 0 <= v <= (MAX_INT_PT + 1) * UNITS_PER_PT
            },
            None => decimal_value(s@.subrange(from as int, to as int)) is None,
        },
{
    let ghost tok = s@.subrange(from as int, to as int);
    let mut i: usize = from;
    while i < to && s[i] != '.'
        invariant
            from <= i <= to <= s@.len(),
            forall|j: int| from <= j < i ==> s@[j] != '.',
        decreases to - i,
    {
        i += 1;
    }
    if i == to {
        // no dot anywhere in the token
        proof {
            assert(forall|j: int| 0 <= j < tok.len() ==> #[trigger] tok[j] == s@[from + j]);
        }
        if to == from {
            return None;
        }
        match parse_digit_run(s, from, to) {
            Some(v) => {
                proof {
                    assert(decimal_value(tok) == Some(
                        clamped_int_value(tok) * (UNITS_PER_PT as int),
                    ));
                }
                Some(v * UNITS_PER_PT)
            },
            None => None,
        }
    } else {
        let d = i;
        let ghost dot_rel = d - from;
        proof {
            assert(tok[dot_rel as int] == s@[d as int]);
            assert(forall|j: int| 0 <= j < dot_rel ==> #[trigger] tok[j] == s@[from + j]);
            lemma_dot_choice(tok, dot_rel as int);
            assert(tok.take(dot_rel as int) =~= s@.subrange(from as int, d as int));
            assert(tok.skip(dot_rel as int + 1) =~= s@.subrange(d as int + 1, to as int));
        }
        if d == from && d + 1 == to {
            // a lone dot has no digit at all
            return None;
        }
        let left: Option<i64> = if d == from {
            proof {
                assert(tok.take(0) =~= Seq::<char>::empty());
            }
            Some(0)
        } else {
            parse_digit_run(s, from, d)
        };
        let right = parse_frac_run(s, d + 1, to);
        match (left, right) {
            (Some(lv), Some(rv)) => Some(lv * UNITS_PER_PT + rv),
            _ => None,
        }
    }
}

/// Parses a pure digit run into its saturated integral value, in points.
fn parse_digit_run(s: &Vec<char>, from: usize, to: usize) -> (r: Option<i64>)
    requires
        from <= to <= s@.len(),
    ensures
        match r {
            Some(v) => {
                &&& all_digits(s@.subrange(from as int, to as int))
                &&& v == clamped_int_value(s@.subrange(from as int, to as int))
                &&& 0 <= v <= MAX_INT_PT
            },
            None => !all_digits(s@.subrange(from as int, to as int)) || to == from,
        },
{
    if to == from {
        return None;
    }
    let ghost tok = s@.subrange(from as int, to as int);
    let mut acc: i64 = 0;
    let mut sat: bool = false;
    let mut i: usize = from;
    while i < to
        invariant
            from <= i <= to <= s@.len(),
            tok == s@.subrange(from as int, to as int),
            all_digits(s@.subrange(from as int, i as int)),
            !sat ==> 0 <= acc <= MAX_INT_PT && acc == int_value(s@.subrange(from as int, i as int)),
            sat ==> int_value(s@.subrange(from as int, i as int)) > MAX_INT_PT,
        decreases to - i,
    {
        let c = s[i];
        if !('0' <= c && c <= '9') {
            proof {
                assert(tok[i - from] == s@[i as int]);
            }
            return None;
        }
        let d = (c as u32 - 48) as i64;
        let ghost pre = s@.subrange(from as int, i as int);
        let ghost post = s@.subrange(from as int, i as int + 1);
        proof {
            assert(post =~= pre.push(c));
            lemma_int_value_append_grows(pre, c);
        }
        if sat {
        } else {
            let tmp = acc * 10 + d;
            if tmp > MAX_INT_PT {
                sat = true;
            } else {
                acc = tmp;
            }
        }
        i += 1;
    }
    if sat {
        Some(MAX_INT_PT)
    } else {
        Some(acc)
    }
}

/// Parses a pure digit run after the decimal point into 1/10000 pt.
fn parse_frac_run(s: &Vec<char>, from: usize, to: usize) -> (r: Option<i64>)
    requires
        from <= to <= s@.len(),
    ensures
        match r {
            Some(v) => {
                &&& all_digits(s@.subrange(from as int, to as int))
                &&& v == frac_value(s@.subrange(from as int, to as int))
                &&& 0 <= v <= 9999
            },
            None => !all_digits(s@.subrange(from as int, to as int)),
        },
{
    let ghost tok = s@.subrange(from as int, to as int);
    // every character must be a digit, even those beyond the four that count
    let mut i: usize = from;
    while i < to
        invariant
            from <= i <= to <= s@.len(),
            tok == s@.subrange(from as int, to as int),
            all_digits(s@.subrange(from as int, i as int)),
        decreases to - i,
    {
        let c = s[i];
        if !('0' <= c && c <= '9') {
            proof {
                assert(tok[i - from] == s@[i as int]);
            }
            return None;
        }
        proof {
            assert(s@.subrange(from as int, i as int + 1) =~= s@.subrange(
                from as int,
                i as int,
            ).push(c));
        }
        i += 1;
    }
    proof {
        assert(tok =~= s@.subrange(from as int, to as int));
    }
    let n = to - from;
    let mut acc: i64 = 0;
    let mut k: usize = 0;
    let m: usize = if n < 4 {
        n
    } else {
        4
    };
    while k < m
        invariant
            k <= m <= 4,
            m <= n,
            n == to - from,
            from + n <= s@.len(),
            tok == s@.subrange(from as int, to as int),
            all_digits(tok),
            0 <= acc <= 9999,
            acc == int_value(tok.take(m as int).take(k as int)),
            acc <= if k == 0 { 0int } else if k == 1 { 9int } else if k == 2 { 99int } else if k
                == 3 { 999int } else { 9999int },
        decreases m - k,
    {
        let c = s[from + k];
        proof {
            assert(tok[k as int] == s@[from + k]);
            assert(tok.take(m as int).take(k as int + 1) =~= tok.take(m as int).take(
                k as int,
            ).push(c));
            lemma_int_value_append_grows(tok.take(m as int).take(k as int), c);
            lemma_int_value_bound_small(tok.take(m as int).take(k as int + 1));
        }
        let d = (c as u32 - 48) as i64;
        acc = acc * 10 + d;
        k += 1;
    }
    proof {
        assert(tok.take(m as int).take(m as int) =~= tok.take(m as int));
    }
    if n >= 4 {
        proof {
            assert(tok.take(4) =~= tok.take(m as int));
        }
        Some(acc)
    } else if n == 3 {
        proof {
            assert(tok.take(m as int) =~= tok);
        }
        Some(acc * 10)
    } else if n == 2 {
        proof {
            assert(tok.take(m as int) =~= tok);
        }
        Some(acc * 100)
    } else if n == 1 {
        proof {
            assert(tok.take(m as int) =~= tok);
        }
        Some(acc * 1000)
    } else {
        proof {
            assert(tok.take(m as int) =~= tok);
        }
        Some(0)
    }
}

proof fn lemma_int_value_bound_small(s: Seq<char>)
    requires
        all_digits(s),
        s.len() <= 4,
    ensures
        int_value(s) <= if s.len() == 0 { 0int } else if s.len() == 1 { 9int } else if s.len()
            == 2 { 99int } else if s.len() == 3 { 999int } else { 9999int },
        int_value(s) >= 0,
    decreases s.len(),
{
    if s.len() > 0 {
        assert(all_digits(s.drop_last()));
        lemma_int_value_bound_small(s.drop_last());
    }
}

} // verus!
