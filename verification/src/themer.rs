use vstd::prelude::*;

use crate::mode::RenderMode;
use crate::numeric::{
    decimal_chars, decimal_value, push_decimal, parse_decimal, MAX_INT_PT, UNITS_PER_PT,
    is_digit,
};
use crate::textutil::{
    chars_to_string, percent_encode, percent_encoded, push_range, push_str_chars, str_chars,
};

verus! {

use vstd::string::StringExecFns;

/// Characters a dimension attribute value is made of.
pub open spec fn is_dim_char(c: char) -> bool {
    is_digit(c) || c == '.'
}

/// The first index at or after `j` whose character is not part of a
/// dimension value.
pub open spec fn run_end(s: Seq<char>, j: int) -> int
    decreases s.len() - j,
    when 0 <= j <= s.len()
{
    if j >= s.len() {
        j
    } else if is_dim_char(s[j]) {
        run_end(s, j + 1)
    } else {
        j
    }
}

proof fn lemma_run_end_bounds(s: Seq<char>, j: int)
    requires
        0 <= j <= s.len(),
    ensures
        j <= run_end(s, j) <= s.len(),
    decreases s.len() - j,
{
    if j < s.len() && is_dim_char(s[j]) {
        lemma_run_end_bounds(s, j + 1);
    }
}

/// The pattern occurs in `s` at position `i`.
pub open spec fn matches_at(s: Seq<char>, pat: Seq<char>, i: int) -> bool {
    &&& 0 <= i
    &&& i + pat.len() <= s.len()
    &&& s.subrange(i, i + pat.len()) == pat
}

/// A dimension value ending at `e` is terminated by a closing quote,
/// optionally preceded by the unit suffix `pt`.
pub open spec fn value_terminated(s: Seq<char>, e: int) -> bool {
    ||| (0 <= e < s.len() && s[e] == '"')
    ||| (0 <= e && e + 3 <= s.len() && s[e] == 'p' && s[e + 1] == 't' && s[e + 2] == '"')
}

/// A complete dimension attribute (key, then a non-empty digit-or-dot run,
/// then an optional `pt` and a quote) starts at position `p`.
pub open spec fn attr_at(s: Seq<char>, key: Seq<char>, p: int) -> bool {
    let st = p + key.len();
    &&& matches_at(s, key, p)
    &&& run_end(s, st) > st
    &&& value_terminated(s, run_end(s, st))
}

/// The value range of the first complete dimension attribute with the given
/// key at or after position `p`, if any.
pub open spec fn find_attr(s: Seq<char>, key: Seq<char>, p: int) -> Option<(int, int)>
    decreases s.len() + 1 - p,
    when 0 <= p
{
    if p + key.len() > s.len() {
        None
    } else if attr_at(s, key, p) {
        Some((p + key.len(), run_end(s, p + key.len())))
    } else {
        find_attr(s, key, p + 1)
    }
}

/// What the first occurrence of a dimension attribute denotes, in
/// 1/10000 pt: zero when the attribute is absent or malformed.
pub open spec fn attr_value(s: Seq<char>, key: Seq<char>) -> int {
    match find_attr(s, key, 0) {
        Some((a, b)) => match decimal_value(s.subrange(a, b)) {
            Some(v) => v,
            None => 0,
        },
        None => 0,
    }
}

/// Scans for the first complete dimension attribute with the given key,
/// returning the index range of its numeric text.
fn scan_attr(s: &Vec<char>, key: &str) -> (r: Option<(usize, usize)>)
    requires
        key@.len() >= 1,
    ensures
        match r {
            Some(ab) => {
                &&& find_attr(s@, key@, 0) == Some((ab.0 as int, ab.1 as int))
                &&& ab.0 <= ab.1 <= s@.len()
            },
            None => find_attr(s@, key@, 0) is None,
        },
{
    let kv = str_chars(key);
    let m = kv.len();
    let n = s.len();
    if m > n {
        return None;
    }
    let mut p: usize = 0;
    while p <= n - m
        invariant
            m == key@.len(),
            kv@ == key@,
            n == s@.len(),
            1 <= m <= n,
            p <= n - m + 1,
            find_attr(s@, key@, 0) == find_attr(s@, key@, p as int),
        decreases n - p,
    {
        // does the key occur at p?
        let mut k: usize = 0;
        let mut matched = true;
        while k < m
            invariant
                m == key@.len(),
                kv@ == key@,
                n == s@.len(),
                p + m <= n,
                p <= n - m,
                k <= m,
                matched ==> forall|q: int| 0 <= q < k ==> s@[p + q] == key@[q],
                !matched ==> !matches_at(s@, key@, p as int),
            decreases m - k,
        {
            if s[p + k] != kv[k] {
                proof {
                    if matches_at(s@, key@, p as int) {
                        assert(s@.subrange(p as int, p + m)[k as int] == key@[k as int]);
                    }
                }
                matched = false;
                k = m;
            } else {
                k = k + 1;
            }
        }
        if matched {
            proof {
                assert(s@.subrange(p as int, p + m) =~= key@);
            }
            // scan the digit-or-dot run after the key
            let st = p + m;
            let mut e: usize = st;
            while e < n && (('0' <= s[e] && s[e] <= '9') || s[e] == '.')
                invariant
                    st <= e <= n,
                    n == s@.len(),
                    run_end(s@, st as int) == run_end(s@, e as int),
                decreases n - e,
            {
                e = e + 1;
            }
            proof {
                lemma_run_end_bounds(s@, e as int);
                assert(run_end(s@, e as int) == e);
            }
            if e > st {
                // the run must be closed by `"` or `pt"`
                let ok = if e < n && s[e] == '"' {
                    true
                } else if n - e >= 3 && s[e] == 'p' && s[e + 1] == 't' && s[e + 2] == '"' {
                    true
                } else {
                    false
                };
                if ok {
                    return Some((st, e));
                }
            }
        }
        p = p + 1;
    }
    None
}

/// The parsed value and value range of the first dimension attribute with
/// the given key.
pub fn measure_attr(s: &Vec<char>, key: &str) -> (r: (i64, Option<(usize, usize, bool)>))
    requires
        key@.len() >= 1,
    ensures
        r.0 == attr_value(s@, key@),
        0 <= r.0 <= (MAX_INT_PT + 1) * UNITS_PER_PT,
        match r.1 {
            Some(abp) => {
                &&& find_attr(s@, key@, 0) == Some((abp.0 as int, abp.1 as int))
                &&& abp.0 <= abp.1 <= s@.len()
                &&& abp.2 == decimal_value(s@.subrange(abp.0 as int, abp.1 as int)) is Some
            },
            None => find_attr(s@, key@, 0) is None,
        },
{
    match scan_attr(s, key) {
        Some((a, b)) => {
            match parse_decimal(s, a, b) {
                Some(v) => (v, Some((a, b, true))),
                None => (0, Some((a, b, false))),
            }
        },
        None => (0, None),
    }
}

/// Points of padding added to the reported height of raw-mode output, to
/// absorb the padding the typesetter adds around raw content.
pub const RAW_HEIGHT_PAD_PT: i64 = 10;

/// Raw-mode output with its height attribute text padded by the fixed
/// allowance; the attribute must be present and well formed, and only its
/// text changes.  Other modes pass through unchanged.
pub open spec fn padded_svg(s: Seq<char>, mode: RenderMode) -> Seq<char> {
    if mode is Raw {
        match find_attr(s, "height=\""@, 0) {
            Some((a, b)) => match decimal_value(s.subrange(a, b)) {
                Some(h) => s.take(a) + decimal_chars(h + RAW_HEIGHT_PAD_PT * UNITS_PER_PT)
                    + s.skip(b),
                None => s,
            },
            None => s,
        }
    } else {
        s
    }
}

/// The index of the first `>` in `s` at or after `p`, if any.
pub open spec fn first_gt(s: Seq<char>, p: int) -> Option<int>
    decreases s.len() - p,
    when 0 <= p
{
    if p >= s.len() {
        None
    } else if s[p] == '>' {
        Some(p)
    } else {
        first_gt(s, p + 1)
    }
}

/// A stylesheet inserted as a style element directly after the first `>`,
/// which closes the opening svg tag; markup without any `>` is unchanged.
pub open spec fn inject_style(s: Seq<char>, style: Seq<char>) -> Seq<char> {
    match first_gt(s, 0) {
        Some(i) => s.take(i + 1) + "<style>"@ + style + "</style>"@ + s.skip(i + 1),
        None => s,
    }
}

fn inject_style_exec(svg: &Vec<char>, style: &str) -> (r: Vec<char>)
    ensures
        r@ == inject_style(svg@, style@),
{
    let n = svg.len();
    let mut p: usize = 0;
    while p < n && svg[p] != '>'
        invariant
            0 <= p <= n,
            n == svg@.len(),
            first_gt(svg@, 0) == first_gt(svg@, p as int),
        decreases n - p,
    {
        p = p + 1;
    }
    if p == n {
        let mut out: Vec<char> = Vec::new();
        push_range(&mut out, svg, 0, n);
        proof {
            assert(out@ =~= svg@);
        }
        out
    } else {
        let mut out: Vec<char> = Vec::new();
        push_range(&mut out, svg, 0, p + 1);
        push_str_chars(&mut out, "<style>");
        push_str_chars(&mut out, style);
        push_str_chars(&mut out, "</style>");
        push_range(&mut out, svg, p + 1, n);
        proof {
            assert(out@ =~= inject_style(svg@, style@));
        }
        out
    }
}

/// The vertical shift, in 1/10000 em, that aligns an image of the given
/// height to the measured baseline: the difference in points, divided by
/// the fixed em size of eleven points, rounded toward zero.
pub open spec fn shift_em_units(height: int, align: int) -> int {
    let shift = height - align;
    if shift >= 0 {
        shift / 11
    } else {
        -((-shift) / 11)
    }
}

pub open spec fn signed_decimal_chars(v: int) -> Seq<char> {
    if v < 0 {
        seq!['-'] + decimal_chars(-v)
    } else {
        decimal_chars(v)
    }
}

/// Alignment values are clamped to the range parsed dimensions live in,
/// so the shift arithmetic stays exact.
pub open spec fn clamp_align(a: int) -> int {
    let cap = (MAX_INT_PT + 1) * (UNITS_PER_PT as int);
    if a > cap {
        cap
    } else if a < -cap {
        -cap
    } else {
        a
    }
}

/// The inline style that pins an image to the baseline; nothing at all when
/// no alignment was measured.
pub open spec fn valign_style(height: int, align: Option<i64>) -> Seq<char> {
    match align {
        Some(a) => "vertical-align: -"@
            + signed_decimal_chars(shift_em_units(height, clamp_align(a as int))) + "em;"@,
        None => Seq::empty(),
    }
}

/// Law: when no alignment value is present, no vertical-alignment styling
/// is emitted at all.
pub proof fn lemma_no_align_no_shift(height: int)
    ensures
        valign_style(height, None) == Seq::<char>::empty(),
{
}

/// The CSS class of a display mode; raw content renders block-level, like
/// display math.
pub open spec fn mode_class(mode: RenderMode) -> Seq<char> {
    match mode {
        RenderMode::Inline => "typst-inline"@,
        _ => "typst-display"@,
    }
}

/// One themed image: the svg with the theme stylesheet injected,
/// percent-encoded into a data URI, wrapped in an img tag carrying the
/// mode class, the theme class, the baseline shift and the width in em.
pub open spec fn img_markup(
    body: Seq<char>,
    style: Seq<char>,
    theme: Seq<char>,
    mode: RenderMode,
    height: int,
    align: Option<i64>,
    width: int,
) -> Seq<char> {
    "<img src=\"data:image/svg+xml,"@ + percent_encoded(inject_style(body, style))
        + "\" class=\""@ + mode_class(mode) + " typst-doc typst-"@ + theme + "\" style=\""@
        + valign_style(height, align) + " width: "@ + decimal_chars(width / 11)
        + "em\" loading=\"lazy\" decoding=\"async\" alt=\"\" />"@
}

/// The bundled fallback stylesheet for the light theme.
pub open spec fn default_light_styles() -> Seq<char> {
    "svg { color: #1f2328; } path, text, tspan { fill: currentColor; }"@
}

/// The bundled fallback stylesheet for the dark theme.
pub open spec fn default_dark_styles() -> Seq<char> {
    "svg { color: #e6edf3; } path, text, tspan { fill: currentColor; }"@
}

pub open spec fn opt_view(o: Option<&str>) -> Option<Seq<char>> {
    match o {
        Some(s) => Some(s@),
        None => None,
    }
}

/// The whole themed fragment: the light image always, the dark image after
/// it when dark mode is requested.
pub open spec fn format_svg_spec(
    svg: Seq<char>,
    align: Option<i64>,
    mode: RenderMode,
    dark_styles: Option<Seq<char>>,
    light_styles: Option<Seq<char>>,
    dark_mode: bool,
) -> Seq<char> {
    let height = attr_value(svg, "height=\""@);
    let width = attr_value(svg, "width=\""@);
    let body = padded_svg(svg, mode);
    let light = match light_styles {
        Some(s) => s,
        None => default_light_styles(),
    };
    let dark = match dark_styles {
        Some(s) => s,
        None => default_dark_styles(),
    };
    img_markup(body, light, "light"@, mode, height, align, width) + (if dark_mode {
        img_markup(body, dark, "dark"@, mode, height, align, width)
    } else {
        Seq::<char>::empty()
    })
}

fn img_markup_exec(
    body: &Vec<char>,
    style: &str,
    theme: &str,
    mode: RenderMode,
    height: i64,
    align: Option<i64>,
    width: i64,
) -> (r: String)
    requires
        0 <= height <= (MAX_INT_PT + 2) * UNITS_PER_PT,
        0 <= width <= (MAX_INT_PT + 1) * UNITS_PER_PT,
    ensures
        r@ == img_markup(body@, style@, theme@, mode, height as int, align, width as int),
{
    let mut out = String::new();
    out.append("<img src=\"data:image/svg+xml,");
    let themed = inject_style_exec(body, style);
    let themed_str = chars_to_string(&themed);
    let encoded = percent_encode(themed_str.as_str());
    out.append(encoded.as_str());
    out.append("\" class=\"");
    match mode {
        RenderMode::Inline => out.append("typst-inline"),
        _ => out.append("typst-display"),
    }
    out.append(" typst-doc typst-");
    out.append(theme);
    out.append("\" style=\"");
    match align {
        Some(a) => {
            out.append("vertical-align: -");
            let cap = (MAX_INT_PT + 1) * UNITS_PER_PT;
            let ac: i64 = if a > cap {
                cap
            } else if a < -cap {
                -cap
            } else {
                a
            };
            let shift = height - ac;
            let v: i64 = if shift >= 0 {
                ((shift as u64) / 11) as i64
            } else {
                -((((-shift) as u64) / 11) as i64)
            };
            proof {
                assert(v == shift_em_units(height as int, ac as int));
            }
            let mut digits: Vec<char> = Vec::new();
            if v < 0 {
                digits.push('-');
                push_decimal(&mut digits, (-v) as u64);
            } else {
                push_decimal(&mut digits, v as u64);
            }
            proof {
                assert(digits@ =~= signed_decimal_chars(
                    shift_em_units(height as int, clamp_align(a as int)),
                ));
            }
            let ds = chars_to_string(&digits);
            out.append(ds.as_str());
            out.append("em;");
        },
        None => {},
    }
    out.append(" width: ");
    let mut wdigits: Vec<char> = Vec::new();
    push_decimal(&mut wdigits, (width as u64) / 11);
    let ws = chars_to_string(&wdigits);
    out.append(ws.as_str());
    out.append("em\" loading=\"lazy\" decoding=\"async\" alt=\"\" />");
    proof {
        assert(out@ =~= img_markup(
            body@,
            style@,
            theme@,
            mode,
            height as int,
            align,
            width as int,
        ));
    }
    out
}

/// Turns one compiled vector image into the final themed fragment: reads the
/// intrinsic height and width, pads the height attribute text in raw mode,
/// injects a stylesheet per requested theme, percent-encodes each themed
/// image into a data URI and wraps it in an img tag.  The light theme is
/// always emitted; the dark theme only when asked for.  Custom stylesheets
/// replace the bundled defaults when given.
pub fn format_svg(
    svg: &str,
    align: Option<i64>,
    render_mode: RenderMode,
    dark_styles: Option<&str>,
    light_styles: Option<&str>,
    dark_mode: bool,
) -> (r: String)
    ensures
        r@ == format_svg_spec(
            svg@,
            align,
            render_mode,
            opt_view(dark_styles),
            opt_view(light_styles),
            dark_mode,
        ),
{
    let chars = str_chars(svg);
    proof {
        reveal_strlit("height=\"");
        reveal_strlit("width=\"");
    }
    let (height, hinfo) = measure_attr(&chars, "height=\"");
    let (width, _winfo) = measure_attr(&chars, "width=\"");

    let mut body: Vec<char> = Vec::new();
    let is_raw = match render_mode {
        RenderMode::Raw => true,
        _ => false,
    };
    match hinfo {
        Some((a, b, parsed)) if is_raw && parsed => {
            push_range(&mut body, &chars, 0, a);
            push_decimal(&mut body, (height + RAW_HEIGHT_PAD_PT * UNITS_PER_PT) as u64);
            let n = chars.len();
            push_range(&mut body, &chars, b, n);
            proof {
                assert(body@ =~= padded_svg(svg@, render_mode));
            }
        },
        _ => {
            let n = chars.len();
            push_range(&mut body, &chars, 0, n);
            proof {
                assert(body@ =~= padded_svg(svg@, render_mode));
            }
        },
    }

    let light = match light_styles {
        Some(s) => s,
        None => "svg { color: #1f2328; } path, text, tspan { fill: currentColor; }",
    };
    let mut out = img_markup_exec(&body, light, "light", render_mode, height, align, width);
    if dark_mode {
        let dark = match dark_styles {
            Some(s) => s,
            None => "svg { color: #e6edf3; } path, text, tspan { fill: currentColor; }",
        };
        let dimg = img_markup_exec(&body, dark, "dark", render_mode, height, align, width);
        out.append(dimg.as_str());
    }
    proof {
        assert(out@ =~= format_svg_spec(
            svg@,
            align,
            render_mode,
            opt_view(dark_styles),
            opt_view(light_styles),
            dark_mode,
        ));
    }
    out
}

} // verus!
