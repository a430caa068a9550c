use vstd::prelude::*;

use crate::cache::{CacheEntry, ContentCache};
use crate::hashing::{hash_str, xxhash64_seed42};
use crate::mode::RenderMode;
use crate::templates::{display_math, display_math_text, inline_math, inline_math_text, opt_text};

verus! {

use vstd::string::StringExecFns;
use vstd::string::StringSliceAdditionalSpecFns;
use vstd::utf8::encode_utf8;

/// Why a render failed.  Warnings are fatal: a compile with warnings never
/// yields output.  The variants are distinguishable so callers can react to
/// each.
#[derive(Debug, Clone, PartialEq, Eq)]
pub enum RenderError {
    /// Raw source was handed to the math-only path.
    UnsupportedMode,
    /// The compiler reported warnings; each is carried verbatim.
    Warnings(Vec<String>),
    /// The compiler failed; the formatted diagnostics.
    Diagnostics(String),
    /// The compile succeeded but produced an empty document.
    NoPages,
}

/// What one compiler invocation came back with, reduced to plain values:
/// formatted warnings, formatted fatal diagnostics if it failed, the first
/// page rendered as vector markup if any page exists, and the measured
/// baseline alignment in 1/10000 pt when the document carried the pin label.
pub struct CompileOutcome {
    pub warnings: Vec<String>,
    pub failure: Option<String>,
    pub first_page: Option<String>,
    pub align: Option<i64>,
}

/// The mode discriminant that enters the cache key.
pub open spec fn mode_tag(mode: RenderMode) -> char {
    match mode {
        RenderMode::Display => 'd',
        RenderMode::Inline => 'i',
        RenderMode::Raw => 'r',
    }
}

/// The canonical byte-source of a math cache key: the source text, then a
/// separator, the mode discriminant and the minify flag.
pub open spec fn math_key_text(source: Seq<char>, mode: RenderMode, minify: bool) -> Seq<char> {
    source + seq!['\n', mode_tag(mode), if minify { 'm' } else { 'p' }]
}

/// The cache key of a math render: the fixed-seed hash of the canonical
/// key text.  Inputs are not adversarial, so two sources that hash alike
/// sharing an entry is an accepted property of the content-addressed
/// design, not an error.
pub open spec fn math_key(source: Seq<char>, mode: RenderMode, minify: bool) -> u64 {
    xxhash64_seed42(encode_utf8(math_key_text(source, mode, minify)))
}

/// The canonical key text of a diagram render: source text, separator, and
/// the theme flag.
pub open spec fn diagram_key_text(source: Seq<char>, dark_mode: bool) -> Seq<char> {
    source + seq!['\n', if dark_mode { 'd' } else { 'l' }]
}

/// The cache key of a diagram render.
pub open spec fn diagram_key(source: Seq<char>, dark_mode: bool) -> u64 {
    xxhash64_seed42(encode_utf8(diagram_key_text(source, dark_mode)))
}

/// Computes the math cache key of a source fragment.
pub fn math_cache_key(source: &str, mode: RenderMode, minify: bool) -> (k: u64)
    ensures
        k == math_key(source@, mode, minify),
{
    let mut text = source.to_owned();
    text.append("\n");
    match mode {
        RenderMode::Display => text.append("d"),
        RenderMode::Inline => text.append("i"),
        RenderMode::Raw => text.append("r"),
    }
    if minify {
        text.append("m");
    } else {
        text.append("p");
    }
    proof {
        reveal_strlit("\n");
        reveal_strlit("d");
        reveal_strlit("i");
        reveal_strlit("r");
        reveal_strlit("m");
        reveal_strlit("p");
        assert(text@ =~= math_key_text(source@, mode, minify));
    }
    hash_str(text.as_str())
}

/// Computes the diagram cache key of a source fragment.
pub fn diagram_cache_key(source: &str, dark_mode: bool) -> (k: u64)
    ensures
        k == diagram_key(source@, dark_mode),
{
    let mut text = source.to_owned();
    text.append("\n");
    if dark_mode {
        text.append("d");
    } else {
        text.append("l");
    }
    proof {
        reveal_strlit("\n");
        reveal_strlit("d");
        reveal_strlit("l");
        assert(text@ =~= diagram_key_text(source@, dark_mode));
    }
    hash_str(text.as_str())
}

/// The templated document of a math render, per mode; raw mode has none.
pub open spec fn math_template_text(
    source: Seq<char>,
    mode: RenderMode,
    addon: Seq<char>,
) -> Seq<char> {
    match mode {
        RenderMode::Display => display_math_text(source, addon),
        RenderMode::Inline => inline_math_text(source, addon),
        RenderMode::Raw => Seq::empty(),
    }
}

/// Builds the templated document for a math render.  Raw source is not math:
/// it is rejected up front.
pub fn prepare_math_source(source: &str, mode: RenderMode, addon: Option<&str>) -> (r: Result<
    String,
    RenderError,
>)
    ensures
        match r {
            Ok(s) => !(mode is Raw) && s@ == math_template_text(source@, mode, opt_text(addon)),
            Err(e) => mode is Raw && e == RenderError::UnsupportedMode,
        },
{
    match mode {
        RenderMode::Display => Ok(display_math(source, addon)),
        RenderMode::Inline => Ok(inline_math(source, addon)),
        RenderMode::Raw => Err(RenderError::UnsupportedMode),
    }
}

/// Judges a finished math compile: warnings are fatal and surfaced verbatim,
/// then fatal diagnostics, then an empty document; otherwise the first page
/// and the measured alignment (zero when the label was absent) come back.
pub fn finish_math_render(outcome: CompileOutcome) -> (r: Result<(String, i64), RenderError>)
    ensures
        match r {
            Ok(p) => {
                &&& outcome.warnings@.len() == 0
                &&& outcome.failure is None
                &&& outcome.first_page is Some
                &&& p.0@ == outcome.first_page->0@
                &&& p.1 == (match outcome.align {
                    Some(a) => a,
                    None => 0,
                })
            },
            Err(e) => match e {
                RenderError::Warnings(ws) => outcome.warnings@.len() > 0 && ws.deep_view()
                    == outcome.warnings.deep_view(),
                RenderError::Diagnostics(d) => outcome.warnings@.len() == 0 && outcome.failure
                    is Some && d@ == outcome.failure->0@,
                RenderError::NoPages => outcome.warnings@.len() == 0 && outcome.failure is None
                    && outcome.first_page is None,
                RenderError::UnsupportedMode => false,
            },
        },
{
    let CompileOutcome { warnings, failure, first_page, align } = outcome;
    if warnings.len() > 0 {
        return Err(RenderError::Warnings(warnings));
    }
    match failure {
        Some(d) => Err(RenderError::Diagnostics(d)),
        None => match first_page {
            None => Err(RenderError::NoPages),
            Some(svg) => Ok(
                (
                    svg,
                    match align {
                        Some(a) => a,
                        None => 0,
                    },
                ),
            ),
        },
    }
}

/// Judges a finished raw-mode compile; as the math path, but raw output has
/// no baseline alignment.
pub fn finish_raw_render(outcome: CompileOutcome) -> (r: Result<String, RenderError>)
    ensures
        match r {
            Ok(svg) => {
                &&& outcome.warnings@.len() == 0
                &&& outcome.failure is None
                &&& outcome.first_page is Some
                &&& svg@ == outcome.first_page->0@
            },
            Err(e) => match e {
                RenderError::Warnings(ws) => outcome.warnings@.len() > 0 && ws.deep_view()
                    == outcome.warnings.deep_view(),
                RenderError::Diagnostics(d) => outcome.warnings@.len() == 0 && outcome.failure
                    is Some && d@ == outcome.failure->0@,
                RenderError::NoPages => outcome.warnings@.len() == 0 && outcome.failure is None
                    && outcome.first_page is None,
                RenderError::UnsupportedMode => false,
            },
        },
{
    let CompileOutcome { warnings, failure, first_page, align: _ } = outcome;
    if warnings.len() > 0 {
        return Err(RenderError::Warnings(warnings));
    }
    match failure {
        Some(d) => Err(RenderError::Diagnostics(d)),
        None => match first_page {
            None => Err(RenderError::NoPages),
            Some(svg) => Ok(svg),
        },
    }
}

/// Checks the render cache for a math result.
pub fn cached_math<'a>(
    cache: &'a ContentCache,
    source: &str,
    mode: RenderMode,
    minify: bool,
) -> (r: Option<&'a CacheEntry>)
    requires
        cache.wf(),
    ensures
        ({
            let k = math_key(source@, mode, minify);
            match r {
                Some(e) => cache@.contains_key(k) && *e == cache@[k],
                None => !cache@.contains_key(k),
            }
        }),
{
    let k = math_cache_key(source, mode, minify);
    cache.get(k)
}

/// Stores a freshly compiled math result; the compile that produced it
/// happened before this call, and the stored entry is exactly its result.
pub fn store_math(
    cache: &mut ContentCache,
    source: &str,
    mode: RenderMode,
    minify: bool,
    content: String,
    align: Option<i64>,
)
    requires
        old(cache).wf(),
    ensures
        final(cache).wf(),
        final(cache)@ == old(cache)@.insert(
            math_key(source@, mode, minify),
            (CacheEntry { content, align }),
        ),
{
    let k = math_cache_key(source, mode, minify);
    cache.insert(k, CacheEntry { content, align });
}

/// Law: rendering the same source twice in the same mode compiles once.
/// With an empty cache the first lookup misses, so the pipeline compiles and
/// stores the result; the second lookup, made with the very same inputs,
/// then returns exactly the stored entry, byte for byte.
pub proof fn lemma_second_render_is_cached(
    source: Seq<char>,
    mode: RenderMode,
    minify: bool,
    e: CacheEntry,
)
    ensures
        !Map::<u64, CacheEntry>::empty().contains_key(math_key(source, mode, minify)),
        Map::<u64, CacheEntry>::empty().insert(math_key(source, mode, minify), e).contains_key(
            math_key(source, mode, minify),
        ),
        Map::<u64, CacheEntry>::empty().insert(math_key(source, mode, minify), e)[math_key(
            source,
            mode,
            minify,
        )] == e,
{
}

} // verus!
