use std::hash::{Hash, Hasher};

use markdown::cache::{CacheEntry, ContentCache};
use markdown::mode::RenderMode;
use markdown::pipeline::{
    cached_math, diagram_cache_key, finish_math_render, finish_raw_render, math_cache_key,
    prepare_math_source, store_math, CompileOutcome, RenderError,
};
use markdown::templates::{display_math, inline_math, raw};

#[test]
fn display_template_wraps_with_spaced_dollars() {
    let out = display_math("x^2", None);
    assert_eq!(
        out,
        "\n#set page(height: auto, width: auto, margin: 0pt, fill: none)\n#set text(14pt)\n\n$ x^2 $\n"
    );
}

#[test]
fn inline_template_pins_the_baseline() {
    let out = inline_math("x", Some("#let a = 1"));
    assert!(out.starts_with(
        "\n#set page(height: auto, width: auto, margin: 0pt, fill: none)\n#set text(13pt)\n#let a = 1\n"
    ));
    assert!(out.contains("$pin(\"l1\")x$"));
    assert!(out.contains("<label>"));
}

#[test]
fn raw_template_passes_the_source_through() {
    let out = raw("#table()", None);
    assert_eq!(
        out,
        "\n#set page(height: auto, width: auto, margin: 0pt, fill: none)\n#set text(16pt)\n\n#table()\n"
    );
}

#[test]
fn raw_mode_is_rejected_on_the_math_path() {
    let r = prepare_math_source("x", RenderMode::Raw, None);
    assert_eq!(r, Err(RenderError::UnsupportedMode));
    let ok = prepare_math_source("x", RenderMode::Display, None);
    assert_eq!(ok.unwrap(), display_math("x", None));
}

#[test]
fn warnings_are_fatal_for_a_render() {
    let outcome = CompileOutcome {
        warnings: vec!["unused variable".to_string()],
        failure: None,
        first_page: Some("<svg/>".to_string()),
        align: Some(1),
    };
    match finish_math_render(outcome) {
        Err(RenderError::Warnings(ws)) => assert_eq!(ws, vec!["unused variable".to_string()]),
        other => panic!("expected warnings, got {:?}", other),
    }
}

#[test]
fn diagnostics_surface_when_the_compile_fails() {
    let outcome = CompileOutcome {
        warnings: vec![],
        failure: Some("unknown variable".to_string()),
        first_page: None,
        align: None,
    };
    assert_eq!(
        finish_math_render(outcome),
        Err(RenderError::Diagnostics("unknown variable".to_string()))
    );
}

#[test]
fn an_empty_document_is_an_error() {
    let outcome = CompileOutcome { warnings: vec![], failure: None, first_page: None, align: None };
    assert_eq!(finish_math_render(outcome), Err(RenderError::NoPages));
}

#[test]
fn a_clean_compile_returns_the_first_page_and_alignment() {
    let outcome = CompileOutcome {
        warnings: vec![],
        failure: None,
        first_page: Some("<svg>p</svg>".to_string()),
        align: Some(50000),
    };
    assert_eq!(finish_math_render(outcome), Ok(("<svg>p</svg>".to_string(), 50000)));
    let no_align =
        CompileOutcome { warnings: vec![], failure: None, first_page: Some("s".to_string()), align: None };
    assert_eq!(finish_math_render(no_align), Ok(("s".to_string(), 0)));
}

#[test]
fn the_raw_path_judges_outcomes_the_same_way() {
    let ok = CompileOutcome {
        warnings: vec![],
        failure: None,
        first_page: Some("<svg>r</svg>".to_string()),
        align: None,
    };
    assert_eq!(finish_raw_render(ok), Ok("<svg>r</svg>".to_string()));
    let warned = CompileOutcome {
        warnings: vec!["w".to_string()],
        failure: None,
        first_page: None,
        align: None,
    };
    assert!(finish_raw_render(warned).is_err());
}

#[test]
fn math_keys_hash_the_canonical_text_at_seed_42() {
    let key = math_cache_key("x^2", RenderMode::Display, false);
    let mut hasher = twox_hash::XxHash64::with_seed(42);
    hasher.write("x^2\ndp".as_bytes());
    assert_eq!(key, hasher.finish());
    let dkey = diagram_cache_key("box", true);
    let mut dh = twox_hash::XxHash64::with_seed(42);
    dh.write("box\nd".as_bytes());
    assert_eq!(dkey, dh.finish());
}

#[test]
fn keys_separate_modes_and_flags() {
    let a = math_cache_key("x", RenderMode::Display, false);
    let b = math_cache_key("x", RenderMode::Inline, false);
    let c = math_cache_key("x", RenderMode::Display, true);
    assert_ne!(a, b);
    assert_ne!(a, c);
    assert_eq!(a, math_cache_key("x", RenderMode::Display, false));
}

#[test]
fn rendering_the_same_source_twice_compiles_once() {
    let mut cache = ContentCache::new();
    let mut compiles = 0;
    let mut render = |cache: &mut ContentCache| -> (String, Option<i64>) {
        if let Some(e) = cached_math(cache, "a+b", RenderMode::Display, false) {
            return (e.content.clone(), e.align);
        }
        compiles += 1;
        let produced = "<svg>a+b</svg>".to_string();
        store_math(cache, "a+b", RenderMode::Display, false, produced.clone(), Some(11));
        (produced, Some(11))
    };
    let first = render(&mut cache);
    let second = render(&mut cache);
    assert_eq!(compiles, 1);
    assert_eq!(first, second);
    assert_eq!(first.0, "<svg>a+b</svg>");
}

#[test]
fn stored_math_results_read_back_exactly() {
    let mut cache = ContentCache::new();
    assert!(cached_math(&cache, "y", RenderMode::Inline, true).is_none());
    store_math(&mut cache, "y", RenderMode::Inline, true, "out".to_string(), None);
    let e: &CacheEntry = cached_math(&cache, "y", RenderMode::Inline, true).unwrap();
    assert_eq!(e.content, "out");
    assert_eq!(e.align, None);
}
