use markdown::cache::ContentCache;
use markdown::mathml::{MathMlStep, TypstMathMLCompiler};
use markdown::mode::RenderMode;
use markdown::persist::load_cache;
use markdown::pipeline::RenderError;

#[test]
fn raw_mode_is_not_math() {
    let c = TypstMathMLCompiler::new();
    let r = c.compile_lookup("x", RenderMode::Raw, false);
    assert!(matches!(r, Err(RenderError::UnsupportedMode)));
}

#[test]
fn display_math_is_templated_with_spaced_dollars() {
    let c = TypstMathMLCompiler::new();
    match c.compile_lookup("x + y", RenderMode::Display, false).unwrap() {
        MathMlStep::NeedsRender { templated, .. } => assert_eq!(templated, "$ x + y $"),
        other => panic!("fresh compiler cannot have a cached entry: {:?}", other),
    }
}

#[test]
fn inline_math_is_templated_with_tight_dollars() {
    let c = TypstMathMLCompiler::new();
    match c.compile_lookup("x", RenderMode::Inline, true).unwrap() {
        MathMlStep::NeedsRender { templated, .. } => assert_eq!(templated, "$x$"),
        other => panic!("fresh compiler cannot have a cached entry: {:?}", other),
    }
}

#[test]
fn finished_conversions_are_served_from_the_cache() {
    let mut c = TypstMathMLCompiler::new();
    c.set_cache(ContentCache::new());
    let key = match c.compile_lookup("a", RenderMode::Display, false).unwrap() {
        MathMlStep::NeedsRender { key, .. } => key,
        other => panic!("unexpected cache hit: {:?}", other),
    };
    c.compile_finish(key, "<math>a</math>");
    match c.compile_lookup("a", RenderMode::Display, false).unwrap() {
        MathMlStep::Cached(s) => assert_eq!(s, "<math>a</math>"),
        other => panic!("expected the stored conversion, got {:?}", other),
    }
}

#[test]
fn without_a_cache_every_lookup_asks_for_a_render() {
    let mut c = TypstMathMLCompiler::new();
    assert!(c.persist_blob().is_none());
    let key = match c.compile_lookup("b", RenderMode::Inline, false).unwrap() {
        MathMlStep::NeedsRender { key, .. } => key,
        other => panic!("unexpected cache hit: {:?}", other),
    };
    c.compile_finish(key, "ignored");
    assert!(matches!(
        c.compile_lookup("b", RenderMode::Inline, false).unwrap(),
        MathMlStep::NeedsRender { .. }
    ));
}

#[test]
fn the_cache_blob_reloads_with_the_conversions() {
    let mut c = TypstMathMLCompiler::new();
    c.set_cache(ContentCache::new());
    let key = match c.compile_lookup("z", RenderMode::Display, true).unwrap() {
        MathMlStep::NeedsRender { key, .. } => key,
        other => panic!("unexpected cache hit: {:?}", other),
    };
    c.compile_finish(key, "<math>z</math>");
    let blob = c.persist_blob().unwrap();
    let reloaded = load_cache(&blob).unwrap();
    assert_eq!(reloaded.get(key).unwrap().content, "<math>z</math>");
}
