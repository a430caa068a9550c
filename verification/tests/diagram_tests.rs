use markdown::cache::ContentCache;
use markdown::diagram::PikchrCompiler;

#[test]
fn a_diagram_renders_to_one_light_image() {
    let mut c = PikchrCompiler::new(ContentCache::new());
    let out = c.render("box \"hi\"", false).expect("a plain box must render");
    assert_eq!(out.matches("<img ").count(), 1);
    assert!(out.contains("pickhr-svg pikchr-light"), "{}", out);
    assert!(out.contains("data:image/svg+xml;charset=utf-8,"), "{}", out);
    assert!(!out.contains("pikchr-dark"), "{}", out);
}

#[test]
fn dark_mode_adds_a_second_themed_image() {
    let mut c = PikchrCompiler::new(ContentCache::new());
    let out = c.render("box \"hi\"", true).expect("a plain box must render");
    assert_eq!(out.matches("<img ").count(), 2);
    assert!(out.contains("pikchr-light"));
    assert!(out.contains("pikchr-dark"));
    assert!(out.contains("alt=\"light mode\""));
    assert!(out.contains("alt=\"dark mode\""));
}

#[test]
fn the_encoded_payload_is_real_compiled_markup() {
    let mut c = PikchrCompiler::new(ContentCache::new());
    let svg = c._render("box \"payload\"", false).expect("must render");
    assert!(svg.contains("<svg"), "{}", svg);
    assert!(svg.contains("payload"), "{}", svg);
    let out = c.render("box \"payload\"", false).unwrap();
    assert!(out.contains(urlencoding::encode(&svg).as_ref()), "{}", out);
}

#[test]
fn repeated_renders_come_from_the_cache() {
    let mut c = PikchrCompiler::new(ContentCache::new());
    let first = c.render("arrow right", true).unwrap();
    let before = c.cache.num_entries();
    let second = c.render("arrow right", true).unwrap();
    assert_eq!(first, second);
    assert_eq!(c.cache.num_entries(), before);
}

#[test]
fn broken_diagram_source_is_an_error() {
    let mut c = PikchrCompiler::new(ContentCache::new());
    let r = c._render("box \"unclosed", false);
    assert!(r.is_err());
    let msg = r.unwrap_err();
    assert!(msg.starts_with("Failed to render pikchr: "), "{}", msg);
}
