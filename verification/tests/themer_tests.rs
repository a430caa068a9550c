use markdown::mode::RenderMode;
use markdown::themer::format_svg;

fn decode_first_src(out: &str) -> String {
    let start = out.find("data:image/svg+xml,").unwrap() + "data:image/svg+xml,".len();
    let rest = &out[start..];
    let end = rest.find('"').unwrap();
    urlencoding::decode(&rest[..end]).unwrap().into_owned()
}

#[test]
fn alignment_shift_is_height_minus_align_over_em() {
    // height 20pt, align 5pt, em of 11pt: (20 - 5) / 11 = 1.3636...
    let svg = "<svg height=\"20pt\" width=\"22pt\">x</svg>";
    let out = format_svg(svg, Some(50000), RenderMode::Inline, None, None, false);
    assert!(out.contains("vertical-align: -1.3636em;"), "{}", out);
    assert!(out.contains("width: 2em"), "{}", out);
}

#[test]
fn no_alignment_means_no_vertical_align_style() {
    let svg = "<svg height=\"20pt\" width=\"22pt\">x</svg>";
    let out = format_svg(svg, None, RenderMode::Display, None, None, false);
    assert!(!out.contains("vertical-align"), "{}", out);
}

#[test]
fn light_only_request_emits_one_light_image() {
    let svg = "<svg>\n...</svg>";
    let out = format_svg(svg, None, RenderMode::Display, None, None, false);
    assert_eq!(out.matches("<img ").count(), 1);
    assert!(out.contains("typst-light"));
    assert!(!out.contains("typst-dark"));
}

#[test]
fn dark_mode_emits_two_images_with_injected_styles() {
    let svg = "<svg>\n...</svg>";
    let out = format_svg(svg, None, RenderMode::Display, None, None, true);
    assert_eq!(out.matches("<img ").count(), 2);
    let second = &out[out.find("/>").unwrap() + 2..];
    assert!(second.contains("typst-dark"));
    // the style block sits directly after the first '>' of the svg
    let decoded = decode_first_src(&out);
    assert!(decoded.starts_with("<svg><style>"), "{}", decoded);
    assert!(decoded.ends_with("\n...</svg>"), "{}", decoded);
}

#[test]
fn custom_stylesheets_replace_the_defaults() {
    let svg = "<svg>z</svg>";
    let out = format_svg(svg, None, RenderMode::Display, Some("DARKCSS"), Some("LIGHTCSS"), true);
    let decoded = decode_first_src(&out);
    assert!(decoded.contains("<style>LIGHTCSS</style>"), "{}", decoded);
    let dark_part = &out[out.find("/>").unwrap() + 2..];
    let decoded_dark = decode_first_src(dark_part);
    assert!(decoded_dark.contains("<style>DARKCSS</style>"), "{}", decoded_dark);
}

#[test]
fn raw_mode_pads_the_reported_height_by_ten_points() {
    let svg = "<svg height=\"100pt\" width=\"11pt\">r</svg>";
    let out = format_svg(svg, None, RenderMode::Raw, None, None, false);
    let decoded = decode_first_src(&out);
    assert!(decoded.contains("height=\"110pt\""), "{}", decoded);
    assert!(!decoded.contains("height=\"100pt\""), "{}", decoded);
    assert!(!out.contains("vertical-align"), "{}", out);
}

#[test]
fn fractional_heights_pad_exactly() {
    let svg = "<svg height=\"12.5pt\" width=\"11pt\">r</svg>";
    let out = format_svg(svg, None, RenderMode::Raw, None, None, false);
    let decoded = decode_first_src(&out);
    assert!(decoded.contains("height=\"22.5pt\""), "{}", decoded);
}

#[test]
fn missing_or_malformed_dimensions_degrade_to_zero() {
    let out = format_svg("<svg>n</svg>", None, RenderMode::Display, None, None, false);
    assert!(out.contains("width: 0em"), "{}", out);
    let out2 = format_svg(
        "<svg height=\"1.2.3pt\" width=\"abc\">n</svg>",
        Some(0),
        RenderMode::Inline,
        None,
        None,
        false,
    );
    assert!(out2.contains("width: 0em"), "{}", out2);
    assert!(out2.contains("vertical-align: -0em;"), "{}", out2);
}

#[test]
fn inline_mode_carries_the_inline_class() {
    let out = format_svg("<svg>i</svg>", None, RenderMode::Inline, None, None, false);
    assert!(out.contains("class=\"typst-inline typst-doc typst-light\""), "{}", out);
    let out2 = format_svg("<svg>d</svg>", None, RenderMode::Display, None, None, false);
    assert!(out2.contains("class=\"typst-display typst-doc typst-light\""), "{}", out2);
}

#[test]
fn encoded_markup_matches_urlencoding_directly() {
    let svg = "<svg>e</svg>";
    let out = format_svg(svg, None, RenderMode::Display, None, Some("S"), false);
    let expected = urlencoding::encode("<svg><style>S</style>e</svg>");
    assert!(out.contains(expected.as_ref()), "{}", out);
}

#[test]
fn negative_shifts_keep_their_sign() {
    // height 1pt, align 12pt: shift is -11pt, i.e. -1em
    let svg = "<svg height=\"1pt\" width=\"11pt\">x</svg>";
    let out = format_svg(svg, Some(120000), RenderMode::Inline, None, None, false);
    assert!(out.contains("vertical-align: --1em;"), "{}", out);
}
