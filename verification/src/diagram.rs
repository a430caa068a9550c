use vstd::prelude::*;

use crate::cache::{CacheEntry, ContentCache};
use crate::pipeline::{diagram_cache_key, diagram_key};
use crate::textutil::{percent_encode, percent_encoded};

verus! {

use vstd::string::StringExecFns;

/// What pikchr produces for a diagram source and a theme flag, when it
/// compiles at all; fixed by those two inputs alone.
pub uninterp spec fn pikchr_svg(source: Seq<char>, dark_mode: bool) -> Option<Seq<char>>;

/// Relies on pikchr::Pikchr::render: compiles diagram text to vector markup
/// wholly in memory, under the fixed css class and the chosen theme flag;
/// success and output depend on the source text and the flag alone.
#[verifier::external_body]
fn pikchr_render(input: &str, dark_mode: bool) -> (r: Result<String, String>)
    ensures
        r is Ok <==> pikchr_svg(input@, dark_mode) is Some,
        r is Ok ==> r->Ok_0@ == pikchr_svg(input@, dark_mode)->0,
{
    let mut flags = pikchr::PikchrFlags::default();
    if dark_mode {
        flags.use_dark_mode();
    }
    match pikchr::Pikchr::render(input, Some("pikchr"), flags) {
        Ok(p) => Ok(p.rendered().to_string()),
        Err(e) => Err(e),
    }
}

/// The markup a diagram render yields for one theme, given the cache it
/// starts from: the stored entry on a key hit, else whatever pikchr
/// produces.
pub open spec fn rendered_svg(
    cache: Map<u64, CacheEntry>,
    source: Seq<char>,
    dark_mode: bool,
) -> Option<Seq<char>> {
    let k = diagram_key(source, dark_mode);
    if cache.contains_key(k) {
        Some(cache[k].content@)
    } else {
        pikchr_svg(source, dark_mode)
    }
}

/// One themed diagram image: the markup percent-encoded into a data URI,
/// wrapped in an img tag carrying the theme classes.
pub open spec fn diagram_img(svg: Seq<char>, dark_mode: bool) -> Seq<char> {
    let theme = if dark_mode {
        "dark"@
    } else {
        "light"@
    };
    "<img src=\"data:image/svg+xml;charset=utf-8,"@ + percent_encoded(svg) + "\" alt=\""@ + theme
        + " mode\" class=\"pickhr-svg pikchr-"@ + theme + "\">"@
}

fn diagram_markup(svg: &str, dark_mode: bool) -> (r: String)
    ensures
        r@ == diagram_img(svg@, dark_mode),
{
    let mut out = String::new();
    out.append("<img src=\"data:image/svg+xml;charset=utf-8,");
    let enc = percent_encode(svg);
    out.append(enc.as_str());
    out.append("\" alt=\"");
    if dark_mode {
        out.append("dark");
    } else {
        out.append("light");
    }
    out.append(" mode\" class=\"pickhr-svg pikchr-");
    if dark_mode {
        out.append("dark");
    } else {
        out.append("light");
    }
    out.append("\">");
    proof {
        assert(out@ =~= diagram_img(svg@, dark_mode));
    }
    out
}

/// Renders diagram sources into themed images, memoizing each compiled
/// variant in the content cache.
pub struct PikchrCompiler {
    pub cache: ContentCache,
}

impl PikchrCompiler {
    pub open spec fn wf(&self) -> bool {
        self.cache.wf()
    }

    pub fn new(cache: ContentCache) -> (c: PikchrCompiler)
        requires
            cache.wf(),
        ensures
            c.wf(),
            c.cache@ == cache@,
    {
        PikchrCompiler { cache }
    }

    /// Renders one theme variant of a diagram, consulting the cache first
    /// and storing a fresh result under the source's key.
    pub fn _render(&mut self, input: &str, dark_mode: bool) -> (r: Result<String, String>)
        requires
            old(self).wf(),
        ensures
            final(self).wf(),
            match r {
                Ok(svg) => {
                    let k = diagram_key(input@, dark_mode);
                    &&& rendered_svg(old(self).cache@, input@, dark_mode) == Some(svg@)
                    &&& (old(self).cache@.contains_key(k) ==> final(self).cache@
                        == old(self).cache@)
                    &&& (!old(self).cache@.contains_key(k) ==> {
                        &&& final(self).cache@ == old(self).cache@.insert(
                            k,
                            final(self).cache@[k],
                        )
                        &&& final(self).cache@[k].content@ == svg@
                        &&& final(self).cache@[k].align is None
                    })
                },
                Err(_) => rendered_svg(old(self).cache@, input@, dark_mode) is None
                    && final(self).cache@ == old(self).cache@,
            },
    {
        let key = diagram_cache_key(input, dark_mode);
        match self.cache.get(key) {
            Some(entry) => Ok(entry.content.clone()),
            None => {
                match pikchr_render(input, dark_mode) {
                    Ok(svg) => {
                        let stored = svg.clone();
                        self.cache.insert(key, CacheEntry { content: stored, align: None });
                        Ok(svg)
                    },
                    Err(e) => {
                        let mut msg = String::new();
                        msg.append("Failed to render pikchr: ");
                        msg.append(e.as_str());
                        Err(msg)
                    },
                }
            },
        }
    }

    /// Renders a diagram into its final fragment: always the light image,
    /// and after it the dark image when dark mode is requested.
    pub fn render(&mut self, input: &str, auto_dark_mode: bool) -> (r: Result<String, String>)
        requires
            old(self).wf(),
        ensures
            final(self).wf(),
            match r {
                Ok(out) => {
                    let light = rendered_svg(old(self).cache@, input@, false);
                    &&& light is Some
                    &&& !auto_dark_mode ==> out@ == diagram_img(light->0, false)
                    &&& auto_dark_mode ==> (exists|m: Map<u64, CacheEntry>, ds: Seq<char>|
                        rendered_svg(m, input@, true) == Some(ds) && out@ == diagram_img(
                            light->0,
                            false,
                        ) + diagram_img(ds, true))
                },
                Err(_) => rendered_svg(old(self).cache@, input@, false) is None
                    || auto_dark_mode,
            },
    {
        let light = self._render(input, false)?;
        let ghost mid = self.cache@;
        let mut out = diagram_markup(light.as_str(), false);
        if auto_dark_mode {
            let dark = self._render(input, true)?;
            let dimg = diagram_markup(dark.as_str(), true);
            out.append(dimg.as_str());
            proof {
                assert(rendered_svg(mid, input@, true) == Some(dark@));
            }
        }
        Ok(out)
    }
}

} // verus!
