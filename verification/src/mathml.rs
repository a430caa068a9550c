use vstd::prelude::*;

use crate::cache::{CacheEntry, ContentCache};
use crate::mode::RenderMode;
use crate::pipeline::{math_cache_key, math_key, RenderError};

verus! {

use vstd::string::StringExecFns;

/// The math source handed to the MathML engine: the expression between
/// spaced dollars for display math, tight dollars for inline math.
pub open spec fn mathml_source(input: Seq<char>, mode: RenderMode) -> Seq<char> {
    match mode {
        RenderMode::Display => "$ "@ + input + " $"@,
        RenderMode::Inline => "$"@ + input + "$"@,
        RenderMode::Raw => Seq::empty(),
    }
}

/// How one MathML compile proceeds after the cache was consulted.
#[derive(Debug)]
pub enum MathMlStep {
    /// The finished markup was already cached.
    Cached(String),
    /// The engine must run on the templated source; the result belongs
    /// under this key.
    NeedsRender { templated: String, key: u64 },
}

/// Renders math to MathML through an external conversion engine, memoizing
/// finished conversions.
pub struct TypstMathMLCompiler {
    pub cache: Option<ContentCache>,
}

impl TypstMathMLCompiler {
    pub open spec fn wf(&self) -> bool {
        match self.cache {
            Some(c) => c.wf(),
            None => true,
        }
    }

    pub fn new() -> (c: TypstMathMLCompiler)
        ensures
            c.wf(),
            c.cache is None,
    {
        TypstMathMLCompiler { cache: None }
    }

    pub fn set_cache(&mut self, cache: ContentCache)
        requires
            cache.wf(),
        ensures
            final(self).wf(),
            final(self).cache is Some,
            final(self).cache->0@ == cache@,
    {
        self.cache = Some(cache);
    }

    /// Builds the templated source and consults the cache.  Raw source is
    /// not math and is rejected; a cached conversion comes back as it was
    /// stored; otherwise the engine must run and store under the key.
    pub fn compile_lookup(&self, input: &str, mode: RenderMode, minify: bool) -> (r: Result<
        MathMlStep,
        RenderError,
    >)
        requires
            self.wf(),
        ensures
            match r {
                Ok(step) => !(mode is Raw) && (match step {
                    MathMlStep::Cached(s) => {
                        let k = math_key(mathml_source(input@, mode), mode, minify);
                        &&& self.cache is Some
                        &&& self.cache->0@.contains_key(k)
                        &&& s@ == self.cache->0@[k].content@
                    },
                    MathMlStep::NeedsRender { templated, key } => {
                        &&& templated@ == mathml_source(input@, mode)
                        &&& key == math_key(mathml_source(input@, mode), mode, minify)
                        &&& (match self.cache {
                            Some(c) => !c@.contains_key(key),
                            None => true,
                        })
                    },
                }),
                Err(e) => mode is Raw && e == RenderError::UnsupportedMode,
            },
    {
        let mut templated = String::new();
        match mode {
            RenderMode::Display => {
                templated.append("$ ");
                templated.append(input);
                templated.append(" $");
            },
            RenderMode::Inline => {
                templated.append("$");
                templated.append(input);
                templated.append("$");
            },
            RenderMode::Raw => {
                return Err(RenderError::UnsupportedMode);
            },
        }
        proof {
            assert(templated@ =~= mathml_source(input@, mode));
        }
        let key = math_cache_key(templated.as_str(), mode, minify);
        match &self.cache {
            Some(c) => {
                match c.get(key) {
                    Some(entry) => Ok(MathMlStep::Cached(entry.content.clone())),
                    None => Ok(MathMlStep::NeedsRender { templated, key }),
                }
            },
            None => Ok(MathMlStep::NeedsRender { templated, key }),
        }
    }

    /// Remembers a finished conversion under its key; without a cache this
    /// does nothing.
    pub fn compile_finish(&mut self, key: u64, rendered: &str)
        requires
            old(self).wf(),
        ensures
            final(self).wf(),
            match old(self).cache {
                Some(c) => {
                    &&& final(self).cache is Some
                    &&& final(self).cache->0@ == c@.insert(key, final(self).cache->0@[key])
                    &&& final(self).cache->0@[key].content@ == rendered@
                    &&& final(self).cache->0@[key].align is None
                },
                None => final(self).cache is None,
            },
    {
        match &mut self.cache {
            Some(c) => {
                c.insert(key, CacheEntry { content: rendered.to_owned(), align: None });
            },
            None => {},
        }
    }

    /// The cache's persistent form, ready to be written out; nothing when
    /// no cache was attached.
    pub fn persist_blob(&self) -> (r: Option<Vec<u8>>)
        ensures
            match self.cache {
                Some(c) => r is Some && r->0@ == crate::persist::encode_cache(
                    crate::persist::entries_data(c.entries_seq()),
                ),
                None => r is None,
            },
    {
        match &self.cache {
            Some(c) => Some(crate::persist::persist_bytes(c)),
            None => None,
        }
    }
}

} // verus!
