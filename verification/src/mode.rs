use vstd::prelude::*;

verus! {

/// How a source fragment is typeset: as display math, as inline math with a
/// baseline pin, or passed through as raw typesetting source.
#[derive(Debug, Clone, Copy, PartialEq, Eq, Structural)]
pub enum RenderMode {
    Display,
    Inline,
    Raw,
}

} // verus!
