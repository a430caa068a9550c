use vstd::prelude::*;

verus! {

use vstd::string::StringSliceAdditionalSpecFns;

/// Case folding of a single byte: ASCII letters lose their case bit.
pub open spec fn fold_byte(b: u8) -> u8 {
    b | 32
}

/// Two byte strings are equal up to the ASCII case bit.
pub open spec fn eq_fold(a: Seq<u8>, b: Seq<u8>) -> bool {
    &&& a.len() == b.len()
    &&& forall|i: int| 0 <= i < a.len() ==> fold_byte(a[i]) == fold_byte(b[i])
}

/// Case-insensitive byte string comparison, lowercasing ASCII letters by
/// setting bit 32 on both sides before comparing.
pub fn case_insensitive_eq(a: &[u8], b: &[u8]) -> (r: bool)
    ensures
        r == eq_fold(a@, b@),
{
    if a.len() != b.len() {
        return false;
    }
    let mut i: usize = 0;
    while i < a.len()
        invariant
            a@.len() == b@.len(),
            i <= a@.len(),
            forall|j: int| 0 <= j < i ==> fold_byte(a@[j]) == fold_byte(b@[j]),
        decreases a@.len() - i,
    {
        if a[i] | 32 != b[i] | 32 {
            return false;
        }
        i += 1;
    }
    true
}

#[derive(Clone, Debug, Copy, Eq, PartialEq, Structural)]
pub enum ObsidianCalloutType {
    Note,
    Tip,
    Warning,
    Important,
    Info,
    Question,
    Error,
}

/// The canonical (lower-case) name of a callout kind.
pub open spec fn callout_name(t: ObsidianCalloutType) -> Seq<char> {
    match t {
        ObsidianCalloutType::Note => "note"@,
        ObsidianCalloutType::Tip => "tip"@,
        ObsidianCalloutType::Warning => "warning"@,
        ObsidianCalloutType::Important => "important"@,
        ObsidianCalloutType::Info => "info"@,
        ObsidianCalloutType::Question => "question"@,
        ObsidianCalloutType::Error => "error"@,
    }
}

/// Which callout kind, if any, a tag selects: the first variant whose name
/// matches the tag up to ASCII case.
pub open spec fn callout_of_bytes(b: Seq<u8>) -> Option<ObsidianCalloutType> {
    if eq_fold(b, "note".spec_bytes()) {
        Some(ObsidianCalloutType::Note)
    } else if eq_fold(b, "tip".spec_bytes()) {
        Some(ObsidianCalloutType::Tip)
    } else if eq_fold(b, "warning".spec_bytes()) {
        Some(ObsidianCalloutType::Warning)
    } else if eq_fold(b, "important".spec_bytes()) {
        Some(ObsidianCalloutType::Important)
    } else if eq_fold(b, "info".spec_bytes()) {
        Some(ObsidianCalloutType::Info)
    } else if eq_fold(b, "question".spec_bytes()) {
        Some(ObsidianCalloutType::Question)
    } else if eq_fold(b, "error".spec_bytes()) {
        Some(ObsidianCalloutType::Error)
    } else {
        None
    }
}

impl ObsidianCalloutType {
    pub fn as_str(&self) -> (r: &'static str)
        ensures
            r@ == callout_name(*self),
    {
        match self {
            ObsidianCalloutType::Note => "note",
            ObsidianCalloutType::Tip => "tip",
            ObsidianCalloutType::Warning => "warning",
            ObsidianCalloutType::Important => "important",
            ObsidianCalloutType::Info => "info",
            ObsidianCalloutType::Question => "question",
            ObsidianCalloutType::Error => "error",
        }
    }

    pub fn from_str(s: &str) -> (r: Option<ObsidianCalloutType>)
        ensures
            r == callout_of_bytes(s.spec_bytes()),
    {
        let bytes = s.as_bytes();
        if case_insensitive_eq(bytes, "note".as_bytes()) {
            Some(ObsidianCalloutType::Note)
        } else if case_insensitive_eq(bytes, "tip".as_bytes()) {
            Some(ObsidianCalloutType::Tip)
        } else if case_insensitive_eq(bytes, "warning".as_bytes()) {
            Some(ObsidianCalloutType::Warning)
        } else if case_insensitive_eq(bytes, "important".as_bytes()) {
            Some(ObsidianCalloutType::Important)
        } else if case_insensitive_eq(bytes, "info".as_bytes()) {
            Some(ObsidianCalloutType::Info)
        } else if case_insensitive_eq(bytes, "question".as_bytes()) {
            Some(ObsidianCalloutType::Question)
        } else if case_insensitive_eq(bytes, "error".as_bytes()) {
            Some(ObsidianCalloutType::Error)
        } else {
            None
        }
    }

    /// The CSS class a callout kind renders as: its canonical name.
    pub fn to_class(&self) -> (r: &'static str)
        ensures
            r@ == callout_name(*self),
    {
        self.as_str()
    }
}

/// Maps admonition tags found in markdown to callout kinds.
pub struct ObsidianCalloutsHandler;

impl ObsidianCalloutsHandler {
    pub fn handle_admonition_tag(&mut self, tag: &str) -> (r: Option<ObsidianCalloutType>)
        ensures
            r == callout_of_bytes(tag.spec_bytes()),
    {
        ObsidianCalloutType::from_str(tag)
    }
}

} // verus!
