//! Value extractors: how the raw line of a pseudo-file becomes the value
//! stored for its control point, and what is written back to it.
use vstd::prelude::*;

use crate::text::{find_char, find_from, lemma_find_from_bounds, slice_string, to_chars};

verus! {

/// A normalisation of the trimmed line that a pseudo-file reads as.
#[derive(Clone, Copy, PartialEq, Eq, Structural, Debug)]
pub enum Extractor {
    /// The line as it reads.
    Identity,
    /// The option between `[` and `]` of a kernel choice list such as
    /// `[default] performance powersave`.
    BracketedChoice,
}

/// The bracketed token of a choice list. Without `[` the token starts at the
/// beginning; without a `]` after its start it runs to the end.
pub open spec fn choice_of(s: Seq<char>) -> Seq<char> {
    let open = find_from(s, '[', 0);
    let start = if open < s.len() {
        open + 1
    } else {
        0
    };
    s.subrange(start, find_from(s, ']', start))
}

impl Extractor {
    pub open spec fn spec_extract(self, raw: Seq<char>) -> Seq<char> {
        match self {
            Extractor::Identity => raw,
            Extractor::BracketedChoice => choice_of(raw),
        }
    }

    /// Applies this extractor to `raw`; it never fails.
    pub fn extract(&self, raw: &str) -> (r: String)
        ensures
            r@ == self.spec_extract(raw@),
    {
        match self {
            Extractor::Identity => String::from_str(raw),
            Extractor::BracketedChoice => {
                let chars = to_chars(raw);
                let open = find_char(&chars, '[', 0);
                proof {
                    lemma_find_from_bounds(chars@, '[', 0);
                }
                let start = if open < chars.len() {
                    open + 1
                } else {
                    0
                };
                let end = find_char(&chars, ']', start);
                proof {
                    lemma_find_from_bounds(chars@, ']', start as int);
                }
                slice_string(raw, start, end)
            },
        }
    }
}

} // verus!
