//! Filters: named, pure text-to-text transformations that a value block
//! can pipe its value through.

use vstd::prelude::*;

verus! {

/// An enumerated transformation over text.
#[derive(Debug, Clone, Copy, PartialEq, Eq, Structural)]
pub enum Filter {
    Uppercase,
    Lowercase,
}

/// The uppercase form of a character sequence, as `str::to_uppercase`
/// computes it.
pub uninterp spec fn upper_of(s: Seq<char>) -> Seq<char>;

/// The lowercase form of a character sequence, as `str::to_lowercase`
/// computes it.
pub uninterp spec fn lower_of(s: Seq<char>) -> Seq<char>;

/// Relies on `str::to_uppercase`: the Unicode uppercase mapping of the
/// text, a function of the characters alone.
#[verifier::external_body]
fn to_upper(s: &str) -> (r: String)
    ensures
        r@ == upper_of(s@),
{
    s.to_uppercase()
}

/// Relies on `str::to_lowercase`: the Unicode lowercase mapping of the
/// text, a function of the characters alone.
#[verifier::external_body]
fn to_lower(s: &str) -> (r: String)
    ensures
        r@ == lower_of(s@),
{
    s.to_lowercase()
}

/// What applying a filter to a text yields.
pub open spec fn spec_apply_filter(f: Filter, s: Seq<char>) -> Seq<char> {
    match f {
        Filter::Uppercase => upper_of(s),
        Filter::Lowercase => lower_of(s),
    }
}

impl Filter {
    /// Apply the filter to `target`, yielding the transformed text.
    pub fn apply_on(&self, target: String) -> (r: String)
        ensures
            r@ == spec_apply_filter(*self, target@),
    {
        match self {
            Filter::Uppercase => to_upper(target.as_str()),
            Filter::Lowercase => to_lower(target.as_str()),
        }
    }
}

} // verus!
