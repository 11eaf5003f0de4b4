//! Font families of text objects.

use vstd::prelude::*;

verus! {

/// Represents a font family for text rendering.
#[derive(Debug, Clone, PartialEq, Eq, Hash)]
pub enum Family {
    /// A named font family (e.g., "Arial").
    Name(String),
    /// A generic sans-serif font family.
    SansSerif,
    /// A generic serif font family.
    Serif,
    /// A generic monospace font family.
    Monospace,
    /// A generic cursive font family.
    Cursive,
    /// A generic fantasy font family.
    Fantasy,
}

/// The CSS text of a font family: the name of a named family, the CSS keyword of a
/// generic one.
pub open spec fn family_css(f: Family) -> Seq<char> {
    match f {
        Family::Name(name) => name@,
        Family::SansSerif => "sans-serif"@,
        Family::Serif => "serif"@,
        Family::Monospace => "monospace"@,
        Family::Cursive => "cursive"@,
        Family::Fantasy => "fantasy"@,
    }
}

impl Family {
    /// Returns the CSS string representation of the font family.
    pub fn as_str(&self) -> (css: &str)
        ensures
            css@ == family_css(*self),
    {
        match self {
            Family::Name(name) => name.as_str(),
            Family::SansSerif => "sans-serif",
            Family::Serif => "serif",
            Family::Monospace => "monospace",
            Family::Cursive => "cursive",
            Family::Fantasy => "fantasy",
        }
    }

    /// Creates a named font family from a string.
    pub fn name(s: &str) -> (family: Self)
        ensures
            family matches Family::Name(n) && n@ == s@,
    {
        Family::Name(String::from_str(s))
    }
}

/// A named family shows its name: `name` then `as_str` gives back the text.
pub proof fn lemma_name_as_str_round_trip(s: Seq<char>, family: Family)
    requires
        family matches Family::Name(n) && n@ == s,
    ensures
        family_css(family) == s,
{
}

/// The CSS text of a named family is its name unchanged, and that of each generic
/// family its CSS keyword.
pub proof fn lemma_family_css_is_name(family: Family, n: String)
    ensures
        family == Family::Name(n) ==> family_css(family) == n@,
        family == Family::SansSerif ==> family_css(family) == "sans-serif"@,
        family == Family::Serif ==> family_css(family) == "serif"@,
        family == Family::Monospace ==> family_css(family) == "monospace"@,
        family == Family::Cursive ==> family_css(family) == "cursive"@,
        family == Family::Fantasy ==> family_css(family) == "fantasy"@,
{
}

} // verus!
