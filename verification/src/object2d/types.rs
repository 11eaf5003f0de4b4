//! Backend-agnostic font family with an owned name, convertible to its CSS text.

use vstd::prelude::*;
use vstd::std_specs::convert::FromSpecImpl;

verus! {

/// Unified font family enum for all backends.
#[derive(Debug, Clone, PartialEq)]
pub enum Family {
    Name(String),
    SansSerif,
    Serif,
    Monospace,
    Cursive,
    Fantasy,
}

/// The text of a font family: the name of a named family, the CSS keyword of a
/// generic one.
pub open spec fn family_text(f: Family) -> Seq<char> {
    match f {
        Family::Name(name) => name@,
        Family::SansSerif => "sans-serif"@,
        Family::Serif => "serif"@,
        Family::Monospace => "monospace"@,
        Family::Cursive => "cursive"@,
        Family::Fantasy => "fantasy"@,
    }
}

/// The text of a family, as an owned string.
fn family_string(family: &Family) -> (s: String)
    ensures
        s@ == family_text(*family),
{
    match family {
        Family::Name(name) => name.clone(),
        Family::SansSerif => String::from_str("sans-serif"),
        Family::Serif => String::from_str("serif"),
        Family::Monospace => String::from_str("monospace"),
        Family::Cursive => String::from_str("cursive"),
        Family::Fantasy => String::from_str("fantasy"),
    }
}

impl<'a> From<&'a Family> for String {
    fn from(family: &'a Family) -> (s: String)
        ensures
            s@ == family_text(*family),
    {
        family_string(family)
    }
}

impl<'a> FromSpecImpl<&'a Family> for String {
    open spec fn obeys_from_spec() -> bool {
        false
    }

    open spec fn from_spec(family: &'a Family) -> String {
        arbitrary()
    }
}

impl From<Family> for String {
    fn from(family: Family) -> (s: String)
        ensures
            s@ == family_text(family),
    {
        family_string(&family)
    }
}

impl FromSpecImpl<Family> for String {
    open spec fn obeys_from_spec() -> bool {
        false
    }

    open spec fn from_spec(family: Family) -> String {
        arbitrary()
    }
}

impl Family {
    /// Helper to create a `Family::Name` from a string.
    pub fn name(name: &str) -> (family: Self)
        ensures
            family matches Family::Name(n) && n@ == name@,
    {
        Family::Name(String::from_str(name))
    }
}

/// A named family converts to its name unchanged, and each generic family to its CSS
/// keyword: converting never shortens, splits or rewrites a name.
pub proof fn lemma_family_text_is_name(family: Family, n: String)
    ensures
        family == Family::Name(n) ==> family_text(family) == n@,
        family == Family::SansSerif ==> family_text(family) == "sans-serif"@,
        family == Family::Serif ==> family_text(family) == "serif"@,
        family == Family::Monospace ==> family_text(family) == "monospace"@,
        family == Family::Cursive ==> family_text(family) == "cursive"@,
        family == Family::Fantasy ==> family_text(family) == "fantasy"@,
{
}

} // verus!
