//! Font attributes of text objects.

pub mod family;

pub use family::Family;

use vstd::prelude::*;

verus! {

/// Represents the weight (thickness) of a font.
#[derive(Debug, Clone, Copy, PartialEq, Eq, Structural)]
pub enum FontWeight {
    /// Thin (100)
    Thin,
    /// Extra Light (200)
    ExtraLight,
    /// Light (300)
    Light,
    /// Regular (400)
    Regular,
    /// Medium (500)
    Medium,
    /// Semi Bold (600)
    SemiBold,
    /// Bold (700)
    Bold,
    /// Extra Bold (800)
    ExtraBold,
    /// Black (900)
    Black,
}

/// The numeric weight that the documentation gives for each font weight.
pub open spec fn weight_value(w: FontWeight) -> nat {
    match w {
        FontWeight::Thin => 100,
        FontWeight::ExtraLight => 200,
        FontWeight::Light => 300,
        FontWeight::Regular => 400,
        FontWeight::Medium => 500,
        FontWeight::SemiBold => 600,
        FontWeight::Bold => 700,
        FontWeight::ExtraBold => 800,
        FontWeight::Black => 900,
    }
}

/// Position of a weight in the declaration order, from thinnest (0) to heaviest (8).
pub open spec fn weight_rank(w: FontWeight) -> nat {
    match w {
        FontWeight::Thin => 0,
        FontWeight::ExtraLight => 1,
        FontWeight::Light => 2,
        FontWeight::Regular => 3,
        FontWeight::Medium => 4,
        FontWeight::SemiBold => 5,
        FontWeight::Bold => 6,
        FontWeight::ExtraBold => 7,
        FontWeight::Black => 8,
    }
}

/// The ASCII digit character for a value below ten.
pub open spec fn digit_char(d: nat) -> char {
    if d == 0 { '0' }
    else if d == 1 { '1' }
    else if d == 2 { '2' }
    else if d == 3 { '3' }
    else if d == 4 { '4' }
    else if d == 5 { '5' }
    else if d == 6 { '6' }
    else if d == 7 { '7' }
    else if d == 8 { '8' }
    else { '9' }
}

/// Decimal notation of a natural number, without leading zeros.
pub open spec fn decimal(n: nat) -> Seq<char>
    decreases n,
{
    if n < 10 {
        seq![digit_char(n)]
    } else {
        decimal(n / 10).push(digit_char(n % 10))
    }
}

/// Weights are numbered by hundreds in declaration order: the heavier a weight is
/// declared, the larger its number.
pub proof fn lemma_weight_value_follows_order(a: FontWeight, b: FontWeight)
    ensures
        weight_value(a) == 100 * (weight_rank(a) + 1),
        weight_rank(a) < weight_rank(b) <==> weight_value(a) < weight_value(b),
        weight_value(a) == weight_value(b) <==> a == b,
{
}

} // verus!
