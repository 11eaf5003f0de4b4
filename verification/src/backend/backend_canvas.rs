//! Logic of the HTML canvas backend that does not need the browser.

pub mod register_fonts;
pub mod text_layout;

use vstd::prelude::*;
use crate::object2d::text::{FontWeight, weight_value, decimal};

verus! {

/// The CSS `font-weight` value of a font weight: its number, in decimal.
pub fn font_weight_to_css(weight: &FontWeight) -> (css: &'static str)
    ensures
        css@ == decimal(weight_value(*weight)),
{
    proof {
        reveal_with_fuel(decimal, 3);
    }
    match weight {
        FontWeight::Thin => {
            proof { reveal_strlit("100"); }
            assert(decimal(100) =~= seq!['1', '0', '0']);
            "100"
        },
        FontWeight::ExtraLight => {
            proof { reveal_strlit("200"); }
            assert(decimal(200) =~= seq!['2', '0', '0']);
            "200"
        },
        FontWeight::Light => {
            proof { reveal_strlit("300"); }
            assert(decimal(300) =~= seq!['3', '0', '0']);
            "300"
        },
        FontWeight::Regular => {
            proof { reveal_strlit("400"); }
            assert(decimal(400) =~= seq!['4', '0', '0']);
            "400"
        },
        FontWeight::Medium => {
            proof { reveal_strlit("500"); }
            assert(decimal(500) =~= seq!['5', '0', '0']);
            "500"
        },
        FontWeight::SemiBold => {
            proof { reveal_strlit("600"); }
            assert(decimal(600) =~= seq!['6', '0', '0']);
            "600"
        },
        FontWeight::Bold => {
            proof { reveal_strlit("700"); }
            assert(decimal(700) =~= seq!['7', '0', '0']);
            "700"
        },
        FontWeight::ExtraBold => {
            proof { reveal_strlit("800"); }
            assert(decimal(800) =~= seq!['8', '0', '0']);
            "800"
        },
        FontWeight::Black => {
            proof { reveal_strlit("900"); }
            assert(decimal(900) =~= seq!['9', '0', '0']);
            "900"
        },
    }
}

} // verus!
