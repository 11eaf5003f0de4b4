//! Backend pieces shared by every renderer: the font registration error, and the
//! canvas backend's logic.

pub mod backend_canvas;

use vstd::prelude::*;

verus! {

/// Errors that can happen when registering fonts.
#[derive(Debug)]
pub enum RegisterFontsError {
    NoFontsProvided,
    NoWindow,
    NoDocument,
    FontParseFailed,
    FontFaceError(String),
    AddFontError(String),
    NoValidFontLoaded,
}

/// The message that describes a font registration error.
pub open spec fn register_fonts_error_message(e: RegisterFontsError) -> Seq<char> {
    match e {
        RegisterFontsError::NoFontsProvided => "No fonts provided"@,
        RegisterFontsError::NoWindow => "No window available"@,
        RegisterFontsError::NoDocument => "No document available"@,
        RegisterFontsError::FontParseFailed => "Failed to parse font data"@,
        RegisterFontsError::FontFaceError(error) => "FontFace error: "@ + error@,
        RegisterFontsError::AddFontError(error) => "Add font error: "@ + error@,
        RegisterFontsError::NoValidFontLoaded => "No valid font loaded"@,
    }
}

impl RegisterFontsError {
    /// The human-readable description of the error.
    pub fn message(&self) -> (msg: String)
        ensures
            msg@ == register_fonts_error_message(*self),
    {
        match self {
            RegisterFontsError::NoFontsProvided => String::from_str("No fonts provided"),
            RegisterFontsError::NoWindow => String::from_str("No window available"),
            RegisterFontsError::NoDocument => String::from_str("No document available"),
            RegisterFontsError::FontParseFailed => String::from_str("Failed to parse font data"),
            RegisterFontsError::FontFaceError(error) => String::from_str("FontFace error: ").concat(
                error.as_str(),
            ),
            RegisterFontsError::AddFontError(error) => String::from_str("Add font error: ").concat(
                error.as_str(),
            ),
            RegisterFontsError::NoValidFontLoaded => String::from_str("No valid font loaded"),
        }
    }
}

} // verus!
