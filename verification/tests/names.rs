use fast2d::fetch_file::check_url;
use fast2d::object2d::types;
use fast2d::{font_weight_to_css, Family, FetchFileError, FontWeight, RegisterFontsError};

#[test]
fn css_weights_are_the_documented_numbers() {
    let all = [
        (FontWeight::Thin, "100"),
        (FontWeight::ExtraLight, "200"),
        (FontWeight::Light, "300"),
        (FontWeight::Regular, "400"),
        (FontWeight::Medium, "500"),
        (FontWeight::SemiBold, "600"),
        (FontWeight::Bold, "700"),
        (FontWeight::ExtraBold, "800"),
        (FontWeight::Black, "900"),
    ];
    for (w, css) in all {
        assert_eq!(font_weight_to_css(&w), css);
    }
}

#[test]
fn css_weights_increase_with_declaration_order() {
    let order = [
        FontWeight::Thin,
        FontWeight::ExtraLight,
        FontWeight::Light,
        FontWeight::Regular,
        FontWeight::Medium,
        FontWeight::SemiBold,
        FontWeight::Bold,
        FontWeight::ExtraBold,
        FontWeight::Black,
    ];
    let numbers: Vec<u32> = order.iter().map(|w| font_weight_to_css(w).parse().unwrap()).collect();
    assert!(numbers.windows(2).all(|p| p[0] < p[1]));
}

#[test]
fn family_as_str() {
    assert_eq!(Family::SansSerif.as_str(), "sans-serif");
    assert_eq!(Family::Serif.as_str(), "serif");
    assert_eq!(Family::Monospace.as_str(), "monospace");
    assert_eq!(Family::Cursive.as_str(), "cursive");
    assert_eq!(Family::Fantasy.as_str(), "fantasy");
    assert_eq!(Family::Name("Arial".to_string()).as_str(), "Arial");
}

#[test]
fn family_name_round_trip() {
    let f = Family::name("Fira Code");
    assert_eq!(f, Family::Name("Fira Code".to_string()));
    assert_eq!(f.as_str(), "Fira Code");
}

#[test]
fn owned_family_to_string() {
    assert_eq!(String::from(&types::Family::SansSerif), "sans-serif");
    assert_eq!(String::from(types::Family::Serif), "serif");
    assert_eq!(String::from(types::Family::Monospace), "monospace");
    assert_eq!(String::from(&types::Family::Cursive), "cursive");
    assert_eq!(String::from(&types::Family::Fantasy), "fantasy");
    let named = types::Family::name("Inter");
    assert_eq!(String::from(&named), "Inter");
    assert_eq!(String::from(named), "Inter");
}

#[test]
fn register_fonts_error_messages() {
    assert_eq!(RegisterFontsError::NoFontsProvided.message(), "No fonts provided");
    assert_eq!(RegisterFontsError::NoWindow.message(), "No window available");
    assert_eq!(RegisterFontsError::NoDocument.message(), "No document available");
    assert_eq!(RegisterFontsError::FontParseFailed.message(), "Failed to parse font data");
    assert_eq!(
        RegisterFontsError::FontFaceError("SyntaxError".to_string()).message(),
        "FontFace error: SyntaxError"
    );
    assert_eq!(
        RegisterFontsError::AddFontError("bad".to_string()).message(),
        "Add font error: bad"
    );
    assert_eq!(RegisterFontsError::NoValidFontLoaded.message(), "No valid font loaded");
}

#[test]
fn fetch_file_error_messages() {
    let url = "/fonts/Inter.ttf".to_string();
    let error = "TypeError".to_string();
    assert_eq!(FetchFileError::EmptyUrl.message(), "URL is empty");
    assert_eq!(
        FetchFileError::NoWindow { url: url.clone() }.message(),
        "No window available for URL: /fonts/Inter.ttf"
    );
    assert_eq!(
        FetchFileError::FetchFailed { url: url.clone(), error: error.clone() }.message(),
        "Failed to fetch '/fonts/Inter.ttf': TypeError"
    );
    assert_eq!(
        FetchFileError::ResponseCastFailed { url: url.clone(), error: error.clone() }.message(),
        "Failed to cast response for '/fonts/Inter.ttf': TypeError"
    );
    assert_eq!(
        FetchFileError::ArrayBufferFailed { url: url.clone(), error: error.clone() }.message(),
        "Failed to get ArrayBuffer for '/fonts/Inter.ttf': TypeError"
    );
    assert_eq!(
        FetchFileError::ArrayBufferPromiseFailed { url: url.clone(), error: error.clone() }.message(),
        "Failed to resolve ArrayBuffer promise for '/fonts/Inter.ttf': TypeError"
    );
    assert_eq!(
        FetchFileError::BufferCastFailed { url, error }.message(),
        "Failed to cast buffer for '/fonts/Inter.ttf': TypeError"
    );
}

#[test]
fn empty_url_is_refused() {
    assert!(matches!(check_url(""), Err(FetchFileError::EmptyUrl)));
    assert!(check_url("/_api/public/fonts/Inter-Regular.ttf").is_ok());
}
