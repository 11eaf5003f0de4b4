use fast2d::backend::backend_canvas::register_fonts::{
    contains_text, descriptor_from_names, describe_font, font_style_and_weight, FontName,
    FontRegistration, FAMILY_NAME_ID, SUBFAMILY_NAME_ID,
};
use fast2d::RegisterFontsError;

fn be16(out: &mut Vec<u8>, v: u16) {
    out.extend_from_slice(&v.to_be_bytes());
}

fn be32(out: &mut Vec<u8>, v: u32) {
    out.extend_from_slice(&v.to_be_bytes());
}

/// A minimal OpenType font: `head`, `hhea`, `maxp` and a `name` table holding the
/// given records (Windows platform, Unicode BMP encoding).
fn minimal_font(names: &[(u16, &str)]) -> Vec<u8> {
    let mut head = vec![0u8; 54];
    head[18..20].copy_from_slice(&1000u16.to_be_bytes());
    let hhea = vec![0u8; 36];
    let mut maxp = Vec::new();
    be32(&mut maxp, 0x0000_5000);
    be16(&mut maxp, 1);

    let mut storage = Vec::new();
    let mut records = Vec::new();
    for (id, text) in names {
        let encoded: Vec<u8> = text.encode_utf16().flat_map(|u| u.to_be_bytes()).collect();
        be16(&mut records, 3);
        be16(&mut records, 1);
        be16(&mut records, 0x0409);
        be16(&mut records, *id);
        be16(&mut records, encoded.len() as u16);
        be16(&mut records, storage.len() as u16);
        storage.extend_from_slice(&encoded);
    }
    let mut name = Vec::new();
    be16(&mut name, 0);
    be16(&mut name, names.len() as u16);
    be16(&mut name, (6 + records.len()) as u16);
    name.extend_from_slice(&records);
    name.extend_from_slice(&storage);

    let tables: Vec<(&[u8; 4], Vec<u8>)> =
        vec![(b"head", head), (b"hhea", hhea), (b"maxp", maxp), (b"name", name)];
    let mut font = Vec::new();
    be32(&mut font, 0x0001_0000);
    be16(&mut font, tables.len() as u16);
    be16(&mut font, 64);
    be16(&mut font, 2);
    be16(&mut font, 0);
    let mut offset = 12 + 16 * tables.len();
    for (tag, data) in &tables {
        font.extend_from_slice(*tag);
        be32(&mut font, 0);
        be32(&mut font, offset as u32);
        be32(&mut font, data.len() as u32);
        offset += data.len();
    }
    for (_, data) in &tables {
        font.extend_from_slice(data);
    }
    font
}

fn name(id: u16, text: Option<&str>) -> FontName {
    FontName { name_id: id, text: text.map(|t| t.to_string()) }
}

#[test]
fn contains_text_finds_runs() {
    assert!(contains_text("bold italic", "italic"));
    assert!(contains_text("abc", ""));
    assert!(contains_text("", ""));
    assert!(!contains_text("ital", "italic"));
    assert!(!contains_text("bold", "blod"));
}

#[test]
fn style_and_weight_of_subfamilies() {
    assert_eq!(font_style_and_weight("regular"), ("normal", "400"));
    assert_eq!(font_style_and_weight("bold"), ("normal", "bold"));
    assert_eq!(font_style_and_weight("bold italic"), ("italic", "bold"));
    assert_eq!(font_style_and_weight("light"), ("normal", "300"));
    assert_eq!(font_style_and_weight("medium italic"), ("italic", "500"));
    assert_eq!(font_style_and_weight("black"), ("normal", "900"));
    assert_eq!(font_style_and_weight("italic"), ("italic", "400"));
}

#[test]
fn semibold_is_read_as_bold() {
    // "bold" is looked for first, and "semibold" contains it.
    assert_eq!(font_style_and_weight("semibold"), ("normal", "bold"));
}

#[test]
fn descriptor_reads_family_and_lowercased_subfamily() {
    let names = vec![name(FAMILY_NAME_ID, Some("Inter")), name(SUBFAMILY_NAME_ID, Some("Bold Italic"))];
    let d = descriptor_from_names(&names).unwrap();
    assert_eq!(d.family, "Inter");
    assert_eq!(d.style, "italic");
    assert_eq!(d.weight, "bold");
}

#[test]
fn descriptor_takes_first_family_with_text_and_first_subfamily() {
    let names = vec![
        name(5, Some("Version 1.0")),
        name(FAMILY_NAME_ID, None),
        name(SUBFAMILY_NAME_ID, Some("Light")),
        name(FAMILY_NAME_ID, Some("Fira Code")),
        name(FAMILY_NAME_ID, Some("Other")),
        name(SUBFAMILY_NAME_ID, Some("Bold")),
    ];
    let d = descriptor_from_names(&names).unwrap();
    assert_eq!(d.family, "Fira Code");
    assert_eq!(d.style, "normal");
    assert_eq!(d.weight, "300");
}

#[test]
fn descriptor_subfamily_without_text_is_regular() {
    let names = vec![name(FAMILY_NAME_ID, Some("Inter")), name(SUBFAMILY_NAME_ID, None)];
    let d = descriptor_from_names(&names).unwrap();
    assert_eq!((d.style, d.weight), ("normal", "400"));
}

#[test]
fn descriptor_without_family_or_subfamily_fails() {
    let no_family = vec![name(SUBFAMILY_NAME_ID, Some("Regular")), name(FAMILY_NAME_ID, None)];
    assert!(matches!(descriptor_from_names(&no_family), Err(RegisterFontsError::FontParseFailed)));
    let no_subfamily = vec![name(FAMILY_NAME_ID, Some("Inter"))];
    assert!(matches!(descriptor_from_names(&no_subfamily), Err(RegisterFontsError::FontParseFailed)));
    assert!(matches!(descriptor_from_names(&Vec::new()), Err(RegisterFontsError::FontParseFailed)));
}

#[test]
fn describe_font_rejects_non_font_data() {
    assert!(matches!(describe_font(&[]), Err(RegisterFontsError::FontParseFailed)));
    assert!(matches!(describe_font(b"not a font at all"), Err(RegisterFontsError::FontParseFailed)));
}

#[test]
fn describe_font_reads_a_font_file() {
    let font = minimal_font(&[(FAMILY_NAME_ID, "Inter"), (SUBFAMILY_NAME_ID, "BOLD ITALIC")]);
    let d = describe_font(&font).unwrap();
    assert_eq!(d.family, "Inter");
    assert_eq!(d.style, "italic");
    assert_eq!(d.weight, "bold");
}

#[test]
fn describe_font_without_names_fails() {
    let font = minimal_font(&[(FAMILY_NAME_ID, "Inter")]);
    assert!(matches!(describe_font(&font), Err(RegisterFontsError::FontParseFailed)));
}

#[test]
fn registration_without_fonts_fails() {
    assert!(matches!(FontRegistration::start(0), Err(RegisterFontsError::NoFontsProvided)));
}

#[test]
fn registration_outcomes() {
    let mut reg = FontRegistration::start(2).unwrap();
    assert!(matches!(reg.finish(0), Err(RegisterFontsError::NoValidFontLoaded)));
    assert!(reg.finish(3).is_ok());
    reg.font_loaded();
    assert!(reg.finish(0).is_ok());
}

#[test]
fn registration_skips_a_font_that_does_not_parse() {
    let fonts = vec![
        minimal_font(&[(FAMILY_NAME_ID, "Inter"), (SUBFAMILY_NAME_ID, "Regular")]),
        b"not a font".to_vec(),
    ];
    let mut reg = FontRegistration::start(fonts.len()).unwrap();
    let mut loaded = Vec::new();
    for bytes in &fonts {
        match describe_font(bytes) {
            Ok(d) => {
                loaded.push(d.family);
                reg.font_loaded();
            }
            Err(_) => reg.font_failed(),
        }
    }
    assert_eq!(loaded, vec!["Inter".to_string()]);
    assert!(reg.finish(0).is_ok());
}

#[test]
fn registration_where_every_font_fails() {
    let mut reg = FontRegistration::start(2).unwrap();
    reg.font_failed();
    reg.font_failed();
    assert!(matches!(reg.finish(0), Err(RegisterFontsError::NoValidFontLoaded)));
    assert!(reg.finish(1).is_ok());
}
