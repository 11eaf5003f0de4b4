//! The decisions of font registration on the canvas backend: which family, style and
//! weight a font file declares, and when registration fails.

use vstd::prelude::*;
use crate::backend::RegisterFontsError;
use super::text_layout::chars_of;

verus! {

/// OpenType `name` table identifier of the font family name.
pub const FAMILY_NAME_ID: u16 = 1;

/// OpenType `name` table identifier of the font subfamily (style) name.
pub const SUBFAMILY_NAME_ID: u16 = 2;

/// One record of a font's naming table: its identifier, and its text when the
/// record is stored in a Unicode encoding.
pub struct FontName {
    pub name_id: u16,
    pub text: Option<String>,
}

/// The plain value of a naming record.
pub open spec fn font_name_view(n: FontName) -> (u16, Option<Seq<char>>) {
    (n.name_id, match n.text {
        Some(t) => Some(t@),
        None => None,
    })
}

/// The plain values of naming records.
pub open spec fn font_names_view(v: Seq<FontName>) -> Seq<(u16, Option<Seq<char>>)> {
    v.map_values(|n: FontName| font_name_view(n))
}

/// The naming records that `ttf_parser` reads from font data (face 0), in table
/// order; `None` when the data does not parse as a font.
pub uninterp spec fn font_names_in(data: Seq<u8>) -> Option<Seq<(u16, Option<Seq<char>>)>>;

/// Parses `data` with `ttf_parser::Face::parse` (face index 0) and lists its naming
/// table with `Face::names`, each record's text taken by `Name::to_string`.
/// Trusted: the result is `font_names_in` of the data; nothing more is claimed of it.
#[verifier::external_body]
fn read_font_names(data: &[u8]) -> (names: Option<Vec<FontName>>)
    ensures
        names is Some <==> font_names_in(data@) is Some,
        names matches Some(v) ==> font_names_view(v@) == font_names_in(data@)->0,
{
    match ttf_parser::Face::parse(data, 0) {
        Ok(face) => Some(
            face.names().into_iter().map(|n| FontName { name_id: n.name_id, text: n.to_string() }).collect(),
        ),
        Err(_) => None,
    }
}

/// The lowercase mapping of a text, as `str::to_lowercase` computes it.
pub uninterp spec fn lowercase(s: Seq<char>) -> Seq<char>;

/// Calls `str::to_lowercase`. Trusted: the result is `lowercase` of the text.
#[verifier::external_body]
fn to_lowercase(s: &str) -> (lower: String)
    ensures
        lower@ == lowercase(s@),
{
    s.to_lowercase()
}

/// Whether `needle` occurs in `haystack` as a run of consecutive characters.
pub open spec fn contains_seq(haystack: Seq<char>, needle: Seq<char>) -> bool {
    exists|i: int|
        0 <= i && i + needle.len() <= haystack.len() && #[trigger] haystack.subrange(
            i,
            i + needle.len(),
        ) == needle
}

/// Whether `needle` occurs in `haystack` at position `i`.
fn occurs_at(haystack: &Vec<char>, needle: &Vec<char>, i: usize) -> (b: bool)
    requires
        i + needle@.len() <= haystack@.len(),
    ensures
        b == (haystack@.subrange(i as int, i + needle@.len()) == needle@),
{
    let m = needle.len();
    let mut j: usize = 0;
    while j < m
        invariant
            m == needle@.len(),
            i + m <= haystack.len(),
            j <= m,
            forall|k: int| 0 <= k < j ==> haystack@[i + k] == needle@[k],
        decreases m - j,
    {
        if haystack[i + j] != needle[j] {
            assert(haystack@.subrange(i as int, i + m)[j as int] != needle@[j as int]);
            return false;
        }
        j = j + 1;
    }
    assert(haystack@.subrange(i as int, i + m) =~= needle@);
    true
}

/// Whether `needle` occurs in `haystack`, as `str::contains` answers for a string
/// pattern.
pub fn contains_text(haystack: &str, needle: &str) -> (b: bool)
    ensures
        b == contains_seq(haystack@, needle@),
{
    let h = chars_of(haystack);
    let n = chars_of(needle);
    if n.len() > h.len() {
        return false;
    }
    let last = h.len() - n.len();
    let mut i: usize = 0;
    loop
        invariant
            h@ == haystack@,
            n@ == needle@,
            last + n@.len() == h@.len(),
            i <= last,
            forall|k: int| 0 <= k < i ==> #[trigger] h@.subrange(k, k + n@.len()) != n@,
        decreases last - i,
    {
        if occurs_at(&h, &n, i) {
            return true;
        }
        if i == last {
            assert forall|k: int|
                0 <= k && k + needle@.len() <= haystack@.len() implies #[trigger] haystack@.subrange(
                k,
                k + needle@.len(),
            ) != needle@ by {
                assert(k <= i);
            }
            return false;
        }
        i = i + 1;
    }
}

/// The CSS `font-style` that a lowercased subfamily name declares.
pub open spec fn style_for(subfamily: Seq<char>) -> Seq<char> {
    if contains_seq(subfamily, "italic"@) {
        "italic"@
    } else {
        "normal"@
    }
}

/// The CSS `font-weight` that a lowercased subfamily name declares; the first
/// keyword found, in this order, decides.
pub open spec fn weight_for(subfamily: Seq<char>) -> Seq<char> {
    if contains_seq(subfamily, "bold"@) {
        "bold"@
    } else if contains_seq(subfamily, "light"@) {
        "300"@
    } else if contains_seq(subfamily, "medium"@) {
        "500"@
    } else if contains_seq(subfamily, "semibold"@) {
        "600"@
    } else if contains_seq(subfamily, "black"@) {
        "900"@
    } else {
        "400"@
    }
}

/// The CSS style and weight declared by a lowercased subfamily name.
pub fn font_style_and_weight(subfamily: &str) -> (style_weight: (&'static str, &'static str))
    ensures
        style_weight.0@ == style_for(subfamily@),
        style_weight.1@ == weight_for(subfamily@),
{
    let style = if contains_text(subfamily, "italic") {
        "italic"
    } else {
        "normal"
    };
    let weight = if contains_text(subfamily, "bold") {
        "bold"
    } else if contains_text(subfamily, "light") {
        "300"
    } else if contains_text(subfamily, "medium") {
        "500"
    } else if contains_text(subfamily, "semibold") {
        "600"
    } else if contains_text(subfamily, "black") {
        "900"
    } else {
        "400"
    };
    (style, weight)
}

} // verus!

verus! {

/// The family name of a font: the text of its first family record that has one.
pub open spec fn first_family(names: Seq<(u16, Option<Seq<char>>)>) -> Option<Seq<char>>
    decreases names.len(),
{
    if names.len() == 0 {
        None
    } else if names[0].0 == FAMILY_NAME_ID && names[0].1 is Some {
        names[0].1
    } else {
        first_family(names.drop_first())
    }
}

/// The subfamily name of a font: the text of its first subfamily record, empty when
/// that record has no text; `None` when there is no subfamily record.
pub open spec fn first_subfamily(names: Seq<(u16, Option<Seq<char>>)>) -> Option<Seq<char>>
    decreases names.len(),
{
    if names.len() == 0 {
        None
    } else if names[0].0 == SUBFAMILY_NAME_ID {
        match names[0].1 {
            Some(t) => Some(t),
            None => Some(Seq::<char>::empty()),
        }
    } else {
        first_subfamily(names.drop_first())
    }
}

/// What a font declares to the browser: its family name, CSS style and CSS weight.
pub struct FontDescriptor {
    pub family: String,
    pub style: &'static str,
    pub weight: &'static str,
}

/// The descriptor that the naming records of a font declare: `None` when they give
/// no family name or no subfamily record.
pub open spec fn declared_descriptor(names: Seq<(u16, Option<Seq<char>>)>) -> Option<
    (Seq<char>, Seq<char>, Seq<char>),
> {
    match (first_family(names), first_subfamily(names)) {
        (Some(family), Some(subfamily)) => Some(
            (family, style_for(lowercase(subfamily)), weight_for(lowercase(subfamily))),
        ),
        _ => None,
    }
}

/// The plain value of a descriptor.
pub open spec fn descriptor_view(d: FontDescriptor) -> (Seq<char>, Seq<char>, Seq<char>) {
    (d.family@, d.style@, d.weight@)
}

/// The result that the naming records of a font lead to.
pub open spec fn describe_outcome(
    r: Result<FontDescriptor, RegisterFontsError>,
    names: Seq<(u16, Option<Seq<char>>)>,
) -> bool {
    match declared_descriptor(names) {
        Some(d) => r matches Ok(desc) && descriptor_view(desc) == d,
        None => r matches Err(RegisterFontsError::FontParseFailed),
    }
}

/// The family found among the first `i + 1` records, from the one found among the
/// first `i`.
proof fn lemma_first_family_take(s: Seq<(u16, Option<Seq<char>>)>, i: int)
    requires
        0 <= i < s.len(),
    ensures
        first_family(s.take(i + 1)) == match first_family(s.take(i)) {
            Some(f) => Some(f),
            None => if s[i].0 == FAMILY_NAME_ID && s[i].1 is Some {
                s[i].1
            } else {
                None
            },
        },
    decreases i,
{
    if i == 0 {
        assert(s.take(1).drop_first() =~= Seq::<(u16, Option<Seq<char>>)>::empty());
        assert(s.take(0) =~= Seq::<(u16, Option<Seq<char>>)>::empty());
    } else {
        let t = s.drop_first();
        lemma_first_family_take(t, i - 1);
        assert(s.take(i + 1).drop_first() =~= t.take(i));
        assert(s.take(i).drop_first() =~= t.take(i - 1));
        assert(t[i - 1] == s[i]);
    }
}

/// The subfamily found among the first `i + 1` records, from the one found among
/// the first `i`.
proof fn lemma_first_subfamily_take(s: Seq<(u16, Option<Seq<char>>)>, i: int)
    requires
        0 <= i < s.len(),
    ensures
        first_subfamily(s.take(i + 1)) == match first_subfamily(s.take(i)) {
            Some(f) => Some(f),
            None => if s[i].0 == SUBFAMILY_NAME_ID {
                match s[i].1 {
                    Some(t) => Some(t),
                    None => Some(Seq::<char>::empty()),
                }
            } else {
                None
            },
        },
    decreases i,
{
    if i == 0 {
        assert(s.take(1).drop_first() =~= Seq::<(u16, Option<Seq<char>>)>::empty());
        assert(s.take(0) =~= Seq::<(u16, Option<Seq<char>>)>::empty());
    } else {
        let t = s.drop_first();
        lemma_first_subfamily_take(t, i - 1);
        assert(s.take(i + 1).drop_first() =~= t.take(i));
        assert(s.take(i).drop_first() =~= t.take(i - 1));
        assert(t[i - 1] == s[i]);
    }
}

/// Reads family, style and weight from the naming records of a font: the first
/// family record with a text gives the family; the first subfamily record,
/// lowercased, gives the style and weight. Fails with `FontParseFailed` when either
/// is missing.
pub fn descriptor_from_names(names: &Vec<FontName>) -> (r: Result<FontDescriptor, RegisterFontsError>)
    ensures
        describe_outcome(r, font_names_view(names@)),
{
    let ghost all = font_names_view(names@);
    let mut family: Option<String> = None;
    let mut style_weight: Option<(&'static str, &'static str)> = None;
    let mut i: usize = 0;
    assert(all.take(0) =~= Seq::<(u16, Option<Seq<char>>)>::empty());
    while i < names.len()
        invariant
            all == font_names_view(names@),
            i <= names@.len(),
            match family {
                Some(f) => first_family(all.take(i as int)) == Some(f@),
                None => first_family(all.take(i as int)) is None,
            },
            match style_weight {
                Some(sw) => {
                    &&& first_subfamily(all.take(i as int)) is Some
                    &&& sw.0@ == style_for(lowercase(first_subfamily(all.take(i as int))->0))
                    &&& sw.1@ == weight_for(lowercase(first_subfamily(all.take(i as int))->0))
                },
                None => first_subfamily(all.take(i as int)) is None,
            },
        decreases names@.len() - i,
    {
        let name = &names[i];
        proof {
            lemma_first_family_take(all, i as int);
            lemma_first_subfamily_take(all, i as int);
            assert(all[i as int] == font_name_view(names@[i as int]));
        }
        if name.name_id == FAMILY_NAME_ID && family.is_none() {
            family = match &name.text {
                Some(t) => Some(t.clone()),
                None => None,
            };
        }
        if name.name_id == SUBFAMILY_NAME_ID && style_weight.is_none() {
            let subfamily = match &name.text {
                Some(t) => to_lowercase(t.as_str()),
                None => {
                    let empty = String::new();
                    to_lowercase(empty.as_str())
                },
            };
            style_weight = Some(font_style_and_weight(subfamily.as_str()));
        }
        i = i + 1;
    }
    assert(all.take(names@.len() as int) =~= all);
    match (family, style_weight) {
        (Some(family), Some((style, weight))) => Ok(FontDescriptor { family, style, weight }),
        _ => Err(RegisterFontsError::FontParseFailed),
    }
}

} // verus!

verus! {

/// The result that a font file leads to: `FontParseFailed` when it is not a font.
pub open spec fn describe_font_outcome(r: Result<FontDescriptor, RegisterFontsError>, data: Seq<u8>) -> bool {
    match font_names_in(data) {
        Some(names) => describe_outcome(r, names),
        None => r matches Err(RegisterFontsError::FontParseFailed),
    }
}

/// Parses a font file and reads the family, style and weight that it declares.
pub fn describe_font(font_bytes: &[u8]) -> (r: Result<FontDescriptor, RegisterFontsError>)
    ensures
        describe_font_outcome(r, font_bytes@),
{
    match read_font_names(font_bytes) {
        Some(names) => descriptor_from_names(&names),
        None => Err(RegisterFontsError::FontParseFailed),
    }
}

/// The progress of one registration of fonts: how many fonts were handed to the
/// browser so far, and how many were skipped because they could not be loaded.
pub struct FontRegistration {
    loaded: usize,
    failed: usize,
}

impl FontRegistration {
    /// The number of fonts handed to the browser so far.
    pub closed spec fn loaded_count(&self) -> nat {
        self.loaded as nat
    }

    /// The number of fonts skipped so far because they could not be loaded.
    pub closed spec fn failed_count(&self) -> nat {
        self.failed as nat
    }

    /// Starts registering `font_count` fonts; fails with `NoFontsProvided` exactly
    /// when there is none.
    pub fn start(font_count: usize) -> (r: Result<FontRegistration, RegisterFontsError>)
        ensures
            font_count == 0 <==> r matches Err(RegisterFontsError::NoFontsProvided),
            r is Err ==> font_count == 0,
            r matches Ok(reg) ==> reg.loaded_count() == 0 && reg.failed_count() == 0,
    {
        if font_count == 0 {
            Err(RegisterFontsError::NoFontsProvided)
        } else {
            Ok(FontRegistration { loaded: 0, failed: 0 })
        }
    }

    /// Records that one more font was handed to the browser.
    pub fn font_loaded(&mut self)
        requires
            old(self).loaded_count() < usize::MAX,
        ensures
            final(self).loaded_count() == old(self).loaded_count() + 1,
            final(self).failed_count() == old(self).failed_count(),
    {
        self.loaded = self.loaded + 1;
    }

    /// Records that one font could not be loaded (it did not parse, or the browser
    /// refused it) and was skipped: the registration goes on with the next font.
    pub fn font_failed(&mut self)
        requires
            old(self).failed_count() < usize::MAX,
        ensures
            final(self).failed_count() == old(self).failed_count() + 1,
            final(self).loaded_count() == old(self).loaded_count(),
    {
        self.failed = self.failed + 1;
    }

    /// The outcome once every font was handled, given how many faces the document's
    /// font set holds: `Ok` when at least one font was loaded or the set already
    /// holds a face, whatever became of the other fonts; `NoValidFontLoaded`
    /// otherwise.
    pub fn finish(&self, faces_in_set: u32) -> (r: Result<(), RegisterFontsError>)
        ensures
            r is Ok <==> self.loaded_count() > 0 || faces_in_set > 0,
            r is Err ==> r matches Err(RegisterFontsError::NoValidFontLoaded),
    {
        if self.loaded == 0 && faces_in_set == 0 {
            Err(RegisterFontsError::NoValidFontLoaded)
        } else {
            Ok(())
        }
    }
}

} // verus!

verus! {

/// How the weight follows from a lowercased subfamily name: the first of the
/// keywords bold, light, medium, semibold and black that it contains, in that
/// order, decides, with no other condition; without any of them the weight is 400.
pub proof fn lemma_weight_from_first_keyword(s: Seq<char>)
    ensures
        contains_seq(s, "bold"@) ==> weight_for(s) == "bold"@,
        !contains_seq(s, "bold"@) && contains_seq(s, "light"@) ==> weight_for(s) == "300"@,
        !contains_seq(s, "bold"@) && !contains_seq(s, "light"@) && contains_seq(s, "medium"@)
            ==> weight_for(s) == "500"@,
        !contains_seq(s, "bold"@) && !contains_seq(s, "light"@) && !contains_seq(s, "medium"@)
            && contains_seq(s, "semibold"@) ==> weight_for(s) == "600"@,
        !contains_seq(s, "bold"@) && !contains_seq(s, "light"@) && !contains_seq(s, "medium"@)
            && !contains_seq(s, "semibold"@) && contains_seq(s, "black"@) ==> weight_for(s) == "900"@,
        !contains_seq(s, "bold"@) && !contains_seq(s, "light"@) && !contains_seq(s, "medium"@)
            && !contains_seq(s, "semibold"@) && !contains_seq(s, "black"@) ==> weight_for(s) == "400"@,
{
}

/// Two subfamily names that contain the same weight keywords declare the same
/// weight: nothing else in the name matters.
pub proof fn lemma_weight_depends_only_on_keywords(s1: Seq<char>, s2: Seq<char>)
    requires
        contains_seq(s1, "bold"@) == contains_seq(s2, "bold"@),
        contains_seq(s1, "light"@) == contains_seq(s2, "light"@),
        contains_seq(s1, "medium"@) == contains_seq(s2, "medium"@),
        contains_seq(s1, "semibold"@) == contains_seq(s2, "semibold"@),
        contains_seq(s1, "black"@) == contains_seq(s2, "black"@),
    ensures
        weight_for(s1) == weight_for(s2),
{
}

/// The style that a lowercased subfamily name declares is "italic" exactly when the
/// name contains "italic", and "normal" otherwise, whatever weight keywords it holds.
pub proof fn lemma_style_from_italic(s: Seq<char>)
    ensures
        style_for(s) == "italic"@ <==> contains_seq(s, "italic"@),
        style_for(s) == "normal"@ <==> !contains_seq(s, "italic"@),
{
    reveal_strlit("italic");
    reveal_strlit("normal");
    assert("italic"@[0] != "normal"@[0]);
}

} // verus!

verus! {

/// A naming record that gives the family name: a family record with a text.
pub open spec fn gives_family(r: (u16, Option<Seq<char>>)) -> bool {
    r.0 == FAMILY_NAME_ID && r.1 is Some
}

/// A subfamily record.
pub open spec fn is_subfamily_record(r: (u16, Option<Seq<char>>)) -> bool {
    r.0 == SUBFAMILY_NAME_ID
}

/// The text of a record, empty when it has none.
pub open spec fn record_text(r: (u16, Option<Seq<char>>)) -> Seq<char> {
    match r.1 {
        Some(t) => t,
        None => Seq::<char>::empty(),
    }
}

/// `first_family` finds something exactly when some record gives a family name.
proof fn lemma_first_family_exists(names: Seq<(u16, Option<Seq<char>>)>)
    ensures
        first_family(names) is Some <==> exists|i: int| 0 <= i < names.len() && gives_family(#[trigger] names[i]),
    decreases names.len(),
{
    if names.len() > 0 {
        let rest = names.drop_first();
        lemma_first_family_exists(rest);
        if gives_family(names[0]) {
            assert(gives_family(names[0]));
        } else {
            if exists|i: int| 0 <= i < names.len() && gives_family(#[trigger] names[i]) {
                let i = choose|i: int| 0 <= i < names.len() && gives_family(#[trigger] names[i]);
                assert(rest[i - 1] == names[i]);
                assert(gives_family(rest[i - 1]));
            }
            if exists|i: int| 0 <= i < rest.len() && gives_family(#[trigger] rest[i]) {
                let i = choose|i: int| 0 <= i < rest.len() && gives_family(#[trigger] rest[i]);
                assert(rest[i] == names[i + 1]);
                assert(gives_family(names[i + 1]));
            }
        }
    }
}

/// `first_family` is the text of the first record that gives a family name.
proof fn lemma_first_family_at(names: Seq<(u16, Option<Seq<char>>)>, i: int)
    requires
        0 <= i < names.len(),
        gives_family(names[i]),
        forall|j: int| 0 <= j < i ==> !gives_family(#[trigger] names[j]),
    ensures
        first_family(names) == names[i].1,
    decreases i,
{
    if i > 0 {
        let rest = names.drop_first();
        assert(!gives_family(names[0]));
        assert(rest[i - 1] == names[i]);
        assert forall|j: int| 0 <= j < i - 1 implies !gives_family(#[trigger] rest[j]) by {
            assert(rest[j] == names[j + 1]);
        }
        lemma_first_family_at(rest, i - 1);
    }
}

/// `first_subfamily` finds something exactly when there is a subfamily record.
proof fn lemma_first_subfamily_exists(names: Seq<(u16, Option<Seq<char>>)>)
    ensures
        first_subfamily(names) is Some <==> exists|i: int| 0 <= i < names.len() && is_subfamily_record(#[trigger] names[i]),
    decreases names.len(),
{
    if names.len() > 0 {
        let rest = names.drop_first();
        lemma_first_subfamily_exists(rest);
        if is_subfamily_record(names[0]) {
            assert(is_subfamily_record(names[0]));
        } else {
            if exists|i: int| 0 <= i < names.len() && is_subfamily_record(#[trigger] names[i]) {
                let i = choose|i: int| 0 <= i < names.len() && is_subfamily_record(#[trigger] names[i]);
                assert(rest[i - 1] == names[i]);
                assert(is_subfamily_record(rest[i - 1]));
            }
            if exists|i: int| 0 <= i < rest.len() && is_subfamily_record(#[trigger] rest[i]) {
                let i = choose|i: int| 0 <= i < rest.len() && is_subfamily_record(#[trigger] rest[i]);
                assert(rest[i] == names[i + 1]);
                assert(is_subfamily_record(names[i + 1]));
            }
        }
    }
}

/// `first_subfamily` is the text of the first subfamily record, empty when it has none.
proof fn lemma_first_subfamily_at(names: Seq<(u16, Option<Seq<char>>)>, i: int)
    requires
        0 <= i < names.len(),
        is_subfamily_record(names[i]),
        forall|j: int| 0 <= j < i ==> !is_subfamily_record(#[trigger] names[j]),
    ensures
        first_subfamily(names) == Some(record_text(names[i])),
    decreases i,
{
    if i > 0 {
        let rest = names.drop_first();
        assert(!is_subfamily_record(names[0]));
        assert(rest[i - 1] == names[i]);
        assert forall|j: int| 0 <= j < i - 1 implies !is_subfamily_record(#[trigger] rest[j]) by {
            assert(rest[j] == names[j + 1]);
        }
        lemma_first_subfamily_at(rest, i - 1);
    }
}

/// What the naming records of a font declare: something exactly when some record
/// gives a family name and some record is a subfamily record, however many other
/// records there are. The family is the text of the first record that gives one;
/// the style is "italic" exactly when the lowercased text of the first subfamily
/// record contains "italic", whatever weight keywords it holds; the weight follows
/// from that same lowercased text.
pub proof fn lemma_declared_descriptor_reads_first_records(
    names: Seq<(u16, Option<Seq<char>>)>,
    i: int,
    j: int,
)
    ensures
        declared_descriptor(names) is Some <==> (exists|f: int| 0 <= f < names.len() && gives_family(#[trigger] names[f]))
            && (exists|g: int| 0 <= g < names.len() && is_subfamily_record(#[trigger] names[g])),
        0 <= i < names.len() && gives_family(names[i]) && (forall|k: int|
            0 <= k < i ==> !gives_family(#[trigger] names[k])) && 0 <= j < names.len()
            && is_subfamily_record(names[j]) && (forall|k: int|
            0 <= k < j ==> !is_subfamily_record(#[trigger] names[k])) ==> {
            let sub = lowercase(record_text(names[j]));
            let d = declared_descriptor(names)->0;
            &&& declared_descriptor(names) is Some
            &&& d.0 == names[i].1->0
            &&& (d.1 == "italic"@ <==> contains_seq(sub, "italic"@))
            &&& (!contains_seq(sub, "italic"@) ==> d.1 == "normal"@)
            &&& d.2 == weight_for(sub)
        },
{
    lemma_first_family_exists(names);
    lemma_first_subfamily_exists(names);
    if 0 <= i < names.len() && gives_family(names[i]) && (forall|k: int|
        0 <= k < i ==> !gives_family(#[trigger] names[k])) {
        lemma_first_family_at(names, i);
    }
    if 0 <= j < names.len() && is_subfamily_record(names[j]) && (forall|k: int|
        0 <= k < j ==> !is_subfamily_record(#[trigger] names[k])) {
        lemma_first_subfamily_at(names, j);
        lemma_style_from_italic(lowercase(record_text(names[j])));
    }
}

/// `describe_font` succeeds on every font file whose naming table has a record that
/// gives a family name and a subfamily record, whatever other records the table
/// holds, and hands out what those records declare; it fails with `FontParseFailed`
/// exactly when the data is no font or one of those records is missing.
pub proof fn lemma_describe_font_outcome(r: Result<FontDescriptor, RegisterFontsError>, data: Seq<u8>)
    requires
        describe_font_outcome(r, data),
    ensures
        font_names_in(data) is None ==> r matches Err(RegisterFontsError::FontParseFailed),
        font_names_in(data) matches Some(names) ==> {
            let complete = (exists|f: int| 0 <= f < names.len() && gives_family(#[trigger] names[f]))
                && (exists|g: int| 0 <= g < names.len() && is_subfamily_record(#[trigger] names[g]));
            &&& complete ==> (r matches Ok(d) && descriptor_view(d) == declared_descriptor(names)->0)
            &&& !complete ==> r matches Err(RegisterFontsError::FontParseFailed)
        },
{
    if let Some(names) = font_names_in(data) {
        lemma_declared_descriptor_reads_first_records(names, 0, 0);
    }
}

} // verus!
