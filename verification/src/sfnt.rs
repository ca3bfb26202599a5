//! What a loader makes of the values it reads from a face's tables: the face's style, weight and
//! stretchiness from the `OS/2` table, and its names from the Type 1 dictionary or the `name`
//! table.

use vstd::prelude::*;
use crate::bytes::{be_u16_at, read_u16_be};
use crate::properties::{Properties, Stretch, Style, Weight};

verus! {

/// The `fsSelection` bit of the `OS/2` table that marks an oblique face.
pub const OS2_FS_SELECTION_OBLIQUE: u16 = 0x200;

/// The bit of a face's style flags that marks an italic face.
pub const STYLE_FLAG_ITALIC: i64 = 1;

/// The fields of a face's `OS/2` table that its properties come from.
#[derive(Clone, Copy, Debug, PartialEq, Eq, Structural)]
pub struct Os2Table {
    /// Font selection flags.
    pub fs_selection: u16,
    /// Width class, from 1 (ultra-condensed) to 9 (ultra-expanded); 0 when unset.
    pub us_width_class: u16,
    /// Weight class, in CSS `font-weight` units.
    pub us_weight_class: u16,
}

/// The stretchiness that an `OS/2` width class from 1 to 9 stands for, in thousandths of the
/// normal width.
pub open spec fn width_class_stretch(class: u16) -> u32 {
    if class == 1 {
        500
    } else if class == 2 {
        625
    } else if class == 3 {
        750
    } else if class == 4 {
        875
    } else if class == 5 {
        1000
    } else if class == 6 {
        1125
    } else if class == 7 {
        1250
    } else if class == 8 {
        1500
    } else {
        2000
    }
}

/// The style of a face: oblique when its `OS/2` table says so, otherwise italic when its style
/// flags say so, otherwise normal.
pub open spec fn face_style(os2: Option<Os2Table>, style_flags: i64) -> Style {
    if os2 matches Some(t) && t.fs_selection & OS2_FS_SELECTION_OBLIQUE != 0 {
        Style::Oblique
    } else if style_flags & STYLE_FLAG_ITALIC != 0 {
        Style::Italic
    } else {
        Style::Normal
    }
}

/// The properties of a face: its style as `face_style` says, the stretchiness of its width
/// class (normal when it has no `OS/2` table or no width class), and its weight class (normal
/// when it has no `OS/2` table).
pub open spec fn face_properties_of(os2: Option<Os2Table>, style_flags: i64) -> Properties {
    Properties {
        style: face_style(os2, style_flags),
        stretch: match os2 {
            Some(t) if t.us_width_class > 0 => Stretch(width_class_stretch(t.us_width_class)),
            _ => Stretch(1000),
        },
        weight: match os2 {
            Some(t) => Weight(t.us_weight_class as u32),
            None => Weight(400),
        },
    }
}

/// The stretchiness of an `OS/2` width class.
fn stretch_of_width_class(class: u16) -> (r: Stretch)
    requires
        1 <= class <= 9,
    ensures
        r == Stretch(width_class_stretch(class)),
{
    let mapping: [u32; 9] = [500, 625, 750, 875, 1000, 1125, 1250, 1500, 2000];
    let value = mapping[(class - 1) as usize];
    Stretch(value)
}

/// Returns the properties of a face, given its `OS/2` table if it has one and its style
/// flags. A width class above 9 has no stretchiness and is not accepted.
pub fn face_properties(os2: Option<Os2Table>, style_flags: i64) -> (r: Properties)
    requires
        os2 matches Some(t) ==> t.us_width_class <= 9,
    ensures
        r == face_properties_of(os2, style_flags),
{
    let style = match os2 {
        Some(t) if t.fs_selection & OS2_FS_SELECTION_OBLIQUE != 0 => Style::Oblique,
        _ => if style_flags & STYLE_FLAG_ITALIC != 0 {
            Style::Italic
        } else {
            Style::Normal
        },
    };
    let stretch = match os2 {
        Some(t) if t.us_width_class > 0 => stretch_of_width_class(t.us_width_class),
        _ => Stretch::normal(),
    };
    let weight = match os2 {
        None => Weight::normal(),
        Some(t) => Weight(t.us_weight_class as u32),
    };
    Properties { style, stretch, weight }
}

/// A face's stretchiness is the CSS `font-stretch` keyword of its `OS/2` width class: classes
/// 1 to 9 give ultra-condensed (500), extra-condensed (625), condensed (750), semi-condensed
/// (875), normal (1000), semi-expanded (1125), expanded (1250), extra-expanded (1500) and
/// ultra-expanded (2000).
pub proof fn lemma_width_class_keywords(t: Os2Table, style_flags: i64)
    requires
        1 <= t.us_width_class <= 9,
    ensures
        ({
            let s = face_properties_of(Some(t), style_flags).stretch.0;
            &&& t.us_width_class == 1 ==> s == 500
            &&& t.us_width_class == 2 ==> s == 625
            &&& t.us_width_class == 3 ==> s == 750
            &&& t.us_width_class == 4 ==> s == 875
            &&& t.us_width_class == 5 ==> s == 1000
            &&& t.us_width_class == 6 ==> s == 1125
            &&& t.us_width_class == 7 ==> s == 1250
            &&& t.us_width_class == 8 ==> s == 1500
            &&& t.us_width_class == 9 ==> s == 2000
        }),
{
}

/// A wider `OS/2` width class always gives a strictly greater stretchiness, and the middle
/// class, 5, is the normal width, 1000.
pub proof fn lemma_width_class_order(a: Os2Table, b: Os2Table, style_flags: i64)
    requires
        1 <= a.us_width_class <= 9,
        1 <= b.us_width_class <= 9,
    ensures
        a.us_width_class < b.us_width_class ==> face_properties_of(Some(a), style_flags).stretch.0
            < face_properties_of(Some(b), style_flags).stretch.0,
        a.us_width_class == 5 ==> face_properties_of(Some(a), style_flags).stretch.0 == 1000,
{
}

/// The bit of a face's flags that marks a fixed-width face.
pub const FACE_FLAG_FIXED_WIDTH: i64 = 0x4;

/// The bit of a face's flags that marks a face with vertical metrics.
pub const FACE_FLAG_VERTICAL: i64 = 0x20;

/// What a face's flags say of it.
#[derive(Clone, Copy, Debug, PartialEq, Eq, Structural)]
pub struct FaceFlags {
    /// The face is italic.
    pub italic: bool,
    /// All the glyphs of the face have the same width.
    pub monospace: bool,
    /// The face has vertical metrics.
    pub vertical: bool,
}

/// Returns true if and only if a face with the given face flags is monospace (fixed-width).
pub fn is_monospace(flags: i64) -> (r: bool)
    ensures
        r == (flags & FACE_FLAG_FIXED_WIDTH != 0),
{
    flags & FACE_FLAG_FIXED_WIDTH != 0
}

/// Returns what a face's style flags and face flags (`flags`) say of it: whether it is italic, monospace
/// and vertical.
pub fn face_flags(style_flags: i64, flags: i64) -> (r: FaceFlags)
    ensures
        r.italic == (style_flags & STYLE_FLAG_ITALIC != 0),
        r.monospace == (flags & FACE_FLAG_FIXED_WIDTH != 0),
        r.vertical == (flags & FACE_FLAG_VERTICAL != 0),
{
    FaceFlags {
        italic: style_flags & STYLE_FLAG_ITALIC != 0,
        monospace: is_monospace(flags),
        vertical: flags & FACE_FLAG_VERTICAL != 0,
    }
}

/// The platform ID of the `name` table records that hold Unicode text, as UTF-16BE.
pub const PLATFORM_APPLE_UNICODE: u16 = 0;

/// The name ID of a face's full name in the `name` table.
pub const NAME_ID_FULL_NAME: u16 = 4;

/// A record of a face's `name` table.
#[derive(Debug)]
pub struct SfntName {
    /// What the name is: family, full name, PostScript name and so on.
    pub name_id: u16,
    /// The platform whose encoding the text uses.
    pub platform_id: u16,
    /// The encoding, within the platform.
    pub encoding_id: u16,
    /// The encoded text.
    pub string: Vec<u8>,
}

/// Whether `b` is a continuation byte of UTF-8.
pub open spec fn continuation(b: u8) -> bool {
    0x80 <= b <= 0xBF
}

/// The text that bytes encode in UTF-8, or nothing when they are not UTF-8: a byte below 0x80
/// stands for itself; a lead byte is followed by one to three continuation bytes, with no
/// overlong form, no surrogate and nothing above U+10FFFF.
pub open spec fn utf8_decoded(b: Seq<u8>) -> Option<Seq<char>>
    decreases b.len(),
{
    if b.len() == 0 {
        Some(Seq::empty())
    } else if b[0] < 0x80 {
        match utf8_decoded(b.subrange(1, b.len() as int)) {
            Some(rest) => Some(seq![b[0] as char] + rest),
            None => None,
        }
    } else if 0xC2 <= b[0] <= 0xDF && b.len() >= 2 && continuation(b[1]) {
        match utf8_decoded(b.subrange(2, b.len() as int)) {
            Some(rest) => Some(seq![((b[0] - 0xC0) * 0x40 + (b[1] - 0x80)) as char] + rest),
            None => None,
        }
    } else if 0xE0 <= b[0] <= 0xEF && b.len() >= 3 && continuation(b[1]) && continuation(b[2]) && (
    b[0] == 0xE0 ==> b[1] >= 0xA0) && (b[0] == 0xED ==> b[1] <= 0x9F) {
        match utf8_decoded(b.subrange(3, b.len() as int)) {
            Some(rest) => Some(
                seq![((b[0] - 0xE0) * 0x1000 + (b[1] - 0x80) * 0x40 + (b[2] - 0x80)) as char] + rest,
            ),
            None => None,
        }
    } else if 0xF0 <= b[0] <= 0xF4 && b.len() >= 4 && continuation(b[1]) && continuation(b[2])
        && continuation(b[3]) && (b[0] == 0xF0 ==> b[1] >= 0x90) && (b[0] == 0xF4 ==> b[1] <= 0x8F) {
        match utf8_decoded(b.subrange(4, b.len() as int)) {
            Some(rest) => Some(
                seq![
                    ((b[0] - 0xF0) * 0x40000 + (b[1] - 0x80) * 0x1000 + (b[2] - 0x80) * 0x40 + (b[3]
                        - 0x80)) as char,
                ] + rest,
            ),
            None => None,
        }
    } else {
        None
    }
}

/// The UTF-16 code units that the bytes of `b` encode, two by two, big-endian.
pub open spec fn be_units(b: Seq<u8>) -> Seq<u16> {
    Seq::new(b.len() / 2, |k: int| be_u16_at(b, 2 * k) as u16)
}

/// The text that UTF-16 code units encode, or nothing when a surrogate is unpaired.
pub open spec fn utf16_decode(u: Seq<u16>) -> Option<Seq<char>>
    decreases u.len(),
{
    if u.len() == 0 {
        Some(Seq::empty())
    } else if u[0] < 0xD800 || u[0] > 0xDFFF {
        match utf16_decode(u.drop_first()) {
            Some(rest) => Some(seq![u[0] as char] + rest),
            None => None,
        }
    } else if u[0] <= 0xDBFF && u.len() >= 2 && 0xDC00 <= u[1] <= 0xDFFF {
        match utf16_decode(u.subrange(2, u.len() as int)) {
            Some(rest) => Some(
                seq![(0x10000 + (u[0] - 0xD800) * 0x400 + (u[1] - 0xDC00)) as char] + rest,
            ),
            None => None,
        }
    } else {
        None
    }
}

/// `r` holds the text `t`: both are there and equal, or neither is.
pub open spec fn holds_text(r: Option<String>, t: Option<Seq<char>>) -> bool {
    match r {
        Some(s) => t == Some(s@),
        None => t is None,
    }
}

/// Whether a record gives the name `id` in Unicode.
pub open spec fn unicode_record(n: SfntName, id: u16) -> bool {
    n.name_id == id && n.platform_id == PLATFORM_APPLE_UNICODE
}

/// The name that the `name` table gives for `id`: the text of the first Unicode record for `id`
/// whose text decodes, if any.
pub open spec fn sfnt_name_lookup(names: Seq<SfntName>, id: u16) -> Option<Seq<char>>
    decreases names.len(),
{
    if names.len() == 0 {
        None
    } else if unicode_record(names[0], id) && utf16_decode(be_units(names[0].string@)) is Some {
        utf16_decode(be_units(names[0].string@))
    } else {
        sfnt_name_lookup(names.drop_first(), id)
    }
}

/// Every Unicode record for `id` that the lookup reads has an even number of bytes: reading
/// the code units of an odd one fails.
pub open spec fn sfnt_names_readable(names: Seq<SfntName>, id: u16) -> bool
    decreases names.len(),
{
    if names.len() == 0 {
        true
    } else if unicode_record(names[0], id) {
        names[0].string@.len() % 2 == 0 && (utf16_decode(be_units(names[0].string@)) is None
            ==> sfnt_names_readable(names.drop_first(), id))
    } else {
        sfnt_names_readable(names.drop_first(), id)
    }
}

/// Calls `String::from_utf8`, which decodes UTF-8 and fails on bytes that are not UTF-8,
/// keeping the text and dropping the error.
#[verifier::external_body]
fn string_from_utf8(bytes: Vec<u8>) -> (r: Option<String>)
    ensures
        holds_text(r, utf8_decoded(bytes@)),
{
    String::from_utf8(bytes).ok()
}

/// Calls `String::from_utf16`, which decodes UTF-16 and fails on an unpaired surrogate,
/// keeping the text and dropping the error.
#[verifier::external_body]
fn string_from_utf16(units: &[u16]) -> (r: Option<String>)
    ensures
        holds_text(r, utf16_decode(units@)),
{
    String::from_utf16(units).ok()
}

/// The UTF-16 code units of a record's text.
fn record_units(bytes: &[u8]) -> (r: Vec<u16>)
    requires
        bytes@.len() % 2 == 0,
    ensures
        r@ == be_units(bytes@),
{
    let mut units: Vec<u16> = Vec::new();
    let mut i: usize = 0;
    while i < bytes.len()
        invariant
            i <= bytes@.len(),
            i % 2 == 0,
            bytes@.len() % 2 == 0,
            units@ == be_units(bytes@.take(i as int)),
        decreases bytes@.len() - i,
    {
        let rest = &bytes[i..bytes.len()];
        let unit = match read_u16_be(rest) {
            Ok(unit) => unit,
            Err(_) => {
                assert(false);
                0
            },
        };
        proof {
            assert(be_u16_at(rest@, 0) == be_u16_at(bytes@, i as int));
            assert(be_units(bytes@.take(i + 2)) =~= be_units(bytes@.take(i as int)).push(unit));
        }
        units.push(unit);
        i = i + 2;
    }
    assert(bytes@.take(i as int) =~= bytes@);
    units
}

/// Returns the name `sfnt_id` of a face: the text of the face's Type 1 dictionary value when
/// the face has one (`type_1_value`), whether or not it is UTF-8; otherwise the text of the
/// first Unicode record for `sfnt_id` in the face's `name` table that decodes.
pub fn type_1_or_sfnt_name(type_1_value: Option<Vec<u8>>, names: &[SfntName], sfnt_id: u16) -> (r:
    Option<String>)
    requires
        type_1_value is None ==> sfnt_names_readable(names@, sfnt_id),
    ensures
        holds_text(
            r,
            match type_1_value {
                Some(bytes) => utf8_decoded(bytes@),
                None => sfnt_name_lookup(names@, sfnt_id),
            },
        ),
{
    match type_1_value {
        Some(bytes) => {
            return string_from_utf8(bytes);
        },
        None => {},
    }
    assert(names@.skip(0) =~= names@);
    let mut i: usize = 0;
    while i < names.len()
        invariant
            i <= names@.len(),
            type_1_value is None,
            sfnt_name_lookup(names@, sfnt_id) == sfnt_name_lookup(names@.skip(i as int), sfnt_id),
            sfnt_names_readable(names@.skip(i as int), sfnt_id),
        decreases names@.len() - i,
    {
        let ghost rest = names@.skip(i as int);
        assert(rest.drop_first() =~= names@.skip(i + 1));
        assert(rest[0] == names@[i as int]);
        let name = &names[i];
        if name.name_id == sfnt_id && name.platform_id == PLATFORM_APPLE_UNICODE {
            let units = record_units(name.string.as_slice());
            assert(unicode_record(rest[0], sfnt_id));
            match string_from_utf16(units.as_slice()) {
                Some(text) => {
                    assert(utf16_decode(be_units(rest[0].string@)) == Some(text@));
                    return Some(text);
                },
                None => {},
            }
        }
        i = i + 1;
    }
    None
}

/// Returns the full name of a face: its Type 1 or `name` table full name, or its family name
/// when it has none.
pub fn full_name(type_1_value: Option<Vec<u8>>, names: &[SfntName], family_name: String) -> (r: String)
    requires
        type_1_value is None ==> sfnt_names_readable(names@, NAME_ID_FULL_NAME),
    ensures
        match (match type_1_value {
            Some(bytes) => utf8_decoded(bytes@),
            None => sfnt_name_lookup(names@, NAME_ID_FULL_NAME),
        }) {
            Some(t) => r@ == t,
            None => r@ == family_name@,
        },
{
    match type_1_or_sfnt_name(type_1_value, names, NAME_ID_FULL_NAME) {
        Some(name) => name,
        None => family_name,
    }
}

} // verus!
