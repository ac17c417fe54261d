//! What a font handle decides from the numbers that the font engine gives it.

use vstd::prelude::*;

verus! {

/// The weight of a font face, in steps of one hundred.
#[derive(Clone, Copy, Debug, PartialEq, Eq, Structural)]
pub enum CSSFontWeight {
    FontWeight100,
    FontWeight200,
    FontWeight300,
    FontWeight400,
    FontWeight500,
    FontWeight600,
    FontWeight700,
    FontWeight800,
    FontWeight900,
}

/// The index of a glyph within its font.
pub type GlyphIndex = u32;

/// The four-byte tag of a font table.
pub type FontTableTag = u32;

/// A table of a font. This platform hands none out.
#[derive(Clone, Copy, Debug, PartialEq, Eq)]
pub struct FontTable {
    bogus: (),
}

/// What a handle reads of the OS/2 table of a face.
#[derive(Clone, Copy, Debug, PartialEq, Eq, Structural)]
pub struct Os2Table {
    pub version: u16,
    pub us_weight_class: u16,
}

/// The style flag of an italic face.
pub const STYLE_FLAG_ITALIC: u64 = 1;

/// The style flag of a bold face.
pub const STYLE_FLAG_BOLD: u64 = 2;

/// The advance that stands in for a glyph whose advance is not known.
pub const DEFAULT_H_ADVANCE: i64 = 10;

/// The weight that a weight class stands for: the classes 1 to 9 and the
/// hundreds from 100 to 999 name the nine weights; any other class names
/// the regular weight.
pub open spec fn weight_of_class(class: u16) -> CSSFontWeight {
    if class == 1 || 100 <= class <= 199 {
        CSSFontWeight::FontWeight100
    } else if class == 2 || 200 <= class <= 299 {
        CSSFontWeight::FontWeight200
    } else if class == 3 || 300 <= class <= 399 {
        CSSFontWeight::FontWeight300
    } else if class == 4 || 400 <= class <= 499 {
        CSSFontWeight::FontWeight400
    } else if class == 5 || 500 <= class <= 599 {
        CSSFontWeight::FontWeight500
    } else if class == 6 || 600 <= class <= 699 {
        CSSFontWeight::FontWeight600
    } else if class == 7 || 700 <= class <= 799 {
        CSSFontWeight::FontWeight700
    } else if class == 8 || 800 <= class <= 899 {
        CSSFontWeight::FontWeight800
    } else if class == 9 || 900 <= class <= 999 {
        CSSFontWeight::FontWeight900
    } else {
        CSSFontWeight::FontWeight400
    }
}

/// The weight of a face: regular unless the face is flagged bold and has an
/// OS/2 table of a known version, whose weight class then decides.
pub open spec fn weight_of_face(style_flags: u64, os2: Option<Os2Table>) -> CSSFontWeight {
    if style_flags & STYLE_FLAG_BOLD == 0 {
        CSSFontWeight::FontWeight400
    } else {
        match os2 {
            Some(table) => if table.version != 0xffff {
                weight_of_class(table.us_weight_class)
            } else {
                CSSFontWeight::FontWeight400
            },
            None => CSSFontWeight::FontWeight400,
        }
    }
}

/// The weight of a face with these style flags and this OS/2 table.
pub fn boldness(style_flags: u64, os2: Option<Os2Table>) -> (weight: CSSFontWeight)
    ensures
        weight == weight_of_face(style_flags, os2),
{
    let default_weight = CSSFontWeight::FontWeight400;
    if style_flags & STYLE_FLAG_BOLD == 0 {
        default_weight
    } else {
        match os2 {
            Some(table) => {
                if table.version != 0xffff {
                    let class = table.us_weight_class;
                    if class == 1 || (100 <= class && class <= 199) {
                        CSSFontWeight::FontWeight100
                    } else if class == 2 || (200 <= class && class <= 299) {
                        CSSFontWeight::FontWeight200
                    } else if class == 3 || (300 <= class && class <= 399) {
                        CSSFontWeight::FontWeight300
                    } else if class == 4 || (400 <= class && class <= 499) {
                        CSSFontWeight::FontWeight400
                    } else if class == 5 || (500 <= class && class <= 599) {
                        CSSFontWeight::FontWeight500
                    } else if class == 6 || (600 <= class && class <= 699) {
                        CSSFontWeight::FontWeight600
                    } else if class == 7 || (700 <= class && class <= 799) {
                        CSSFontWeight::FontWeight700
                    } else if class == 8 || (800 <= class && class <= 899) {
                        CSSFontWeight::FontWeight800
                    } else if class == 9 || (900 <= class && class <= 999) {
                        CSSFontWeight::FontWeight900
                    } else {
                        default_weight
                    }
                } else {
                    default_weight
                }
            },
            None => default_weight,
        }
    }
}

/// Whether a face with these style flags is italic.
pub fn is_italic(style_flags: u64) -> (r: bool)
    ensures
        r == (style_flags & STYLE_FLAG_ITALIC != 0),
{
    style_flags & STYLE_FLAG_ITALIC != 0
}

/// The glyph for a code point, from the index that the font engine gave:
/// index 0 is the engine's word for a code point that the face lacks.
pub fn glyph_index(engine_index: u32) -> (glyph: Option<GlyphIndex>)
    ensures
        glyph == if engine_index != 0 {
            Some(engine_index)
        } else {
            None::<GlyphIndex>
        },
{
    if engine_index != 0 {
        Some(engine_index)
    } else {
        None
    }
}

/// The horizontal advance of a glyph: what the native font measured, or the
/// default advance where it could not measure.
pub fn glyph_h_advance(measured: Option<i64>) -> (advance: i64)
    ensures
        advance == match measured {
            Some(adv) => adv,
            None => DEFAULT_H_ADVANCE,
        },
{
    match measured {
        Some(adv) => adv,
        None => DEFAULT_H_ADVANCE,
    }
}

/// The table of a font for a tag. This platform hands none out.
pub fn get_table_for_tag(tag: FontTableTag) -> (table: Option<FontTable>)
    ensures
        table is None,
{
    None
}

/// The font binary for tests as a vector of its own: a copy of `font`,
/// byte for byte.
pub fn test_font_bin(font: &[u8]) -> (copy: Vec<u8>)
    ensures
        copy@ == font@,
{
    let mut copy: Vec<u8> = Vec::new();
    let mut i: usize = 0;
    while i < font.len()
        invariant
            i <= font.len(),
            copy@ == font@.take(i as int),
        decreases font.len() - i,
    {
        copy.push(font[i]);
        assert(font@.take(i + 1) == font@.take(i as int).push(font@[i as int]));
        i = i + 1;
    }
    assert(font@.take(i as int) == font@);
    copy
}

} // verus!
