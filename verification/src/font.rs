use vstd::prelude::*;

verus! {

/// Columns of the printable ASCII glyphs, from the space (code point 0x20)
/// to the tilde (0x7e), five columns per glyph.  Bit `b` of a column is the
/// pixel `b` rows below the top of the glyph.
pub const FONT_5X7: [u8; 475] = [
    0x00, 0x00, 0x00, 0x00, 0x00, // code point 0x20
    0x00, 0x00, 0x5f, 0x00, 0x00, // code point 0x21
    0x00, 0x07, 0x00, 0x07, 0x00, // code point 0x22
    0x14, 0x7f, 0x14, 0x7f, 0x14, // code point 0x23
    0x24, 0x2a, 0x7f, 0x2a, 0x12, // code point 0x24
    0x23, 0x13, 0x08, 0x64, 0x62, // code point 0x25
    0x36, 0x49, 0x55, 0x22, 0x50, // code point 0x26
    0x00, 0x05, 0x03, 0x00, 0x00, // code point 0x27
    0x00, 0x1c, 0x22, 0x41, 0x00, // code point 0x28
    0x00, 0x41, 0x22, 0x1c, 0x00, // code point 0x29
    0x14, 0x08, 0x3e, 0x08, 0x14, // code point 0x2a
    0x08, 0x08, 0x3e, 0x08, 0x08, // code point 0x2b
    0x00, 0x50, 0x30, 0x00, 0x00, // code point 0x2c
    0x08, 0x08, 0x08, 0x08, 0x08, // code point 0x2d
    0x00, 0x60, 0x60, 0x00, 0x00, // code point 0x2e
    0x20, 0x10, 0x08, 0x04, 0x02, // code point 0x2f
    0x3e, 0x51, 0x49, 0x45, 0x3e, // code point 0x30
    0x00, 0x42, 0x7f, 0x40, 0x00, // code point 0x31
    0x42, 0x61, 0x51, 0x49, 0x46, // code point 0x32
    0x21, 0x41, 0x45, 0x4b, 0x31, // code point 0x33
    0x18, 0x14, 0x12, 0x7f, 0x10, // code point 0x34
    0x27, 0x45, 0x45, 0x45, 0x39, // code point 0x35
    0x3c, 0x4a, 0x49, 0x49, 0x30, // code point 0x36
    0x01, 0x71, 0x09, 0x05, 0x03, // code point 0x37
    0x36, 0x49, 0x49, 0x49, 0x36, // code point 0x38
    0x06, 0x49, 0x49, 0x29, 0x1e, // code point 0x39
    0x00, 0x36, 0x36, 0x00, 0x00, // code point 0x3a
    0x00, 0x56, 0x36, 0x00, 0x00, // code point 0x3b
    0x08, 0x14, 0x22, 0x41, 0x00, // code point 0x3c
    0x14, 0x14, 0x14, 0x14, 0x14, // code point 0x3d
    0x00, 0x41, 0x22, 0x14, 0x08, // code point 0x3e
    0x02, 0x01, 0x51, 0x09, 0x06, // code point 0x3f
    0x32, 0x49, 0x79, 0x41, 0x3e, // code point 0x40
    0x7e, 0x11, 0x11, 0x11, 0x7e, // code point 0x41
    0x7f, 0x49, 0x49, 0x49, 0x36, // code point 0x42
    0x3e, 0x41, 0x41, 0x41, 0x22, // code point 0x43
    0x7f, 0x41, 0x41, 0x22, 0x1c, // code point 0x44
    0x7f, 0x49, 0x49, 0x49, 0x41, // code point 0x45
    0x7f, 0x09, 0x09, 0x09, 0x01, // code point 0x46
    0x3e, 0x41, 0x49, 0x49, 0x7a, // code point 0x47
    0x7f, 0x08, 0x08, 0x08, 0x7f, // code point 0x48
    0x00, 0x41, 0x7f, 0x41, 0x00, // code point 0x49
    0x20, 0x40, 0x41, 0x3f, 0x01, // code point 0x4a
    0x7f, 0x08, 0x14, 0x22, 0x41, // code point 0x4b
    0x7f, 0x40, 0x40, 0x40, 0x40, // code point 0x4c
    0x7f, 0x02, 0x0c, 0x02, 0x7f, // code point 0x4d
    0x7f, 0x04, 0x08, 0x10, 0x7f, // code point 0x4e
    0x3e, 0x41, 0x41, 0x41, 0x3e, // code point 0x4f
    0x7f, 0x09, 0x09, 0x09, 0x06, // code point 0x50
    0x3e, 0x41, 0x51, 0x21, 0x5e, // code point 0x51
    0x7f, 0x09, 0x19, 0x29, 0x46, // code point 0x52
    0x46, 0x49, 0x49, 0x49, 0x31, // code point 0x53
    0x01, 0x01, 0x7f, 0x01, 0x01, // code point 0x54
    0x3f, 0x40, 0x40, 0x40, 0x3f, // code point 0x55
    0x1f, 0x20, 0x40, 0x20, 0x1f, // code point 0x56
    0x3f, 0x40, 0x38, 0x40, 0x3f, // code point 0x57
    0x63, 0x14, 0x08, 0x14, 0x63, // code point 0x58
    0x07, 0x08, 0x70, 0x08, 0x07, // code point 0x59
    0x61, 0x51, 0x49, 0x45, 0x43, // code point 0x5a
    0x00, 0x7f, 0x41, 0x41, 0x00, // code point 0x5b
    0x02, 0x04, 0x08, 0x10, 0x20, // code point 0x5c
    0x00, 0x41, 0x41, 0x7f, 0x00, // code point 0x5d
    0x04, 0x02, 0x01, 0x02, 0x04, // code point 0x5e
    0x40, 0x40, 0x40, 0x40, 0x40, // code point 0x5f
    0x00, 0x01, 0x02, 0x04, 0x00, // code point 0x60
    0x20, 0x54, 0x54, 0x54, 0x78, // code point 0x61
    0x7f, 0x48, 0x44, 0x44, 0x38, // code point 0x62
    0x38, 0x44, 0x44, 0x44, 0x20, // code point 0x63
    0x38, 0x44, 0x44, 0x48, 0x7f, // code point 0x64
    0x38, 0x54, 0x54, 0x54, 0x18, // code point 0x65
    0x08, 0x7e, 0x09, 0x01, 0x02, // code point 0x66
    0x0c, 0x52, 0x52, 0x52, 0x3e, // code point 0x67
    0x7f, 0x08, 0x04, 0x04, 0x78, // code point 0x68
    0x00, 0x44, 0x7d, 0x40, 0x00, // code point 0x69
    0x20, 0x40, 0x44, 0x3d, 0x00, // code point 0x6a
    0x7f, 0x10, 0x28, 0x44, 0x00, // code point 0x6b
    0x00, 0x41, 0x7f, 0x40, 0x00, // code point 0x6c
    0x7c, 0x04, 0x18, 0x04, 0x78, // code point 0x6d
    0x7c, 0x08, 0x04, 0x04, 0x78, // code point 0x6e
    0x38, 0x44, 0x44, 0x44, 0x38, // code point 0x6f
    0x7c, 0x14, 0x14, 0x14, 0x08, // code point 0x70
    0x08, 0x14, 0x14, 0x18, 0x7c, // code point 0x71
    0x7c, 0x08, 0x04, 0x04, 0x08, // code point 0x72
    0x48, 0x54, 0x54, 0x54, 0x20, // code point 0x73
    0x04, 0x3f, 0x44, 0x40, 0x20, // code point 0x74
    0x3c, 0x40, 0x40, 0x20, 0x7c, // code point 0x75
    0x1c, 0x20, 0x40, 0x20, 0x1c, // code point 0x76
    0x3c, 0x40, 0x30, 0x40, 0x3c, // code point 0x77
    0x44, 0x28, 0x10, 0x28, 0x44, // code point 0x78
    0x0c, 0x50, 0x50, 0x50, 0x3c, // code point 0x79
    0x44, 0x64, 0x54, 0x4c, 0x44, // code point 0x7a
    0x00, 0x08, 0x36, 0x41, 0x00, // code point 0x7b
    0x00, 0x00, 0x7f, 0x00, 0x00, // code point 0x7c
    0x00, 0x41, 0x36, 0x08, 0x00, // code point 0x7d
    0x10, 0x08, 0x08, 0x10, 0x08, // code point 0x7e
];

/// The code point whose glyph stands for characters the font lacks: '?'.
pub const FALLBACK_GLYPH: char = '?';

/// The character that is drawn for `c`: `c` itself when the font has it,
/// '?' otherwise.
pub open spec fn drawn_char(c: char) -> char {
    if ' ' <= c && c <= '~' {
        c
    } else {
        FALLBACK_GLYPH
    }
}

/// The five columns of the glyph drawn for `c`.
pub open spec fn glyph_columns(c: char) -> Seq<u8> {
    let start = ((drawn_char(c) as int) - 32) * 5;
    FONT_5X7@.subrange(start, start + 5)
}

/// The five columns of the glyph drawn for `c`.
pub fn glyph(c: char) -> (columns: [u8; 5])
    ensures
        columns@ == glyph_columns(c),
{
    let drawn = if ' ' <= c && c <= '~' {
        c
    } else {
        FALLBACK_GLYPH
    };
    let start = ((drawn as u32 - 32) * 5) as usize;
    let columns = [
        FONT_5X7[start],
        FONT_5X7[start + 1],
        FONT_5X7[start + 2],
        FONT_5X7[start + 3],
        FONT_5X7[start + 4],
    ];
    assert(columns@ =~= glyph_columns(c));
    columns
}

} // verus!
