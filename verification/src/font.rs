//! The fallback bitmap font: 5 columns of 7 pixels per character.

use vstd::prelude::*;

verus! {

/// The columns of a character's 5x7 glyph, bit 0 the top row. Letters
/// share a glyph in both cases; characters without one get a hollow box.
pub open spec fn glyph_columns(c: char) -> Seq<u8> {
    match c {
        'A' | 'a' => seq![0x7cu8, 0x12, 0x11, 0x12, 0x7c],
        'B' | 'b' => seq![0x7fu8, 0x49, 0x49, 0x49, 0x36],
        'C' | 'c' => seq![0x3eu8, 0x41, 0x41, 0x41, 0x22],
        'D' | 'd' => seq![0x7fu8, 0x41, 0x41, 0x22, 0x1c],
        'E' | 'e' => seq![0x7fu8, 0x49, 0x49, 0x49, 0x41],
        'F' | 'f' => seq![0x7fu8, 0x09, 0x09, 0x09, 0x01],
        'G' | 'g' => seq![0x3eu8, 0x41, 0x49, 0x49, 0x7a],
        'H' | 'h' => seq![0x7fu8, 0x08, 0x08, 0x08, 0x7f],
        'I' | 'i' => seq![0x00u8, 0x41, 0x7f, 0x41, 0x00],
        'J' | 'j' => seq![0x20u8, 0x40, 0x41, 0x3f, 0x01],
        'K' | 'k' => seq![0x7fu8, 0x08, 0x14, 0x22, 0x41],
        'L' | 'l' => seq![0x7fu8, 0x40, 0x40, 0x40, 0x40],
        'M' | 'm' => seq![0x7fu8, 0x02, 0x0c, 0x02, 0x7f],
        'N' | 'n' => seq![0x7fu8, 0x04, 0x08, 0x10, 0x7f],
        'O' | 'o' => seq![0x3eu8, 0x41, 0x41, 0x41, 0x3e],
        'P' | 'p' => seq![0x7fu8, 0x09, 0x09, 0x09, 0x06],
        'Q' | 'q' => seq![0x3eu8, 0x41, 0x51, 0x21, 0x5e],
        'R' | 'r' => seq![0x7fu8, 0x09, 0x19, 0x29, 0x46],
        'S' | 's' => seq![0x46u8, 0x49, 0x49, 0x49, 0x31],
        'T' | 't' => seq![0x01u8, 0x01, 0x7f, 0x01, 0x01],
        'U' | 'u' => seq![0x3fu8, 0x40, 0x40, 0x40, 0x3f],
        'V' | 'v' => seq![0x1fu8, 0x20, 0x40, 0x20, 0x1f],
        'W' | 'w' => seq![0x3fu8, 0x40, 0x38, 0x40, 0x3f],
        'X' | 'x' => seq![0x63u8, 0x14, 0x08, 0x14, 0x63],
        'Y' | 'y' => seq![0x07u8, 0x08, 0x70, 0x08, 0x07],
        'Z' | 'z' => seq![0x61u8, 0x51, 0x49, 0x45, 0x43],
        '0' => seq![0x3eu8, 0x51, 0x49, 0x45, 0x3e],
        '1' => seq![0x00u8, 0x42, 0x7f, 0x40, 0x00],
        '2' => seq![0x42u8, 0x61, 0x51, 0x49, 0x46],
        '3' => seq![0x21u8, 0x41, 0x45, 0x4b, 0x31],
        '4' => seq![0x18u8, 0x14, 0x12, 0x7f, 0x10],
        '5' => seq![0x27u8, 0x45, 0x45, 0x45, 0x39],
        '6' => seq![0x3cu8, 0x4a, 0x49, 0x49, 0x30],
        '7' => seq![0x01u8, 0x71, 0x09, 0x05, 0x03],
        '8' => seq![0x36u8, 0x49, 0x49, 0x49, 0x36],
        '9' => seq![0x06u8, 0x49, 0x49, 0x29, 0x1e],
        ',' => seq![0x00u8, 0x50, 0x30, 0x00, 0x00],
        '.' => seq![0x00u8, 0x60, 0x60, 0x00, 0x00],
        '&' => seq![0x36u8, 0x49, 0x35, 0x22, 0x50],
        '!' => seq![0x00u8, 0x00, 0x5f, 0x00, 0x00],
        '?' => seq![0x02u8, 0x01, 0x51, 0x09, 0x06],
        ':' => seq![0x00u8, 0x36, 0x36, 0x00, 0x00],
        '-' => seq![0x08u8, 0x08, 0x08, 0x08, 0x08],
        _ => seq![0x7fu8, 0x41, 0x41, 0x41, 0x7f],
    }
}

/// The 5x7 glyph of a character (see `glyph_columns`).
pub fn get_char_5x7(c: char) -> (res: [u8; 5])
    ensures
        res@ == glyph_columns(c),
{
    let g: [u8; 5] = match c {
            'A' | 'a' => [0x7c, 0x12, 0x11, 0x12, 0x7c],
            'B' | 'b' => [0x7f, 0x49, 0x49, 0x49, 0x36],
            'C' | 'c' => [0x3e, 0x41, 0x41, 0x41, 0x22],
            'D' | 'd' => [0x7f, 0x41, 0x41, 0x22, 0x1c],
            'E' | 'e' => [0x7f, 0x49, 0x49, 0x49, 0x41],
            'F' | 'f' => [0x7f, 0x09, 0x09, 0x09, 0x01],
            'G' | 'g' => [0x3e, 0x41, 0x49, 0x49, 0x7a],
            'H' | 'h' => [0x7f, 0x08, 0x08, 0x08, 0x7f],
            'I' | 'i' => [0x00, 0x41, 0x7f, 0x41, 0x00],
            'J' | 'j' => [0x20, 0x40, 0x41, 0x3f, 0x01],
            'K' | 'k' => [0x7f, 0x08, 0x14, 0x22, 0x41],
            'L' | 'l' => [0x7f, 0x40, 0x40, 0x40, 0x40],
            'M' | 'm' => [0x7f, 0x02, 0x0c, 0x02, 0x7f],
            'N' | 'n' => [0x7f, 0x04, 0x08, 0x10, 0x7f],
            'O' | 'o' => [0x3e, 0x41, 0x41, 0x41, 0x3e],
            'P' | 'p' => [0x7f, 0x09, 0x09, 0x09, 0x06],
            'Q' | 'q' => [0x3e, 0x41, 0x51, 0x21, 0x5e],
            'R' | 'r' => [0x7f, 0x09, 0x19, 0x29, 0x46],
            'S' | 's' => [0x46, 0x49, 0x49, 0x49, 0x31],
            'T' | 't' => [0x01, 0x01, 0x7f, 0x01, 0x01],
            'U' | 'u' => [0x3f, 0x40, 0x40, 0x40, 0x3f],
            'V' | 'v' => [0x1f, 0x20, 0x40, 0x20, 0x1f],
            'W' | 'w' => [0x3f, 0x40, 0x38, 0x40, 0x3f],
            'X' | 'x' => [0x63, 0x14, 0x08, 0x14, 0x63],
            'Y' | 'y' => [0x07, 0x08, 0x70, 0x08, 0x07],
            'Z' | 'z' => [0x61, 0x51, 0x49, 0x45, 0x43],
            '0' => [0x3e, 0x51, 0x49, 0x45, 0x3e],
            '1' => [0x00, 0x42, 0x7f, 0x40, 0x00],
            '2' => [0x42, 0x61, 0x51, 0x49, 0x46],
            '3' => [0x21, 0x41, 0x45, 0x4b, 0x31],
            '4' => [0x18, 0x14, 0x12, 0x7f, 0x10],
            '5' => [0x27, 0x45, 0x45, 0x45, 0x39],
            '6' => [0x3c, 0x4a, 0x49, 0x49, 0x30],
            '7' => [0x01, 0x71, 0x09, 0x05, 0x03],
            '8' => [0x36, 0x49, 0x49, 0x49, 0x36],
            '9' => [0x06, 0x49, 0x49, 0x29, 0x1e],
            ',' => [0x00, 0x50, 0x30, 0x00, 0x00],
            '.' => [0x00, 0x60, 0x60, 0x00, 0x00],
            '&' => [0x36, 0x49, 0x35, 0x22, 0x50],
            '!' => [0x00, 0x00, 0x5f, 0x00, 0x00],
            '?' => [0x02, 0x01, 0x51, 0x09, 0x06],
            ':' => [0x00, 0x36, 0x36, 0x00, 0x00],
            '-' => [0x08, 0x08, 0x08, 0x08, 0x08],
            _ => [0x7f, 0x41, 0x41, 0x41, 0x7f],
    };
    assert(g@ =~= glyph_columns(c));
    g
}

/// Law: a letter's glyph does not depend on its case.
pub proof fn lemma_glyph_case_blind(c: char)
    requires
        'a' <= c <= 'z',
    ensures
        glyph_columns(c) == glyph_columns(((c as u32) - 32) as char),
{
}

/// Law: every column fits in seven rows.
pub proof fn lemma_glyph_seven_rows(c: char)
    ensures
        glyph_columns(c).len() == 5,
        forall|i: int| 0 <= i < 5 ==> glyph_columns(c)[i] < 128,
{
}

} // verus!
