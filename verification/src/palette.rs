//! Palettes and their textual form: one color per line, written `#RRGGBB`
//! with six hexadecimal digits after the leading `#`.

use vstd::prelude::*;
use vstd::slice::{slice_index_get, slice_subrange};
use crate::color::Color;

verus! {

/// What can go wrong while building a palette.
#[derive(Clone, Copy, Debug, PartialEq, Eq, Structural)]
pub enum PaletteError {
    /// The palette has zero entries; nearest-color search is undefined on it.
    EmptyPalette,
    /// A palette line is not a `#` followed by exactly six hexadecimal digits.
    MalformedPaletteEntry,
}

/// An ordered, read-only list of reference colors. Order matters only for
/// tie-breaking in the nearest-color search, earliest entry first.
pub struct Palette {
    pub colors: Vec<Color>,
}

impl View for Palette {
    type V = Seq<Color>;

    open spec fn view(&self) -> Seq<Color> {
        self.colors@
    }
}

impl Palette {
    pub fn new(colors: Vec<Color>) -> (p: Palette)
        ensures
            p@ == colors@,
    {
        Palette { colors }
    }

    pub fn len(&self) -> (n: usize)
        ensures
            n == self@.len(),
    {
        self.colors.len()
    }
}

pub open spec fn is_hex_digit(c: u8) -> bool {
    ||| 0x30 <= c <= 0x39
    ||| 0x61 <= c <= 0x66
    ||| 0x41 <= c <= 0x46
}

pub open spec fn hex_val(c: u8) -> int {
    if 0x30 <= c <= 0x39 {
        c - 0x30
    } else if 0x61 <= c <= 0x66 {
        c - 0x61 + 10
    } else {
        c - 0x41 + 10
    }
}

pub proof fn lemma_hex_val_bound(c: u8)
    requires
        is_hex_digit(c),
    ensures
        0 <= hex_val(c) < 16,
{
}

/// Relies on hex::decode: each pair of hexadecimal digits (`0-9a-fA-F`, high
/// digit first) becomes one byte; an input of odd length, or one holding any
/// other byte, is refused.
#[verifier::external_body]
fn hex_decode(s: &[u8]) -> (r: Option<Vec<u8>>)
    ensures
        match r {
            Some(bytes) => {
                &&& s@.len() % 2 == 0
                &&& forall|i: int| 0 <= i < s@.len() ==> is_hex_digit(s@[i])
                &&& bytes@.len() == s@.len() / 2
                &&& forall|i: int|
                    0 <= i < bytes@.len() ==> bytes@[i] as int == hex_val(s@[2 * i]) * 16 + hex_val(
                        s@[2 * i + 1],
                    )
            },
            None => s@.len() % 2 != 0 || exists|i: int| 0 <= i < s@.len() && !is_hex_digit(s@[i]),
        },
{
    hex::decode(s).ok()
}

/// A well-formed palette line: `#` and then exactly six hexadecimal digits.
pub open spec fn valid_color_line(line: Seq<u8>) -> bool {
    &&& line.len() == 7
    &&& line[0] == 0x23
    &&& forall|i: int| 1 <= i < 7 ==> is_hex_digit(line[i])
}

/// Channel `k` (0 = red, 1 = green, 2 = blue) of a well-formed line.
pub open spec fn channel_of_line(line: Seq<u8>, k: int) -> u8 {
    (hex_val(line[2 * k + 1]) * 16 + hex_val(line[2 * k + 2])) as u8
}

/// The color a well-formed `#RRGGBB` line denotes.
pub open spec fn color_of_line(line: Seq<u8>) -> Color {
    Color {
        r: channel_of_line(line, 0),
        g: channel_of_line(line, 1),
        b: channel_of_line(line, 2),
    }
}

/// Parses one palette line. Returns the denoted color exactly when the line is
/// a `#` followed by six hexadecimal digits, and rejects every other line.
pub fn parse_hex_color(line: &[u8]) -> (r: Result<Color, PaletteError>)
    ensures
        valid_color_line(line@) ==> r == Ok::<Color, PaletteError>(color_of_line(line@)),
        !valid_color_line(line@) ==> r == Err::<Color, PaletteError>(
            PaletteError::MalformedPaletteEntry,
        ),
{
    if line.len() != 7 {
        return Err(PaletteError::MalformedPaletteEntry);
    }
    if *slice_index_get(line, 0) != 0x23 {
        return Err(PaletteError::MalformedPaletteEntry);
    }
    let digits = slice_subrange(line, 1, 7);
    match hex_decode(digits) {
        None => {
            proof {
                if valid_color_line(line@) {
                    let i = choose|i: int| 0 <= i < digits@.len() && !is_hex_digit(digits@[i]);
                    assert(digits@[i] == line@[i + 1]);
                    assert(false);
                }
            }
            Err(PaletteError::MalformedPaletteEntry)
        },
        Some(bytes) => {
            let c = Color { r: bytes[0], g: bytes[1], b: bytes[2] };
            proof {
                assert forall|i: int| 1 <= i < 7 implies is_hex_digit(line@[i]) by {
                    assert(digits@[i - 1] == line@[i]);
                }
                assert(valid_color_line(line@));
                assert forall|k: int| 0 <= k < 3 implies bytes@[k] == channel_of_line(
                    line@,
                    k,
                ) by {
                    lemma_hex_val_bound(line@[2 * k + 1]);
                    lemma_hex_val_bound(line@[2 * k + 2]);
                    assert(digits@[2 * k] == line@[2 * k + 1]);
                    assert(digits@[2 * k + 1] == line@[2 * k + 2]);
                }
            }
            Ok(c)
        },
    }
}

/// Every line of the source is well-formed.
pub open spec fn all_lines_valid(lines: Seq<Seq<u8>>) -> bool {
    forall|i: int| 0 <= i < lines.len() ==> valid_color_line(lines[i])
}

/// The palette a well-formed source denotes, in line order.
pub open spec fn palette_of_lines(lines: Seq<Seq<u8>>) -> Seq<Color> {
    Seq::new(lines.len(), |i: int| color_of_line(lines[i]))
}

/// Builds a palette from the lines of a palette source, preserving line
/// order. An empty source yields `EmptyPalette`; otherwise any ill-formed
/// line yields `MalformedPaletteEntry`, and a source of well-formed lines
/// yields exactly the colors the lines denote.
pub fn parse_palette(lines: &Vec<Vec<u8>>) -> (r: Result<Palette, PaletteError>)
    ensures
        lines@.len() == 0 ==> r == Err::<Palette, PaletteError>(PaletteError::EmptyPalette),
        lines@.len() > 0 && all_lines_valid(lines.deep_view()) ==> r is Ok && r->Ok_0@
            == palette_of_lines(lines.deep_view()),
        lines@.len() > 0 && !all_lines_valid(lines.deep_view()) ==> r == Err::<
            Palette,
            PaletteError,
        >(PaletteError::MalformedPaletteEntry),
{
    if lines.len() == 0 {
        return Err(PaletteError::EmptyPalette);
    }
    let mut colors: Vec<Color> = Vec::new();
    let mut i: usize = 0;
    while i < lines.len()
        invariant
            0 <= i <= lines@.len(),
            colors@.len() == i,
            forall|j: int| 0 <= j < i ==> valid_color_line(lines.deep_view()[j]),
            forall|j: int| 0 <= j < i ==> colors@[j] == color_of_line(lines.deep_view()[j]),
        decreases lines@.len() - i,
    {
        match parse_hex_color(lines[i].as_slice()) {
            Ok(c) => {
                colors.push(c);
            },
            Err(_) => {
                assert(lines.deep_view()[i as int] == lines@[i as int]@);
                return Err(PaletteError::MalformedPaletteEntry);
            },
        }
        i += 1;
    }
    proof {
        assert(colors@ =~= palette_of_lines(lines.deep_view()));
    }
    Ok(Palette { colors })
}

} // verus!
