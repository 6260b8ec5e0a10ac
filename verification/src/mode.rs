//! Encoding modes and the character sets they can represent.

use vstd::prelude::*;
use crate::qrcode_info::is_alphanumeric_byte;

verus! {

/// The four encoding modes of a QR symbol.
#[derive(Clone, Copy, PartialEq, Eq, Structural, Debug)]
pub enum Mode {
    Numeric,
    Alphanumeric,
    Byte,
    Kanji,
}

/// Table index of a mode: the order of the mode columns in the
/// character-count indicator table.
pub open spec fn spec_mode_index(m: Mode) -> int {
    match m {
        Mode::Numeric => 0,
        Mode::Alphanumeric => 1,
        Mode::Byte => 2,
        Mode::Kanji => 3,
    }
}

/// Whether a code point lies in the 45-character alphanumeric set.
pub open spec fn is_alphanumeric_cp(u: u32) -> bool {
    (48 <= u <= 57) || (65 <= u <= 90) || u == 32 || u == 36 || u == 37 || u == 42 || u == 43
        || u == 45 || u == 46 || u == 47 || u == 58
}

/// Whether a mode's character set contains the character.  Byte mode is
/// the universal fallback and accepts every character.
pub open spec fn spec_mode_supports(m: Mode, c: char) -> bool {
    match m {
        Mode::Numeric => 48 <= (c as u32) <= 57,
        Mode::Alphanumeric => is_alphanumeric_cp(c as u32),
        Mode::Byte => true,
        Mode::Kanji => 0x800 <= (c as u32) <= 0x4e00,
    }
}

/// Whether a mode can represent every character of a text.
pub open spec fn spec_mode_supports_all(m: Mode, s: Seq<char>) -> bool {
    forall|i: int| 0 <= i < s.len() ==> spec_mode_supports(m, s[i])
}

/// Byte mode accepts every text: the guaranteed fallback of mode
/// classification.
pub proof fn lemma_byte_mode_is_fallback(s: Seq<char>)
    ensures
        spec_mode_supports_all(Mode::Byte, s),
{
}

impl Mode {
    /// Index of this mode in the indicator table.
    pub fn to_usize(&self) -> (r: usize)
        ensures
            r == spec_mode_index(*self),
            r < 4,
    {
        match self {
            Mode::Numeric => 0,
            Mode::Alphanumeric => 1,
            Mode::Byte => 2,
            Mode::Kanji => 3,
        }
    }

    /// Whether the character lies outside this mode's character set.
    pub fn not_support(&self, c: char) -> (r: bool)
        ensures
            r == !spec_mode_supports(*self, c),
    {
        let u = c as u32;
        match self {
            Mode::Numeric => !(48 <= u && u <= 57),
            Mode::Alphanumeric => !((48 <= u && u <= 57) || (65 <= u && u <= 90) || u == 32
                || u == 36 || u == 37 || u == 42 || u == 43 || u == 45 || u == 46 || u == 47
                || u == 58),
            Mode::Byte => false,
            Mode::Kanji => !(0x800 <= u && u <= 0x4e00),
        }
    }
}

/// An alphanumeric-mode character is ASCII, and its code point is an
/// alphanumeric-table byte.
pub proof fn lemma_alphanumeric_char_is_table_byte(c: char)
    requires
        spec_mode_supports(Mode::Alphanumeric, c),
    ensures
        (c as u32) < 128,
        is_alphanumeric_byte((c as u32) as u8),
{
}

} // verus!
