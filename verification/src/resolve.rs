//! Mode classification and version resolution.

use vstd::prelude::*;
use vstd::string::StrSliceExecFns;
use crate::encoder::Encoder;
use crate::encoder::QrError;
use crate::mode::Mode;
use crate::mode::spec_mode_index;
use crate::mode::spec_mode_supports;
use crate::mode::spec_mode_supports_all;
use vstd::arithmetic::power2::pow2;
use vstd::arithmetic::power2::lemma2_to64;
use vstd::arithmetic::div_mod::lemma_fundamental_div_mod;
use crate::qrcode_info::capacity;
use crate::qrcode_info::lemma_capacity_class_bounds;
use crate::qrcode_info::indicator_bits;
use crate::qrcode_info::spec_capacity_bits;
use crate::qrcode_info::spec_indicator_bits;

verus! {

/// The narrowest mode whose character set covers the whole text; Byte
/// is the fallback when no narrower set does.
pub open spec fn spec_detect_mode(s: Seq<char>) -> Mode {
    if spec_mode_supports_all(Mode::Numeric, s) {
        Mode::Numeric
    } else if spec_mode_supports_all(Mode::Alphanumeric, s) {
        Mode::Alphanumeric
    } else if spec_mode_supports_all(Mode::Kanji, s) {
        Mode::Kanji
    } else {
        Mode::Byte
    }
}

/// The detected mode can represent every character of the text.
pub proof fn lemma_detected_mode_supports_text(s: Seq<char>)
    ensures
        spec_mode_supports_all(spec_detect_mode(s), s),
{
}

/// Payload bits of `len` characters in a mode, by the mode's bit
/// formula (for Byte mode, `len` counts payload bytes; for Kanji,
/// encoded characters).
pub open spec fn spec_payload_bits(m: Mode, len: int) -> int {
    match m {
        Mode::Numeric => 10 * (len / 3) + (
        if len % 3 == 0 {
            0int
        } else if len % 3 == 1 {
            4int
        } else {
            7int
        }),
        Mode::Alphanumeric => 11 * (len / 2) + (if len % 2 == 0 {
            0int
        } else {
            6int
        }),
        Mode::Byte => 8 * len,
        Mode::Kanji => 13 * len,
    }
}

/// Mode indicator, count indicator, and payload bits together.
pub open spec fn spec_total_bits(m: Mode, len: int, v: int) -> int {
    4 + spec_indicator_bits(v, spec_mode_index(m)) + spec_payload_bits(m, len)
}

/// Whether a version's data capacity holds the whole bit stream.
pub open spec fn spec_version_fits(m: Mode, e: int, len: int, v: int) -> bool {
    spec_total_bits(m, len, v) <= spec_capacity_bits(v, e)
}

/// Whether the mode's character set covers the whole text.
pub(crate) fn supports_all(m: Mode, message: &str) -> (r: bool)
    ensures
        r == spec_mode_supports_all(m, message@),
{
    let n = message.unicode_len();
    let mut i: usize = 0;
    while i < n
        invariant
            i <= n,
            n == message@.len(),
            forall|j: int| 0 <= j < i ==> spec_mode_supports(m, message@[j]),
        decreases n - i,
    {
        if m.not_support(message.get_char(i)) {
            return false;
        }
        i += 1;
    }
    true
}

impl Encoder {
    /// Picks the narrowest sufficient mode for the text, unless a mode
    /// was already chosen.  Classification cannot fail: Byte mode is
    /// the universal fallback.
    pub fn mode_detect(&mut self, message: &str)
        ensures
            final(self).data == old(self).data,
            final(self).ec_level == old(self).ec_level,
            final(self).version == old(self).version,
            old(self).mode is Some ==> final(self).mode == old(self).mode,
            old(self).mode is None ==> final(self).mode == Some(spec_detect_mode(message@)),
    {
        if self.mode.is_some() {
            return ;
        }
        if supports_all(Mode::Numeric, message) {
            self.mode = Some(Mode::Numeric);
        } else if supports_all(Mode::Alphanumeric, message) {
            self.mode = Some(Mode::Alphanumeric);
        } else if supports_all(Mode::Kanji, message) {
            self.mode = Some(Mode::Kanji);
        } else {
            self.mode = Some(Mode::Byte);
        }
    }

    /// Resolves the version: the smallest version 1..=40 whose data
    /// capacity holds the payload, or the caller's own version after a
    /// capacity check.  Returns the width of the character-count
    /// indicator for the resolved version, or `CapacityExceeded`.
    pub fn version_detect(&mut self, len: u16) -> (r: Result<usize, QrError>)
        requires
            old(self).mode is Some,
            old(self).ec_level < 4,
            old(self).version == 0 || 1 <= old(self).version <= 40,
        ensures
            final(self).data == old(self).data,
            final(self).ec_level == old(self).ec_level,
            final(self).mode == old(self).mode,
            ({
                let m = old(self).mode->0;
                let e = old(self).ec_level as int;
                match r {
                    Ok(bits) => {
                        let v = final(self).version as int;
                        &&& 1 <= v <= 40
                        &&& spec_version_fits(m, e, len as int, v)
                        &&& bits == spec_indicator_bits(v, spec_mode_index(m))
                        &&& (old(self).version != 0 ==> v == old(self).version)
                        &&& (old(self).version == 0 ==> forall|w: int|
                            1 <= w < v ==> !spec_version_fits(m, e, len as int, w))
                    },
                    Err(err) => {
                        &&& err == QrError::CapacityExceeded
                        &&& final(self).version == old(self).version
                        &&& (old(self).version != 0 ==> !spec_version_fits(
                            m,
                            e,
                            len as int,
                            old(self).version as int,
                        ))
                        &&& (old(self).version == 0 ==> forall|w: int|
                            1 <= w <= 40 ==> !spec_version_fits(m, e, len as int, w))
                    },
                }
            }),
    {
        let m = self.mode.unwrap();
        let mi = m.to_usize();
        let lenu = len as u32;
        let payload: u32 = match m {
            Mode::Numeric => 10 * (lenu / 3) + (
            if lenu % 3 == 0 {
                0
            } else if lenu % 3 == 1 {
                4
            } else {
                7
            }),
            Mode::Alphanumeric => 11 * (lenu / 2) + (if lenu % 2 == 0 {
                0
            } else {
                6
            }),
            Mode::Byte => 8 * lenu,
            Mode::Kanji => 13 * lenu,
        };
        proof {
            assert(payload == spec_payload_bits(m, len as int));
        }
        if self.version != 0 {
            let bits = indicator_bits(self.version, mi);
            let total = 4 + bits as u32 + payload;
            if total <= 8 * (capacity(self.version, self.ec_level) as u32) {
                Ok(bits)
            } else {
                Err(QrError::CapacityExceeded)
            }
        } else {
            let mut v: usize = 1;
            while v <= 40
                invariant
                    1 <= v <= 41,
                    self.mode == old(self).mode,
                    self.mode == Some(m),
                    self.data == old(self).data,
                    self.ec_level == old(self).ec_level,
                    self.ec_level < 4,
                    self.version == 0,
                    old(self).version == 0,
                    mi == spec_mode_index(m),
                    payload == spec_payload_bits(m, len as int),
                    forall|w: int|
                        1 <= w < v ==> !spec_version_fits(
                            m,
                            self.ec_level as int,
                            len as int,
                            w,
                        ),
                decreases 41 - v,
            {
                let bits = indicator_bits(v, mi);
                let total = 4 + bits as u32 + payload;
                if total <= 8 * (capacity(v, self.ec_level) as u32) {
                    self.version = v;
                    return Ok(bits);
                }
                v += 1;
            }
            Err(QrError::CapacityExceeded)
        }
    }
}

/// Every mode spends at least three bits per payload unit.
pub proof fn lemma_payload_bits_lower(m: Mode, len: int)
    requires
        len >= 0,
    ensures
        spec_payload_bits(m, len) >= 3 * len,
        m is Alphanumeric ==> 2 * spec_payload_bits(m, len) >= 11 * len,
        m is Byte ==> spec_payload_bits(m, len) == 8 * len,
        m is Kanji ==> spec_payload_bits(m, len) == 13 * len,
{
    match m {
        Mode::Numeric => {
            lemma_fundamental_div_mod(len, 3);
        },
        Mode::Alphanumeric => {
            lemma_fundamental_div_mod(len, 2);
        },
        Mode::Byte => {
        },
        Mode::Kanji => {
        },
    }
}

/// A payload that fits a version is shorter than the range of that
/// version's character-count indicator.
pub proof fn lemma_fits_len_bound(m: Mode, e: int, len: int, v: int)
    requires
        1 <= v <= 40,
        0 <= e < 4,
        len >= 0,
        spec_version_fits(m, e, len, v),
    ensures
        len < pow2(spec_indicator_bits(v, spec_mode_index(m)) as nat),
        spec_indicator_bits(v, spec_mode_index(m)) <= 16,
        len < 65536,
{
    lemma_capacity_class_bounds(v, e);
    lemma_payload_bits_lower(m, len);
    lemma2_to64();
    let cap_bits = spec_capacity_bits(v, e);
    let cci = spec_indicator_bits(v, spec_mode_index(m));
    assert(spec_payload_bits(m, len) <= cap_bits);
    match m {
        Mode::Numeric => {
            assert(3 * len <= cap_bits);
        },
        Mode::Alphanumeric => {
            assert(2 * spec_payload_bits(m, len) <= 2 * cap_bits);
            assert(11 * len <= 2 * cap_bits);
        },
        Mode::Byte => {
            assert(8 * len <= cap_bits);
        },
        Mode::Kanji => {
            assert(13 * len <= cap_bits);
        },
    }
}

/// No version holds a payload of more than 7882 characters.
pub proof fn lemma_no_fit_when_long(m: Mode, e: int, len: int)
    requires
        0 <= e < 4,
        len > 7882,
    ensures
        forall|v: int| 1 <= v <= 40 ==> !spec_version_fits(m, e, len, v),
{
    assert forall|v: int| 1 <= v <= 40 implies !spec_version_fits(m, e, len, v) by {
        lemma_capacity_class_bounds(v, e);
        lemma_payload_bits_lower(m, len);
    }
}

} // verus!
