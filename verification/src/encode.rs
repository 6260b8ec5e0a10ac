//! Bitstream construction: mode indicator, character-count indicator,
//! and the payload bits of each encoding mode.

use vstd::prelude::*;
use vstd::arithmetic::power2::pow2;
use vstd::arithmetic::power2::lemma2_to64;
use vstd::string::StrSliceExecFns;
use vstd::string::StringSliceAdditionalSpecFns;
use crate::bits::bits_of;
use crate::bits::is_bits;
use crate::bits::lemma_bits_of_is_bits;
use crate::bits::push_binary;
use crate::encoder::Encoder;
use crate::mode::Mode;
use crate::mode::spec_mode_supports;
use crate::mode::spec_mode_supports_all;
use crate::qrcode_info::alphanumeric_table;
use crate::qrcode_info::spec_alphanumeric_value;

verus! {

/// The 4-bit mode indicator.
pub open spec fn spec_mode_indicator(m: Mode) -> Seq<u8> {
    match m {
        Mode::Numeric => seq![0u8, 0u8, 0u8, 1u8],
        Mode::Alphanumeric => seq![0u8, 0u8, 1u8, 0u8],
        Mode::Byte => seq![0u8, 1u8, 0u8, 0u8],
        Mode::Kanji => seq![1u8, 0u8, 0u8, 0u8],
    }
}

/// Mode indicator followed by the character count in `cci` bits.
pub open spec fn spec_mode_header(m: Mode, len: int, cci: nat) -> Seq<u8> {
    spec_mode_indicator(m) + bits_of(len, cci)
}

/// Value of a decimal digit character.
pub open spec fn spec_digit_val(c: char) -> int {
    (c as u32) - 48
}

/// Code value of an alphanumeric-mode character.
pub open spec fn spec_alnum_val(c: char) -> int {
    spec_alphanumeric_value((c as u32) as u8)
}

/// Numeric payload: groups of three digits in 10 bits, a leftover pair
/// in 7 bits, a leftover single digit in 4 bits.
pub open spec fn spec_numeric_payload(s: Seq<char>) -> Seq<u8>
    decreases s.len(),
{
    if s.len() >= 3 {
        bits_of(100 * spec_digit_val(s[0]) + 10 * spec_digit_val(s[1]) + spec_digit_val(s[2]), 10)
            + spec_numeric_payload(s.skip(3))
    } else if s.len() == 2 {
        bits_of(10 * spec_digit_val(s[0]) + spec_digit_val(s[1]), 7)
    } else if s.len() == 1 {
        bits_of(spec_digit_val(s[0]), 4)
    } else {
        Seq::empty()
    }
}

/// Alphanumeric payload: pairs as 45*a + b in 11 bits, a leftover
/// symbol in 6 bits.
pub open spec fn spec_alnum_payload(s: Seq<char>) -> Seq<u8>
    decreases s.len(),
{
    if s.len() >= 2 {
        bits_of(45 * spec_alnum_val(s[0]) + spec_alnum_val(s[1]), 11) + spec_alnum_payload(
            s.skip(2),
        )
    } else if s.len() == 1 {
        bits_of(spec_alnum_val(s[0]), 6)
    } else {
        Seq::empty()
    }
}

impl Encoder {
    /// Numeric-mode bitstream: indicator, count in `bits_count` bits,
    /// digit groups.
    pub fn numeric_encode(&mut self, bits_count: usize, message: &str)
        requires
            spec_mode_supports_all(Mode::Numeric, message@),
            (message@.len() as int) < pow2(bits_count as nat),
            bits_count <= 16,
        ensures
            final(self).data@ =~= spec_mode_header(
                Mode::Numeric,
                message@.len() as int,
                bits_count as nat,
            ) + spec_numeric_payload(message@),
            final(self).ec_level == old(self).ec_level,
            final(self).mode == old(self).mode,
            final(self).version == old(self).version,
    {
        proof {
            lemma2_to64();
            if bits_count < 16 {
                vstd::arithmetic::power2::lemma_pow2_strictly_increases(bits_count as nat, 16);
            }
        }
        let n = message.unicode_len();
        let ghost s = message@;
        let ghost header = spec_mode_header(Mode::Numeric, n as int, bits_count as nat);
        let mut data: Vec<u8> = Vec::new();
        data.push(0);
        data.push(0);
        data.push(0);
        data.push(1);
        proof {
            assert(data@ =~= spec_mode_indicator(Mode::Numeric));
        }
        push_binary(&mut data, bits_count, n as u16);
        proof {
            lemma_bits_of_is_bits(n as int, bits_count as nat);
            assert(data@ =~= header);
            assert(s.skip(0) =~= s);
        }
        let mut i: usize = 0;
        while i + 3 <= n
            invariant
                i <= n,
                n <= 65536,
                n == s.len(),
                data@.len() <= 20 + 4 * i,
                spec_mode_supports_all(Mode::Numeric, s),
                s == message@,
                data@ + spec_numeric_payload(s.skip(i as int)) =~= header + spec_numeric_payload(
                    s,
                ),
            decreases n - i,
        {
            let d0 = message.get_char(i) as u32 - 48;
            let d1 = message.get_char(i + 1) as u32 - 48;
            let d2 = message.get_char(i + 2) as u32 - 48;
            let group = 100 * d0 + 10 * d1 + d2;
            proof {
                lemma2_to64();
                assert(spec_mode_supports(Mode::Numeric, s[i as int]));
                assert(spec_mode_supports(Mode::Numeric, s[i as int + 1]));
                assert(spec_mode_supports(Mode::Numeric, s[i as int + 2]));
            }
            push_binary(&mut data, 10, group as u16);
            proof {
                lemma_bits_of_is_bits(group as int, 10);
                assert(s.skip(i as int).skip(3) =~= s.skip(i + 3));
                assert(spec_numeric_payload(s.skip(i as int)) =~= bits_of(group as int, 10)
                    + spec_numeric_payload(s.skip(i + 3)));
            }
            i += 3;
        }
        if n - i == 2 {
            let d0 = message.get_char(i) as u32 - 48;
            let d1 = message.get_char(i + 1) as u32 - 48;
            proof {
                lemma2_to64();
                assert(spec_mode_supports(Mode::Numeric, s[i as int]));
                assert(spec_mode_supports(Mode::Numeric, s[i as int + 1]));
            }
            push_binary(&mut data, 7, (10 * d0 + d1) as u16);
        } else if n - i == 1 {
            let d0 = message.get_char(i) as u32 - 48;
            proof {
                lemma2_to64();
                assert(spec_mode_supports(Mode::Numeric, s[i as int]));
            }
            push_binary(&mut data, 4, d0 as u16);
        }
        self.data = data;
    }

    /// Alphanumeric-mode bitstream: indicator, count, symbol pairs.
    pub fn alphanumeric_encode(&mut self, bits_count: usize, message: &str)
        requires
            spec_mode_supports_all(Mode::Alphanumeric, message@),
            (message@.len() as int) < pow2(bits_count as nat),
            bits_count <= 16,
        ensures
            final(self).data@ =~= spec_mode_header(
                Mode::Alphanumeric,
                message@.len() as int,
                bits_count as nat,
            ) + spec_alnum_payload(message@),
            final(self).ec_level == old(self).ec_level,
            final(self).mode == old(self).mode,
            final(self).version == old(self).version,
    {
        proof {
            lemma2_to64();
            if bits_count < 16 {
                vstd::arithmetic::power2::lemma_pow2_strictly_increases(bits_count as nat, 16);
            }
        }
        let n = message.unicode_len();
        let ghost s = message@;
        let ghost header = spec_mode_header(Mode::Alphanumeric, n as int, bits_count as nat);
        let mut data: Vec<u8> = Vec::new();
        data.push(0);
        data.push(0);
        data.push(1);
        data.push(0);
        proof {
            assert(data@ =~= spec_mode_indicator(Mode::Alphanumeric));
        }
        push_binary(&mut data, bits_count, n as u16);
        proof {
            lemma_bits_of_is_bits(n as int, bits_count as nat);
            assert(data@ =~= header);
            assert(s.skip(0) =~= s);
        }
        let mut i: usize = 0;
        while i + 2 <= n
            invariant
                i <= n,
                n <= 65536,
                n == s.len(),
                data@.len() <= 20 + 6 * i,
                spec_mode_supports_all(Mode::Alphanumeric, s),
                s == message@,
                data@ + spec_alnum_payload(s.skip(i as int)) =~= header + spec_alnum_payload(s),
            decreases n - i,
        {
            proof {
                assert(spec_mode_supports(Mode::Alphanumeric, s[i as int]));
                assert(spec_mode_supports(Mode::Alphanumeric, s[i as int + 1]));
                crate::mode::lemma_alphanumeric_char_is_table_byte(s[i as int]);
                crate::mode::lemma_alphanumeric_char_is_table_byte(s[i as int + 1]);
            }
            let a = alphanumeric_table(message.get_char(i) as u32 as u8);
            let b = alphanumeric_table(message.get_char(i + 1) as u32 as u8);
            let pair = 45 * a + b;
            proof {
                lemma2_to64();
            }
            push_binary(&mut data, 11, pair);
            proof {
                lemma_bits_of_is_bits(pair as int, 11);
                assert(s.skip(i as int).skip(2) =~= s.skip(i + 2));
                assert(spec_alnum_payload(s.skip(i as int)) =~= bits_of(pair as int, 11)
                    + spec_alnum_payload(s.skip(i + 2)));
            }
            i += 2;
        }
        if n - i == 1 {
            proof {
                assert(spec_mode_supports(Mode::Alphanumeric, s[i as int]));
                crate::mode::lemma_alphanumeric_char_is_table_byte(s[i as int]);
                lemma2_to64();
            }
            let a = alphanumeric_table(message.get_char(i) as u32 as u8);
            push_binary(&mut data, 6, a);
        }
        self.data = data;
    }
}

/// Byte payload: each payload byte verbatim in 8 bits.
pub open spec fn spec_byte_payload(b: Seq<u8>) -> Seq<u8>
    decreases b.len(),
{
    if b.len() == 0 {
        Seq::empty()
    } else {
        bits_of(b[0] as int, 8) + spec_byte_payload(b.drop_first())
    }
}

/// The Shift-JIS encoding of a text, a function of its characters
/// alone.
pub uninterp spec fn shift_jis_of(s: Seq<char>) -> Seq<u8>;

/// Relies on encoding_rs's `Encoding::encode` for SHIFT_JIS: the
/// returned bytes depend on the input text alone (an unmappable
/// character becomes a fixed numeric character reference).  The length
/// bound keeps the encoder's backing-buffer size calculation, which
/// panics on `usize` overflow, far from overflowing.
#[verifier::external_body]
pub(crate) fn shift_jis_encode(message: &str) -> (r: Vec<u8>)
    requires
        message@.len() <= 0xff_ffff,
    ensures
        r@ == shift_jis_of(message@),
{
    let (bytes, _, _) = encoding_rs::SHIFT_JIS.encode(message);
    bytes.into_owned()
}

/// 13-bit packed value of one Shift-JIS double-byte pair.
pub open spec fn spec_kanji_pair_val(hi: u8, lo: u8) -> int {
    let v = (hi as int) * 256 + (lo as int);
    let d = if v < 0xe040 {
        v - 0x8140
    } else {
        v - 0xc140
    };
    (d / 256) * 0xc0 + (d % 256)
}

/// Whether the pair lies in the range Kanji mode can pack in 13 bits.
pub open spec fn spec_kanji_pair_ok(hi: u8, lo: u8) -> bool {
    (hi as int) * 256 + (lo as int) >= 0x8140 && spec_kanji_pair_val(hi, lo) < 8192
}

/// Kanji payload of a Shift-JIS byte sequence: each double-byte value
/// packed into 13 bits; `None` when the sequence is malformed (odd
/// length, or a pair outside the packable range).
pub open spec fn spec_kanji_payload(b: Seq<u8>) -> Option<Seq<u8>>
    decreases b.len(),
{
    if b.len() == 0 {
        Some(Seq::empty())
    } else if b.len() == 1 {
        None
    } else if !spec_kanji_pair_ok(b[0], b[1]) {
        None
    } else {
        match spec_kanji_payload(b.skip(2)) {
            Some(rest) => Some(bits_of(spec_kanji_pair_val(b[0], b[1]), 13) + rest),
            None => None,
        }
    }
}

pub proof fn lemma_kanji_payload_even(b: Seq<u8>)
    requires
        spec_kanji_payload(b) is Some,
    ensures
        b.len() % 2 == 0,
    decreases b.len(),
{
    if b.len() >= 2 {
        lemma_kanji_payload_even(b.skip(2));
    }
}

/// Whether a Shift-JIS byte sequence is a well-formed run of pairs
/// that Kanji mode can represent.
pub fn kanji_validate(bytes: &Vec<u8>) -> (r: bool)
    ensures
        r == (spec_kanji_payload(bytes@) is Some),
{
    let n = bytes.len();
    if n % 2 != 0 {
        proof {
            if spec_kanji_payload(bytes@) is Some {
                lemma_kanji_payload_even(bytes@);
            }
        }
        return false;
    }
    let mut i: usize = 0;
    proof {
        assert(bytes@.skip(0) =~= bytes@);
    }
    while i < n
        invariant
            i <= n,
            i % 2 == 0,
            n % 2 == 0,
            n == bytes@.len(),
            (spec_kanji_payload(bytes@) is Some) == (spec_kanji_payload(bytes@.skip(i as int))
                is Some),
        decreases n - i,
    {
        let v: u32 = (bytes[i] as u32) * 256 + (bytes[i + 1] as u32);
        let ok = if v < 0x8140 {
            false
        } else {
            let d = if v < 0xe040 {
                v - 0x8140
            } else {
                v - 0xc140
            };
            let packed = (d / 256) * 0xc0 + (d % 256);
            packed < 8192
        };
        proof {
            assert(ok == spec_kanji_pair_ok(bytes@[i as int], bytes@[i as int + 1]));
        }
        if !ok {
            proof {
                let t = bytes@.skip(i as int);
                assert(t.len() == n - i);
                assert(t[0] == bytes@[i as int] && t[1] == bytes@[i as int + 1]);
                assert(spec_kanji_payload(t) is None);
            }
            return false;
        }
        proof {
            assert(bytes@.skip(i as int).skip(2) =~= bytes@.skip(i + 2));
        }
        i += 2;
    }
    proof {
        assert(bytes@.skip(n as int).len() == 0);
    }
    true
}

impl Encoder {
    /// Byte-mode bitstream: indicator, byte count, each byte verbatim.
    pub fn byte_encode(&mut self, bits_count: usize, message: &str)
        requires
            (message.spec_bytes().len() as int) < pow2(bits_count as nat),
            bits_count <= 16,
        ensures
            final(self).data@ =~= spec_mode_header(
                Mode::Byte,
                message.spec_bytes().len() as int,
                bits_count as nat,
            ) + spec_byte_payload(message.spec_bytes()),
            final(self).ec_level == old(self).ec_level,
            final(self).mode == old(self).mode,
            final(self).version == old(self).version,
    {
        proof {
            lemma2_to64();
            if bits_count < 16 {
                vstd::arithmetic::power2::lemma_pow2_strictly_increases(bits_count as nat, 16);
            }
        }
        let bytes = message.as_bytes();
        let n = bytes.len();
        let ghost bs = message.spec_bytes();
        let ghost header = spec_mode_header(Mode::Byte, n as int, bits_count as nat);
        let mut data: Vec<u8> = Vec::new();
        data.push(0);
        data.push(1);
        data.push(0);
        data.push(0);
        proof {
            assert(data@ =~= spec_mode_indicator(Mode::Byte));
        }
        push_binary(&mut data, bits_count, n as u16);
        proof {
            lemma_bits_of_is_bits(n as int, bits_count as nat);
            assert(data@ =~= header);
            assert(bs.skip(0) =~= bs);
        }
        let mut i: usize = 0;
        while i < n
            invariant
                i <= n,
                n <= 65536,
                n == bs.len(),
                bytes@ == bs,
                data@.len() <= 20 + 8 * i,
                data@ + spec_byte_payload(bs.skip(i as int)) =~= header + spec_byte_payload(bs),
            decreases n - i,
        {
            proof {
                lemma2_to64();
            }
            push_binary(&mut data, 8, bytes[i] as u16);
            proof {
                lemma_bits_of_is_bits(bs[i as int] as int, 8);
                assert(bs.skip(i as int).drop_first() =~= bs.skip(i + 1));
                assert(spec_byte_payload(bs.skip(i as int)) =~= bits_of(bs[i as int] as int, 8)
                    + spec_byte_payload(bs.skip(i + 1)));
            }
            i += 1;
        }
        self.data = data;
    }

    /// Kanji-mode bitstream from an already well-formed Shift-JIS byte
    /// sequence: indicator, character count, 13 bits per pair.
    pub fn kanji_encode(&mut self, bits_count: usize, bytes: &Vec<u8>)
        requires
            spec_kanji_payload(bytes@) is Some,
            bytes@.len() / 2 < pow2(bits_count as nat),
            bits_count <= 16,
        ensures
            final(self).data@ =~= spec_mode_header(
                Mode::Kanji,
                bytes@.len() as int / 2,
                bits_count as nat,
            ) + (spec_kanji_payload(bytes@)->0),
            final(self).ec_level == old(self).ec_level,
            final(self).mode == old(self).mode,
            final(self).version == old(self).version,
    {
        proof {
            lemma2_to64();
            if bits_count < 16 {
                vstd::arithmetic::power2::lemma_pow2_strictly_increases(bits_count as nat, 16);
            }
            lemma_kanji_payload_even(bytes@);
        }
        let b = bytes;
        let n = b.len();
        let pairs = n / 2;
        let ghost bs = b@;
        let ghost header = spec_mode_header(Mode::Kanji, pairs as int, bits_count as nat);
        let mut data: Vec<u8> = Vec::new();
        data.push(1);
        data.push(0);
        data.push(0);
        data.push(0);
        proof {
            assert(data@ =~= spec_mode_indicator(Mode::Kanji));
        }
        push_binary(&mut data, bits_count, pairs as u16);
        proof {
            lemma_bits_of_is_bits(pairs as int, bits_count as nat);
            assert(data@ =~= header);
            assert(bs.skip(0) =~= bs);
        }
        let mut i: usize = 0;
        while i < n
            invariant
                i <= n,
                i % 2 == 0,
                n % 2 == 0,
                n <= 131072,
                n == bs.len(),
                b@ == bs,
                data@.len() <= 20 + 7 * i,
                spec_kanji_payload(bs.skip(i as int)) is Some,
                data@ + (spec_kanji_payload(bs.skip(i as int))->0) =~= header + (spec_kanji_payload(
                    bs,
                )->0),
            decreases n - i,
        {
            let hi = b[i];
            let lo = b[i + 1];
            proof {
                assert(spec_kanji_pair_ok(bs[i as int], bs[i as int + 1]));
            }
            let v: u32 = (hi as u32) * 256 + (lo as u32);
            let d = if v < 0xe040 {
                v - 0x8140
            } else {
                v - 0xc140
            };
            let packed = (d / 256) * 0xc0 + (d % 256);
            proof {
                lemma2_to64();
                assert(packed == spec_kanji_pair_val(bs[i as int], bs[i as int + 1]));
            }
            push_binary(&mut data, 13, packed as u16);
            proof {
                lemma_bits_of_is_bits(packed as int, 13);
                assert(bs.skip(i as int).skip(2) =~= bs.skip(i + 2));
                assert((spec_kanji_payload(bs.skip(i as int))->0) =~= bits_of(packed as int, 13)
                    + (spec_kanji_payload(bs.skip(i + 2))->0));
            }
            i += 2;
        }
        proof {
            assert(bs.skip(n as int).len() == 0);
            assert((spec_kanji_payload(bs.skip(n as int))->0) =~= Seq::<u8>::empty());
        }
        self.data = data;
    }
}

/// The numeric payload is a bit string of exactly the numeric-mode
/// bit count.
pub proof fn lemma_numeric_payload_props(s: Seq<char>)
    requires
        spec_mode_supports_all(Mode::Numeric, s),
    ensures
        is_bits(spec_numeric_payload(s)),
        spec_numeric_payload(s).len() == crate::resolve::spec_payload_bits(
            Mode::Numeric,
            s.len() as int,
        ),
    decreases s.len(),
{
    vstd::arithmetic::div_mod::lemma_fundamental_div_mod(s.len() as int, 3);
    if s.len() >= 3 {
        assert(spec_mode_supports_all(Mode::Numeric, s.skip(3))) by {
            assert forall|i: int|
                0 <= i < s.skip(3).len() implies spec_mode_supports(
                Mode::Numeric,
                s.skip(3)[i],
            ) by {
                assert(s.skip(3)[i] == s[i + 3]);
                assert(spec_mode_supports(Mode::Numeric, s[i + 3]));
            }
        }
        lemma_numeric_payload_props(s.skip(3));
        assert(spec_mode_supports(Mode::Numeric, s[0]));
        assert(spec_mode_supports(Mode::Numeric, s[1]));
        assert(spec_mode_supports(Mode::Numeric, s[2]));
        lemma_bits_of_is_bits(
            100 * spec_digit_val(s[0]) + 10 * spec_digit_val(s[1]) + spec_digit_val(s[2]),
            10,
        );
        vstd::arithmetic::div_mod::lemma_fundamental_div_mod(s.len() - 3, 3);
    } else if s.len() == 2 {
        assert(spec_mode_supports(Mode::Numeric, s[0]));
        assert(spec_mode_supports(Mode::Numeric, s[1]));
        lemma_bits_of_is_bits(10 * spec_digit_val(s[0]) + spec_digit_val(s[1]), 7);
    } else if s.len() == 1 {
        assert(spec_mode_supports(Mode::Numeric, s[0]));
        lemma_bits_of_is_bits(spec_digit_val(s[0]), 4);
    }
}

/// The alphanumeric payload is a bit string of exactly the
/// alphanumeric-mode bit count.
pub proof fn lemma_alnum_payload_props(s: Seq<char>)
    requires
        spec_mode_supports_all(Mode::Alphanumeric, s),
    ensures
        is_bits(spec_alnum_payload(s)),
        spec_alnum_payload(s).len() == crate::resolve::spec_payload_bits(
            Mode::Alphanumeric,
            s.len() as int,
        ),
    decreases s.len(),
{
    vstd::arithmetic::div_mod::lemma_fundamental_div_mod(s.len() as int, 2);
    if s.len() >= 2 {
        assert(spec_mode_supports_all(Mode::Alphanumeric, s.skip(2))) by {
            assert forall|i: int|
                0 <= i < s.skip(2).len() implies spec_mode_supports(
                Mode::Alphanumeric,
                s.skip(2)[i],
            ) by {
                assert(s.skip(2)[i] == s[i + 2]);
                assert(spec_mode_supports(Mode::Alphanumeric, s[i + 2]));
            }
        }
        lemma_alnum_payload_props(s.skip(2));
        assert(spec_mode_supports(Mode::Alphanumeric, s[0]));
        assert(spec_mode_supports(Mode::Alphanumeric, s[1]));
        lemma_bits_of_is_bits(45 * spec_alnum_val(s[0]) + spec_alnum_val(s[1]), 11);
        vstd::arithmetic::div_mod::lemma_fundamental_div_mod(s.len() - 2, 2);
    } else if s.len() == 1 {
        assert(spec_mode_supports(Mode::Alphanumeric, s[0]));
        lemma_bits_of_is_bits(spec_alnum_val(s[0]), 6);
    }
}

/// The byte payload is a bit string of eight bits per byte.
pub proof fn lemma_byte_payload_props(b: Seq<u8>)
    ensures
        is_bits(spec_byte_payload(b)),
        spec_byte_payload(b).len() == 8 * b.len(),
    decreases b.len(),
{
    if b.len() > 0 {
        lemma_byte_payload_props(b.drop_first());
        lemma_bits_of_is_bits(b[0] as int, 8);
    }
}

/// A well-formed Kanji payload is a bit string of thirteen bits per
/// double-byte character.
pub proof fn lemma_kanji_payload_props(b: Seq<u8>)
    requires
        spec_kanji_payload(b) is Some,
    ensures
        is_bits(spec_kanji_payload(b)->0),
        (spec_kanji_payload(b)->0).len() == 13 * (b.len() as int / 2),
    decreases b.len(),
{
    if b.len() >= 2 {
        lemma_kanji_payload_props(b.skip(2));
        lemma_bits_of_is_bits(spec_kanji_pair_val(b[0], b[1]), 13);
    }
}

} // verus!
