//! Bit-level helpers: writing a number as big-endian bits and reading a
//! group of bits back as a byte.

use vstd::prelude::*;
use vstd::arithmetic::power2::pow2;
use vstd::slice::slice_subrange;
use crate::encoder::Encoder;
use crate::qrcode_info::capacity;
use crate::qrcode_info::remainder_bits;
use crate::qrcode_info::spec_capacity;
use crate::qrcode_info::spec_capacity_bits;
use crate::qrcode_info::spec_remainder_bits;
use vstd::arithmetic::power2::lemma_pow2_strictly_increases;
use vstd::arithmetic::power2::lemma_pow2_unfold;
use vstd::arithmetic::power2::lemma2_to64;

verus! {

/// The `width` low bits of `num`, most significant first, one bit per byte.
pub open spec fn bits_of(num: int, width: nat) -> Seq<u8>
    decreases width,
{
    if width == 0 {
        Seq::empty()
    } else {
        bits_of(num / 2, (width - 1) as nat).push((num % 2) as u8)
    }
}

/// A sequence is a bit string: every element is 0 or 1.
pub open spec fn is_bits(s: Seq<u8>) -> bool {
    forall|i: int| 0 <= i < s.len() ==> s[i] <= 1
}

/// The value of a big-endian bit string.
pub open spec fn bits_val(s: Seq<u8>) -> int
    decreases s.len(),
{
    if s.len() == 0 {
        0
    } else {
        2 * bits_val(s.drop_last()) + s.last()
    }
}

pub proof fn lemma_bits_of_zero(width: nat)
    ensures
        bits_of(0, width) =~= Seq::new(width, |i: int| 0u8),
    decreases width,
{
    if width > 0 {
        lemma_bits_of_zero((width - 1) as nat);
    }
}

pub proof fn lemma_bits_of_is_bits(num: int, width: nat)
    requires
        num >= 0,
    ensures
        is_bits(bits_of(num, width)),
        bits_of(num, width).len() == width,
    decreases width,
{
    if width > 0 {
        lemma_bits_of_is_bits(num / 2, (width - 1) as nat);
    }
}

proof fn lemma_bits_val_bound(s: Seq<u8>)
    requires
        is_bits(s),
    ensures
        0 <= bits_val(s) < pow2(s.len()),
    decreases s.len(),
{
    if s.len() == 0 {
        assert(pow2(0) == 1) by {
            lemma2_to64();
        }
    } else {
        assert(is_bits(s.drop_last()));
        lemma_bits_val_bound(s.drop_last());
        lemma_pow2_unfold(s.len());
    }
}

/// Appends `num` to `binary` as `bits_count` big-endian bits.
pub fn push_binary(binary: &mut Vec<u8>, bits_count: usize, num: u16)
    requires
        old(binary).len() + bits_count <= usize::MAX,
        (num as int) < pow2(bits_count as nat),
    ensures
        final(binary)@ =~= old(binary)@ + bits_of(num as int, bits_count as nat),
{
    let ghost orig = binary@;
    let start = binary.len();
    let mut i: usize = 0;
    while i < bits_count
        invariant
            i <= bits_count,
            start == orig.len(),
            start + bits_count <= usize::MAX,
            binary@ =~= orig + Seq::new(i as nat, |j: int| 0u8),
        decreases bits_count - i,
    {
        binary.push(0);
        i += 1;
    }
    let total = binary.len();
    let mut len = total;
    let mut n = num;
    proof {
        assert(bits_of(num as int, bits_count as nat)
            =~= bits_of(n as int, (len - start) as nat)
                + binary@.subrange(len as int, total as int));
    }
    while n != 0
        invariant
            start <= len <= total,
            total == start + bits_count,
            binary@.len() == total,
            binary@.subrange(0, start as int) =~= orig,
            forall|j: int| start <= j < len ==> binary@[j] == 0u8,
            (n as int) < pow2((len - start) as nat),
            bits_of(num as int, bits_count as nat)
                =~= bits_of(n as int, (len - start) as nat)
                    + binary@.subrange(len as int, total as int),
        decreases len,
    {
        proof {
            if len == start {
                assert(pow2(0) == 1) by {
                    lemma2_to64();
                }
            }
        }
        let ghost old_view = binary@;
        let ghost m = (len - start) as nat;
        len = len - 1;
        binary.set(len, (n % 2) as u8);
        proof {
            lemma_pow2_unfold(m);
            assert(bits_of(n as int, m)
                =~= bits_of(n as int / 2, (m - 1) as nat).push((n as int % 2) as u8));
            assert(bits_of((n / 2) as int, (m - 1) as nat)
                    + binary@.subrange(len as int, total as int)
                =~= bits_of(n as int, m) + old_view.subrange(len + 1, total as int));
        }
        n = n / 2;
    }
    proof {
        lemma_bits_of_zero((len - start) as nat);
        assert(binary@.subrange(start as int, len as int)
            =~= Seq::new((len - start) as nat, |i: int| 0u8));
        assert(binary@ =~= binary@.subrange(0, start as int)
            + binary@.subrange(start as int, len as int)
            + binary@.subrange(len as int, total as int));
    }
}

/// Reads a big-endian bit group (at most 8 bits) as a byte value.
pub fn decimal(binary: &[u8]) -> (r: u8)
    requires
        binary@.len() <= 8,
        is_bits(binary@),
    ensures
        r as int == bits_val(binary@),
{
    let mut r: u8 = 0;
    let n = binary.len();
    let mut i: usize = 0;
    proof {
        lemma2_to64();
    }
    while i < n
        invariant
            i <= n,
            n == binary@.len() <= 8,
            is_bits(binary@),
            r as int == bits_val(binary@.take(i as int)),
            (r as int) < pow2(i as nat),
        decreases n - i,
    {
        proof {
            lemma_bits_val_bound(binary@.take(i as int));
            lemma2_to64();
            if i + 1 < 8 {
                lemma_pow2_strictly_increases((i + 1) as nat, 8);
            }
            assert(binary@.take(i + 1).drop_last() =~= binary@.take(i as int));
            lemma_pow2_unfold((i + 1) as nat);
        }
        r = 2 * r + binary[i];
        i += 1;
    }
    proof {
        assert(binary@.take(n as int) =~= binary@);
    }
    r
}

/// A run of zero bits.
pub open spec fn zero_seq(n: nat) -> Seq<u8> {
    Seq::new(n, |i: int| 0u8)
}

/// A bit string read as bytes, eight bits at a time.
pub open spec fn spec_bits_to_codewords(bits: Seq<u8>) -> Seq<u8>
    decreases bits.len(),
{
    if bits.len() < 8 {
        Seq::empty()
    } else {
        seq![bits_val(bits.take(8)) as u8] + spec_bits_to_codewords(bits.skip(8))
    }
}

/// A codeword sequence as its bit string.
pub open spec fn spec_bytes_to_bits(b: Seq<u8>) -> Seq<u8>
    decreases b.len(),
{
    if b.len() == 0 {
        Seq::empty()
    } else {
        bits_of(b[0] as int, 8) + spec_bytes_to_bits(b.drop_first())
    }
}

/// The alternating 0xEC / 0x11 padding codewords.
pub open spec fn spec_pad_bytes(n: nat) -> Seq<u8> {
    Seq::new(n, |i: int| if i % 2 == 0 { 236u8 } else { 17u8 })
}

/// The payload bits with the terminator (at most four zero bits, fewer
/// when capacity leaves less room) and zero bits to the byte boundary.
pub open spec fn spec_terminated_bits(bits: Seq<u8>, cap_bits: int) -> Seq<u8> {
    let t: int = if cap_bits - bits.len() >= 4 {
        4
    } else {
        cap_bits - bits.len()
    };
    let w = bits.len() + t;
    bits + zero_seq(t as nat) + zero_seq(((8 - w % 8) % 8) as nat)
}

/// The data codewords: terminated bits packed into bytes, padded with
/// 0xEC / 0x11 to the data capacity of the version and level.
pub open spec fn spec_padded_codewords(bits: Seq<u8>, v: int, e: int) -> Seq<u8> {
    let cw = spec_bits_to_codewords(spec_terminated_bits(bits, spec_capacity_bits(v, e)));
    cw + spec_pad_bytes((spec_capacity(v, e) - cw.len()) as nat)
}

impl Encoder {
    /// Appends terminator and alignment zeros, packs the bits into
    /// byte codewords, and pads to the data-codeword capacity.
    pub fn decimal_data(&mut self)
        requires
            1 <= old(self).version <= 40,
            old(self).ec_level < 4,
            is_bits(old(self).data@),
            old(self).data@.len() <= spec_capacity_bits(
                old(self).version as int,
                old(self).ec_level as int,
            ),
        ensures
            final(self).data@ =~= spec_padded_codewords(
                old(self).data@,
                old(self).version as int,
                old(self).ec_level as int,
            ),
            final(self).data@.len() == spec_capacity(
                old(self).version as int,
                old(self).ec_level as int,
            ),
            final(self).ec_level == old(self).ec_level,
            final(self).mode == old(self).mode,
            final(self).version == old(self).version,
    {
        let ghost bits0 = self.data@;
        let cap = capacity(self.version, self.ec_level) as usize;
        let cap_bits = 8 * cap;
        let len = self.data.len();
        let term = if cap_bits - len >= 4 {
            4
        } else {
            cap_bits - len
        };
        let mut j: usize = 0;
        while j < term
            invariant
                j <= term,
                term <= 4,
                len + term <= cap_bits <= 23648,
                len == bits0.len(),
                self.data@ =~= bits0 + zero_seq(j as nat),
                self.ec_level == old(self).ec_level,
                self.mode == old(self).mode,
                self.version == old(self).version,
            decreases term - j,
        {
            self.data.push(0);
            j += 1;
            proof {
                assert(self.data@ =~= bits0 + zero_seq(j as nat));
            }
        }
        let align = (8 - self.data.len() % 8) % 8;
        let mut j2: usize = 0;
        while j2 < align
            invariant
                j2 <= align,
                align < 8,
                len + term <= cap_bits <= 23648,
                len == bits0.len(),
                term <= 4,
                self.data@ =~= bits0 + zero_seq(term as nat) + zero_seq(j2 as nat),
                self.ec_level == old(self).ec_level,
                self.mode == old(self).mode,
                self.version == old(self).version,
            decreases align - j2,
        {
            self.data.push(0);
            j2 += 1;
            proof {
                assert(self.data@ =~= bits0 + zero_seq(term as nat) + zero_seq(j2 as nat));
            }
        }
        let ghost tb = spec_terminated_bits(bits0, cap_bits as int);
        proof {
            assert(self.data@ =~= tb);
            assert(is_bits(tb));
        }
        let n = self.data.len();
        proof {
            assert(n % 8 == 0);
            assert(n <= cap_bits);
        }
        let mut cws: Vec<u8> = Vec::new();
        let mut i: usize = 0;
        proof {
            assert(tb.skip(0) =~= tb);
        }
        while i < n
            invariant
                i <= n,
                i % 8 == 0,
                n % 8 == 0,
                n == self.data@.len(),
                n <= cap_bits <= 23648,
                self.data@ == tb,
                is_bits(tb),
                cws@.len() == i / 8,
                spec_bits_to_codewords(tb) =~= cws@ + spec_bits_to_codewords(tb.skip(i as int)),
                self.ec_level == old(self).ec_level,
                self.mode == old(self).mode,
                self.version == old(self).version,
            decreases n - i,
        {
            let slice = slice_subrange(self.data.as_slice(), i, i + 8);
            proof {
                assert(slice@ =~= tb.subrange(i as int, i + 8));
                assert(is_bits(slice@));
            }
            let byte = decimal(slice);
            cws.push(byte);
            proof {
                let rest = tb.skip(i as int);
                assert(rest.take(8) =~= tb.subrange(i as int, i + 8));
                assert(rest.skip(8) =~= tb.skip(i + 8));
                assert(byte as int == bits_val(rest.take(8)));
                assert(spec_bits_to_codewords(rest) =~= seq![byte] + spec_bits_to_codewords(
                    tb.skip(i + 8),
                ));
                assert(cws@ =~= (cws@.drop_last() + seq![byte]));
            }
            i += 8;
        }
        proof {
            assert(tb.skip(n as int).len() == 0);
            assert(spec_bits_to_codewords(tb.skip(n as int)) =~= Seq::<u8>::empty());
            assert(spec_bits_to_codewords(tb) =~= cws@);
        }
        let base_len = cws.len();
        let ghost base = cws@;
        let mut p: usize = 0;
        while p < cap - base_len
            invariant
                base_len == base.len() <= cap,
                p <= cap - base_len,
                cap <= 2956,
                cws@ =~= base + spec_pad_bytes(p as nat),
                self.ec_level == old(self).ec_level,
                self.mode == old(self).mode,
                self.version == old(self).version,
            decreases cap - base_len - p,
        {
            if p % 2 == 0 {
                cws.push(236);
            } else {
                cws.push(17);
            }
            p += 1;
            proof {
                assert(cws@ =~= base + spec_pad_bytes(p as nat));
            }
        }
        self.data = cws;
    }

    /// Unpacks the codewords back into bits and appends the remainder
    /// bits of the version.
    pub fn binary_data(&mut self)
        requires
            1 <= old(self).version <= 40,
            old(self).data@.len() <= 8192,
        ensures
            final(self).data@ =~= spec_bytes_to_bits(old(self).data@) + zero_seq(
                spec_remainder_bits(old(self).version as int) as nat,
            ),
            final(self).ec_level == old(self).ec_level,
            final(self).mode == old(self).mode,
            final(self).version == old(self).version,
    {
        let ghost cw = self.data@;
        let n = self.data.len();
        let mut bits: Vec<u8> = Vec::new();
        let mut i: usize = 0;
        proof {
            assert(cw.skip(0) =~= cw);
            lemma2_to64();
        }
        while i < n
            invariant
                i <= n,
                n <= 8192,
                n == self.data@.len(),
                self.data@ == cw,
                bits@.len() == 8 * i,
                spec_bytes_to_bits(cw) =~= bits@ + spec_bytes_to_bits(cw.skip(i as int)),
            decreases n - i,
        {
            proof {
                lemma2_to64();
            }
            push_binary(&mut bits, 8, self.data[i] as u16);
            proof {
                lemma_bits_of_is_bits(cw[i as int] as int, 8);
                let rest = cw.skip(i as int);
                assert(rest.drop_first() =~= cw.skip(i + 1));
                assert(spec_bytes_to_bits(rest) =~= bits_of(cw[i as int] as int, 8)
                    + spec_bytes_to_bits(cw.skip(i + 1)));
            }
            i += 1;
        }
        proof {
            assert(cw.skip(n as int).len() == 0);
            assert(spec_bytes_to_bits(cw.skip(n as int)) =~= Seq::<u8>::empty());
        }
        let rem = remainder_bits(self.version);
        let ghost full = bits@;
        let mut j: usize = 0;
        while j < rem
            invariant
                j <= rem <= 7,
                bits@ =~= full + zero_seq(j as nat),
            decreases rem - j,
        {
            bits.push(0);
            j += 1;
            proof {
                assert(bits@ =~= full + zero_seq(j as nat));
            }
        }
        self.data = bits;
    }
}

} // verus!
