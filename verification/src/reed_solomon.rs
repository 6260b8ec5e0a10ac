//! Reed-Solomon error correction over GF(2^8): the QR generator
//! polynomial, the remainder of the message polynomial under long
//! division, and the systematic round-trip law.
//!
//! Polynomials are coefficient sequences, most significant first.

use vstd::prelude::*;
use crate::bits::zero_seq;
use crate::gf::gf_mul;
use crate::gf::lemma_gf_mul_distributes_right;
use crate::gf::lemma_gf_mul_zero_right;
use crate::gf::lemma_xor_basics;
use crate::gf::spec_gf_mul;

verus! {

/// Coefficient-wise XOR of two polynomials of equal length.
pub open spec fn xor_seq(a: Seq<u8>, b: Seq<u8>) -> Seq<u8>
    recommends
        a.len() == b.len(),
{
    Seq::new(a.len(), |i: int| a[i] ^ b[i])
}

/// The power 2^i in GF(2^8).
pub open spec fn spec_gf_pow2(i: nat) -> u8
    decreases i,
{
    if i == 0 {
        1
    } else {
        spec_gf_mul(2, spec_gf_pow2((i - 1) as nat))
    }
}

/// Product of a polynomial with the factor (x + c).
pub open spec fn mul_x_plus(p: Seq<u8>, c: u8) -> Seq<u8> {
    Seq::new(
        p.len() + 1,
        |j: int|
            if j == 0 {
                p[0]
            } else if j == p.len() {
                spec_gf_mul(c, p[j - 1])
            } else {
                p[j] ^ spec_gf_mul(c, p[j - 1])
            },
    )
}

/// The degree-k QR generator polynomial, the product of (x + 2^i) for
/// i in 0..k; it has k + 1 coefficients and leading coefficient 1.
pub open spec fn spec_generator(k: nat) -> Seq<u8>
    decreases k,
{
    if k == 0 {
        seq![1u8]
    } else {
        mul_x_plus(spec_generator((k - 1) as nat), spec_gf_pow2((k - 1) as nat))
    }
}

pub proof fn lemma_generator_props(k: nat)
    ensures
        spec_generator(k).len() == k + 1,
        spec_generator(k)[0] == 1,
    decreases k,
{
    if k > 0 {
        lemma_generator_props((k - 1) as nat);
    }
}

/// One step of polynomial long division: XOR the multiple of `gen` by
/// the leading coefficient onto the front of `p`.
pub open spec fn elim_step(p: Seq<u8>, gen: Seq<u8>) -> Seq<u8> {
    Seq::new(
        p.len(),
        |t: int|
            if t < gen.len() {
                p[t] ^ spec_gf_mul(gen[t], p[0])
            } else {
                p[t]
            },
    )
}

/// Remainder of the polynomial `p` under long division by `gen`,
/// padded on the left with zeros to exactly gen.len() - 1 coefficients.
pub open spec fn poly_rem(p: Seq<u8>, gen: Seq<u8>) -> Seq<u8>
    decreases p.len(),
{
    if gen.len() == 0 {
        p
    } else if p.len() < gen.len() {
        zero_seq((gen.len() - 1 - p.len()) as nat) + p
    } else {
        poly_rem(elim_step(p, gen).drop_first(), gen)
    }
}

/// The error-correction codewords of a data block: the remainder of the
/// data polynomial shifted by x^k, divided by the degree-k generator.
pub open spec fn spec_rs_ec(data: Seq<u8>, k: nat) -> Seq<u8> {
    poly_rem(data + zero_seq(k), spec_generator(k))
}

pub proof fn lemma_poly_rem_len(p: Seq<u8>, gen: Seq<u8>)
    requires
        gen.len() >= 1,
    ensures
        poly_rem(p, gen).len() == gen.len() - 1,
    decreases p.len(),
{
    if p.len() >= gen.len() {
        lemma_poly_rem_len(elim_step(p, gen).drop_first(), gen);
    }
}

proof fn lemma_elim_step_zero_lead(p: Seq<u8>, gen: Seq<u8>)
    requires
        p.len() >= 1,
        p[0] == 0,
    ensures
        elim_step(p, gen) =~= p,
{
    assert forall|t: int| 0 <= t < p.len() implies elim_step(p, gen)[t] == p[t] by {
        if t < gen.len() {
            lemma_gf_mul_zero_right(gen[t]);
            lemma_xor_basics(p[t], 0, 0);
        }
    }
}

proof fn lemma_poly_rem_zeros_prefix(m: nat, p: Seq<u8>, gen: Seq<u8>)
    requires
        gen.len() >= 1,
    ensures
        poly_rem(zero_seq(m) + p, gen) =~= poly_rem(p, gen),
    decreases m,
{
    if m == 0 {
        assert(zero_seq(0) + p =~= p);
    } else {
        let q = zero_seq(m) + p;
        if q.len() < gen.len() {
            assert(poly_rem(q, gen) =~= zero_seq((gen.len() - 1 - q.len()) as nat) + q);
            lemma_poly_rem_zeros_prefix((m - 1) as nat, p, gen);
            if p.len() < gen.len() {
                assert(zero_seq((gen.len() - 1 - q.len()) as nat) + q =~= zero_seq(
                    (gen.len() - 1 - p.len()) as nat,
                ) + p);
            }
        } else {
            lemma_elim_step_zero_lead(q, gen);
            assert(elim_step(q, gen).drop_first() =~= zero_seq((m - 1) as nat) + p);
            lemma_poly_rem_zeros_prefix((m - 1) as nat, p, gen);
        }
    }
}

proof fn lemma_elim_step_linear(a: Seq<u8>, b: Seq<u8>, gen: Seq<u8>)
    requires
        a.len() == b.len(),
        a.len() >= 1,
    ensures
        elim_step(xor_seq(a, b), gen) =~= xor_seq(elim_step(a, gen), elim_step(b, gen)),
{
    let s = xor_seq(a, b);
    assert forall|t: int| 0 <= t < s.len() implies elim_step(s, gen)[t] == xor_seq(
        elim_step(a, gen),
        elim_step(b, gen),
    )[t] by {
        if t < gen.len() {
            lemma_gf_mul_distributes_right(gen[t], a[0], b[0]);
            crate::gf::lemma_xor_shuffle(a[t], b[t], spec_gf_mul(gen[t], a[0]), spec_gf_mul(gen[t], b[0]));
        }
    }
}

/// The remainder is linear: dividing the XOR of two equal-length
/// polynomials gives the XOR of their remainders.
pub proof fn lemma_poly_rem_linear(a: Seq<u8>, b: Seq<u8>, gen: Seq<u8>)
    requires
        gen.len() >= 1,
        a.len() == b.len(),
    ensures
        poly_rem(xor_seq(a, b), gen) =~= xor_seq(poly_rem(a, gen), poly_rem(b, gen)),
    decreases a.len(),
{
    let s = xor_seq(a, b);
    if a.len() < gen.len() {
        assert forall|t: int| 0 <= t < gen.len() - 1 implies poly_rem(s, gen)[t] == xor_seq(
            poly_rem(a, gen),
            poly_rem(b, gen),
        )[t] by {
            lemma_xor_basics(0, 0, 0);
        }
        lemma_poly_rem_len(s, gen);
        lemma_poly_rem_len(a, gen);
        lemma_poly_rem_len(b, gen);
    } else {
        lemma_elim_step_linear(a, b, gen);
        assert(elim_step(s, gen).drop_first() =~= xor_seq(
            elim_step(a, gen).drop_first(),
            elim_step(b, gen).drop_first(),
        ));
        lemma_poly_rem_linear(elim_step(a, gen).drop_first(), elim_step(b, gen).drop_first(), gen);
    }
}

/// Systematic code law: appending a block's error-correction codewords
/// to the block and taking the generator-polynomial remainder of the
/// whole yields the zero polynomial.
pub proof fn lemma_rs_round_trip(data: Seq<u8>, k: nat)
    requires
        k >= 1,
    ensures
        poly_rem(data + spec_rs_ec(data, k), spec_generator(k)) =~= zero_seq(k),
{
    let gen = spec_generator(k);
    lemma_generator_props(k);
    let ec = spec_rs_ec(data, k);
    lemma_poly_rem_len(data + zero_seq(k), gen);
    let a = data + zero_seq(k);
    let b = zero_seq(data.len()) + ec;
    assert(xor_seq(a, b) =~= data + ec) by {
        assert forall|i: int| 0 <= i < a.len() implies (a[i] ^ b[i]) == (data + ec)[i] by {
            lemma_xor_basics((data + ec)[i], 0, 0);
        }
    }
    lemma_poly_rem_linear(a, b, gen);
    lemma_poly_rem_zeros_prefix(data.len(), ec, gen);
    assert(poly_rem(ec, gen) =~= zero_seq(0) + ec);
    assert(zero_seq(0) + ec =~= ec);
    assert forall|i: int| 0 <= i < k implies xor_seq(ec, ec)[i] == zero_seq(k)[i] by {
        lemma_xor_basics(ec[i], 0, 0);
    }
    assert(poly_rem(data + ec, gen) =~= xor_seq(ec, ec));
}

/// The generator polynomial of degree `k`, as its k + 1 coefficients.
pub fn generator_poly(k: usize) -> (r: Vec<u8>)
    requires
        k + 1 <= usize::MAX,
    ensures
        r@ =~= spec_generator(k as nat),
        r@.len() == k + 1,
{
    let mut g: Vec<u8> = Vec::new();
    g.push(1);
    proof {
        assert(g@ =~= spec_generator(0));
    }
    let mut i: usize = 0;
    let mut c: u8 = 1;
    while i < k
        invariant
            i <= k <= usize::MAX - 1,
            g@ =~= spec_generator(i as nat),
            g@.len() == i + 1,
            c == spec_gf_pow2(i as nat),
        decreases k - i,
    {
        let glen = g.len();
        let mut ng: Vec<u8> = Vec::new();
        ng.push(g[0]);
        proof {
            assert(ng@ =~= mul_x_plus(g@, c).subrange(0, 1));
        }
        let mut j: usize = 1;
        while j < glen
            invariant
                1 <= j <= glen,
                glen == g@.len(),
                ng@ =~= mul_x_plus(g@, c).subrange(0, j as int),
            decreases glen - j,
        {
            ng.push(g[j] ^ gf_mul(c, g[j - 1]));
            j += 1;
            proof {
                assert(ng@ =~= mul_x_plus(g@, c).subrange(0, j as int));
            }
        }
        ng.push(gf_mul(c, g[glen - 1]));
        proof {
            assert(ng@ =~= mul_x_plus(g@, c));
        }
        g = ng;
        c = gf_mul(2, c);
        i += 1;
    }
    g
}

/// Reed-Solomon encoder: the `ec_count` error-correction codewords of
/// one block of data codewords.
pub fn error_correct(data: &Vec<u8>, ec_count: usize) -> (r: Vec<u8>)
    requires
        1 <= ec_count,
        data.len() + ec_count + 1 <= usize::MAX,
    ensures
        r@ =~= spec_rs_ec(data@, ec_count as nat),
        r@.len() == ec_count,
{
    let k = ec_count;
    let gen = generator_poly(k);
    let n = data.len();
    let mut buf: Vec<u8> = Vec::new();
    let mut t: usize = 0;
    while t < n
        invariant
            t <= n,
            n == data@.len(),
            buf@ =~= data@.subrange(0, t as int),
        decreases n - t,
    {
        buf.push(data[t]);
        t += 1;
    }
    let mut t2: usize = 0;
    proof {
        assert(data@.subrange(0, n as int) =~= data@);
    }
    while t2 < k
        invariant
            t2 <= k,
            n == data@.len(),
            n + k + 1 <= usize::MAX,
            buf@ =~= data@ + zero_seq(t2 as nat),
        decreases k - t2,
    {
        buf.push(0);
        t2 += 1;
        proof {
            assert(buf@ =~= data@ + zero_seq(t2 as nat));
        }
    }
    let mut i: usize = 0;
    proof {
        assert(buf@.subrange(0, (n + k) as int) =~= data@ + zero_seq(k as nat));
    }
    while i < n
        invariant
            i <= n,
            n == data@.len(),
            n + k + 1 <= usize::MAX,
            1 <= k,
            buf@.len() == n + k,
            gen@.len() == k + 1,
            gen@ =~= spec_generator(k as nat),
            poly_rem(buf@.subrange(i as int, (n + k) as int), gen@) =~= spec_rs_ec(
                data@,
                k as nat,
            ),
        decreases n - i,
    {
        let factor = buf[i];
        let ghost p = buf@.subrange(i as int, (n + k) as int);
        let mut j: usize = 0;
        while j < k + 1
            invariant
                j <= k + 1,
                i < n,
                n == data@.len(),
                n + k + 1 <= usize::MAX,
                buf@.len() == n + k,
                gen@.len() == k + 1,
                p.len() == n + k - i,
                factor == p[0],
                buf@.subrange(i as int, (n + k) as int) =~= Seq::new(
                    (n + k - i) as nat,
                    |t: int|
                        if t < j {
                            elim_step(p, gen@)[t]
                        } else {
                            p[t]
                        },
                ),
            decreases k + 1 - j,
        {
            let ghost before = buf@;
            let b = buf[i + j];
            proof {
                let cur = buf@.subrange(i as int, (n + k) as int);
                assert(cur[j as int] == p[j as int]);
                assert(b == cur[j as int]);
            }
            buf.set(i + j, b ^ gf_mul(gen[j], factor));
            j += 1;
            proof {
                let prev = before.subrange(i as int, (n + k) as int);
                let cur = buf@.subrange(i as int, (n + k) as int);
                assert forall|t: int| 0 <= t < n + k - i implies cur[t] == (if t < j {
                    elim_step(p, gen@)[t]
                } else {
                    p[t]
                }) by {
                    if t == j - 1 {
                        assert(cur[t] == b ^ spec_gf_mul(gen@[t], factor));
                        assert(elim_step(p, gen@)[t] == p[t] ^ spec_gf_mul(gen@[t], p[0]));
                    } else {
                        assert(cur[t] == prev[t]);
                    }
                }
                assert(cur =~= Seq::new(
                    (n + k - i) as nat,
                    |t: int|
                        if t < j {
                            elim_step(p, gen@)[t]
                        } else {
                            p[t]
                        },
                ));
            }
        }
        proof {
            assert(buf@.subrange(i as int, (n + k) as int) =~= elim_step(p, gen@));
            assert(elim_step(p, gen@).drop_first() =~= buf@.subrange(i + 1, (n + k) as int));
        }
        i += 1;
    }
    let mut r: Vec<u8> = Vec::new();
    let mut t3: usize = 0;
    while t3 < k
        invariant
            t3 <= k,
            buf@.len() == n + k,
            n + k + 1 <= usize::MAX,
            r@ =~= buf@.subrange(n as int, (n + t3) as int),
        decreases k - t3,
    {
        r.push(buf[n + t3]);
        t3 += 1;
        proof {
            assert(r@ =~= buf@.subrange(n as int, (n + t3) as int));
        }
    }
    proof {
        let tail = buf@.subrange(n as int, (n + k) as int);
        assert(poly_rem(tail, gen@) =~= zero_seq(0) + tail);
        assert(zero_seq(0) + tail =~= tail);
    }
    r
}

} // verus!
