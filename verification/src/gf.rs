//! Arithmetic in GF(2^8) with the QR Code primitive polynomial
//! x^8 + x^4 + x^3 + x^2 + 1 (0x11D).  Addition is XOR; multiplication
//! is shift-and-add reduction, defined bit by bit of the left factor.

use vstd::prelude::*;

verus! {

/// Multiplication by x in GF(2^8): shift left and reduce by 0x11D.
pub open spec fn spec_xtime(b: u8) -> u8 {
    (((b % 128) * 2) as u8) ^ (if b >= 128 { 0x1du8 } else { 0u8 })
}

/// Product in GF(2^8), by the bits of the left factor.
pub open spec fn spec_gf_mul(a: u8, b: u8) -> u8
    decreases a,
{
    if a == 0 {
        0
    } else {
        (if a % 2 == 1 { b } else { 0 }) ^ spec_gf_mul(a / 2, spec_xtime(b))
    }
}

/// Basic facts of XOR on bytes.
pub proof fn lemma_xor_basics(a: u8, b: u8, c: u8)
    ensures
        a ^ 0 == a,
        0u8 ^ a == a,
        a ^ a == 0,
        a ^ b == b ^ a,
        (a ^ b) ^ c == a ^ (b ^ c),
{
    assert(a ^ 0 == a && 0u8 ^ a == a && a ^ a == 0 && a ^ b == b ^ a && (a ^ b) ^ c == a ^ (b
        ^ c)) by (bit_vector);
}

/// Regrouping four XOR-ed bytes.
pub proof fn lemma_xor_shuffle(p: u8, q: u8, x: u8, y: u8)
    ensures
        (p ^ q) ^ (x ^ y) == (p ^ x) ^ (q ^ y),
{
    assert((p ^ q) ^ (x ^ y) == (p ^ x) ^ (q ^ y)) by (bit_vector);
}

/// Multiplication by x distributes over XOR.
proof fn lemma_xtime_distributes(b: u8, c: u8)
    ensures
        spec_xtime(b ^ c) == spec_xtime(b) ^ spec_xtime(c),
{
    assert(((((b ^ c) % 128) * 2) as u8) ^ (if (b ^ c) >= 128 {
        0x1du8
    } else {
        0u8
    }) == ((((b % 128) * 2) as u8) ^ (if b >= 128 {
        0x1du8
    } else {
        0u8
    })) ^ ((((c % 128) * 2) as u8) ^ (if c >= 128 {
        0x1du8
    } else {
        0u8
    }))) by (bit_vector);
}

pub proof fn lemma_gf_mul_zero_right(a: u8)
    ensures
        spec_gf_mul(a, 0) == 0,
    decreases a,
{
    lemma_xor_basics(0, 0, 0);
    if a != 0 {
        assert(spec_xtime(0) == 0) by {
            lemma_xor_basics(0, 0, 0);
        }
        lemma_gf_mul_zero_right(a / 2);
    }
}

/// GF(2^8) multiplication distributes over XOR in the right factor.
pub proof fn lemma_gf_mul_distributes_right(a: u8, b: u8, c: u8)
    ensures
        spec_gf_mul(a, b ^ c) == spec_gf_mul(a, b) ^ spec_gf_mul(a, c),
    decreases a,
{
    if a == 0 {
        lemma_xor_basics(0, 0, 0);
    } else {
        lemma_xtime_distributes(b, c);
        lemma_gf_mul_distributes_right(a / 2, spec_xtime(b), spec_xtime(c));
        let p = if a % 2 == 1 { b } else { 0u8 };
        let q = if a % 2 == 1 { c } else { 0u8 };
        let x = spec_gf_mul(a / 2, spec_xtime(b));
        let y = spec_gf_mul(a / 2, spec_xtime(c));
        assert((if a % 2 == 1 { (b ^ c) } else { 0u8 }) == p ^ q) by {
            lemma_xor_basics(0, 0, 0);
        }
        lemma_xor_shuffle(p, q, x, y);
    }
}

/// Multiplication by x in GF(2^8).
fn xtime(b: u8) -> (r: u8)
    ensures
        r == spec_xtime(b),
{
    let doubled = (b % 128) * 2;
    if b >= 128 {
        doubled ^ 0x1d
    } else {
        proof {
            lemma_xor_basics(doubled, 0, 0);
        }
        doubled
    }
}

/// Product of two field elements in GF(2^8).
pub fn gf_mul(x: u8, y: u8) -> (r: u8)
    ensures
        r == spec_gf_mul(x, y),
{
    let mut a = x;
    let mut b = y;
    let mut acc: u8 = 0;
    proof {
        lemma_xor_basics(spec_gf_mul(x, y), 0, 0);
    }
    while a != 0
        invariant
            acc ^ spec_gf_mul(a, b) == spec_gf_mul(x, y),
        decreases a,
    {
        let ghost old_acc = acc;
        let ghost old_a = a;
        let ghost old_b = b;
        if a % 2 == 1 {
            acc = acc ^ b;
        }
        b = xtime(b);
        a = a / 2;
        proof {
            let step = if old_a % 2 == 1 { old_b } else { 0u8 };
            assert(spec_gf_mul(old_a, old_b) == step ^ spec_gf_mul(a, b));
            lemma_xor_basics(old_acc, step, spec_gf_mul(a, b));
            assert(acc == old_acc ^ step) by {
                lemma_xor_basics(old_acc, step, 0);
            }
        }
    }
    proof {
        lemma_xor_basics(acc, 0, 0);
    }
    acc
}

} // verus!
