//! Block distribution and interleaving: the data codewords are split
//! into two block groups, each block gets its Reed-Solomon codewords,
//! and both are read out round-robin into the final sequence.

use vstd::prelude::*;
use vstd::arithmetic::div_mod::lemma_fundamental_div_mod;
use crate::encoder::Encoder;
use crate::qrcode_info::capacity;
use crate::qrcode_info::ec_per_block;
use crate::qrcode_info::num_blocks;
use crate::qrcode_info::spec_capacity;
use crate::qrcode_info::spec_ec_per_block;
use crate::qrcode_info::spec_num_blocks;
use crate::qrcode_info::spec_total_codewords;
use crate::reed_solomon::error_correct;
use crate::reed_solomon::spec_rs_ec;

verus! {

/// Block distribution of a version and level: group-1 block count and
/// codewords per block, then the same for group 2.  Group-2 blocks
/// hold exactly one codeword more.
pub open spec fn spec_groups(v: int, e: int) -> (int, int, int, int) {
    let b = spec_num_blocks(v, e);
    let cap = spec_capacity(v, e);
    let q = cap / b;
    let r2 = cap % b;
    (b - r2, q, r2, q + 1)
}

/// Start of block `i` within the data codewords.
pub open spec fn spec_block_start(v: int, e: int, i: int) -> int {
    let (g1, s1, g2, s2) = spec_groups(v, e);
    if i <= g1 {
        i * s1
    } else {
        g1 * s1 + (i - g1) * s2
    }
}

/// Number of data codewords of block `i`.
pub open spec fn spec_block_len(v: int, e: int, i: int) -> int {
    let (g1, s1, g2, s2) = spec_groups(v, e);
    if i < g1 {
        s1
    } else {
        s2
    }
}

/// The data codewords sliced into blocks, group 1 first.
pub open spec fn spec_data_blocks(data: Seq<u8>, v: int, e: int) -> Seq<Seq<u8>> {
    Seq::new(
        spec_num_blocks(v, e) as nat,
        |i: int|
            data.subrange(
                spec_block_start(v, e, i),
                spec_block_start(v, e, i) + spec_block_len(v, e, i),
            ),
    )
}

/// The Reed-Solomon codewords of each block.
pub open spec fn spec_ec_blocks(data: Seq<u8>, v: int, e: int) -> Seq<Seq<u8>> {
    Seq::new(
        spec_num_blocks(v, e) as nat,
        |i: int| spec_rs_ec(spec_data_blocks(data, v, e)[i], spec_ec_per_block(v, e) as nat),
    )
}

/// Row `r` of the round-robin read-out, from block `i` on: the `r`-th
/// codeword of every block that still has one.
pub open spec fn spec_rr_row(blocks: Seq<Seq<u8>>, r: int, i: int) -> Seq<u8>
    decreases blocks.len() - i,
{
    if i >= blocks.len() {
        Seq::empty()
    } else {
        (if r < blocks[i].len() {
            seq![blocks[i][r]]
        } else {
            Seq::empty()
        }) + spec_rr_row(blocks, r, i + 1)
    }
}

/// Round-robin read-out of rows `r` up to `max`.
pub open spec fn spec_rr(blocks: Seq<Seq<u8>>, r: int, max: int) -> Seq<u8>
    decreases max - r,
{
    if r >= max {
        Seq::empty()
    } else {
        spec_rr_row(blocks, r, 0) + spec_rr(blocks, r + 1, max)
    }
}

/// The final codeword sequence: interleaved data codewords, then
/// interleaved error-correction codewords.
pub open spec fn spec_final_sequence(data: Seq<u8>, v: int, e: int) -> Seq<u8> {
    let (g1, s1, g2, s2) = spec_groups(v, e);
    spec_rr(spec_data_blocks(data, v, e), 0, s2) + spec_rr(
        spec_ec_blocks(data, v, e),
        0,
        spec_ec_per_block(v, e),
    )
}

/// Table identity behind the second clause of `lemma_block_totals`,
/// checked version by version.
proof fn lemma_total_identity(v: int, e: int)
    requires
        1 <= v <= 40,
        0 <= e < 4,
    ensures
        spec_capacity(v, e) + spec_num_blocks(v, e) * spec_ec_per_block(v, e)
            == spec_total_codewords(v),
{
    if v == 1 {
        assert(spec_capacity(v, e) + spec_num_blocks(v, e) * spec_ec_per_block(v, e)
            == spec_total_codewords(v));
    } else if v == 2 {
        assert(spec_capacity(v, e) + spec_num_blocks(v, e) * spec_ec_per_block(v, e)
            == spec_total_codewords(v));
    } else if v == 3 {
        assert(spec_capacity(v, e) + spec_num_blocks(v, e) * spec_ec_per_block(v, e)
            == spec_total_codewords(v));
    } else if v == 4 {
        assert(spec_capacity(v, e) + spec_num_blocks(v, e) * spec_ec_per_block(v, e)
            == spec_total_codewords(v));
    } else if v == 5 {
        assert(spec_capacity(v, e) + spec_num_blocks(v, e) * spec_ec_per_block(v, e)
            == spec_total_codewords(v));
    } else if v == 6 {
        assert(spec_capacity(v, e) + spec_num_blocks(v, e) * spec_ec_per_block(v, e)
            == spec_total_codewords(v));
    } else if v == 7 {
        assert(spec_capacity(v, e) + spec_num_blocks(v, e) * spec_ec_per_block(v, e)
            == spec_total_codewords(v));
    } else if v == 8 {
        assert(spec_capacity(v, e) + spec_num_blocks(v, e) * spec_ec_per_block(v, e)
            == spec_total_codewords(v));
    } else if v == 9 {
        assert(spec_capacity(v, e) + spec_num_blocks(v, e) * spec_ec_per_block(v, e)
            == spec_total_codewords(v));
    } else if v == 10 {
        assert(spec_capacity(v, e) + spec_num_blocks(v, e) * spec_ec_per_block(v, e)
            == spec_total_codewords(v));
    } else if v == 11 {
        assert(spec_capacity(v, e) + spec_num_blocks(v, e) * spec_ec_per_block(v, e)
            == spec_total_codewords(v));
    } else if v == 12 {
        assert(spec_capacity(v, e) + spec_num_blocks(v, e) * spec_ec_per_block(v, e)
            == spec_total_codewords(v));
    } else if v == 13 {
        assert(spec_capacity(v, e) + spec_num_blocks(v, e) * spec_ec_per_block(v, e)
            == spec_total_codewords(v));
    } else if v == 14 {
        assert(spec_capacity(v, e) + spec_num_blocks(v, e) * spec_ec_per_block(v, e)
            == spec_total_codewords(v));
    } else if v == 15 {
        assert(spec_capacity(v, e) + spec_num_blocks(v, e) * spec_ec_per_block(v, e)
            == spec_total_codewords(v));
    } else if v == 16 {
        assert(spec_capacity(v, e) + spec_num_blocks(v, e) * spec_ec_per_block(v, e)
            == spec_total_codewords(v));
    } else if v == 17 {
        assert(spec_capacity(v, e) + spec_num_blocks(v, e) * spec_ec_per_block(v, e)
            == spec_total_codewords(v));
    } else if v == 18 {
        assert(spec_capacity(v, e) + spec_num_blocks(v, e) * spec_ec_per_block(v, e)
            == spec_total_codewords(v));
    } else if v == 19 {
        assert(spec_capacity(v, e) + spec_num_blocks(v, e) * spec_ec_per_block(v, e)
            == spec_total_codewords(v));
    } else if v == 20 {
        assert(spec_capacity(v, e) + spec_num_blocks(v, e) * spec_ec_per_block(v, e)
            == spec_total_codewords(v));
    } else if v == 21 {
        assert(spec_capacity(v, e) + spec_num_blocks(v, e) * spec_ec_per_block(v, e)
            == spec_total_codewords(v));
    } else if v == 22 {
        assert(spec_capacity(v, e) + spec_num_blocks(v, e) * spec_ec_per_block(v, e)
            == spec_total_codewords(v));
    } else if v == 23 {
        assert(spec_capacity(v, e) + spec_num_blocks(v, e) * spec_ec_per_block(v, e)
            == spec_total_codewords(v));
    } else if v == 24 {
        assert(spec_capacity(v, e) + spec_num_blocks(v, e) * spec_ec_per_block(v, e)
            == spec_total_codewords(v));
    } else if v == 25 {
        assert(spec_capacity(v, e) + spec_num_blocks(v, e) * spec_ec_per_block(v, e)
            == spec_total_codewords(v));
    } else if v == 26 {
        assert(spec_capacity(v, e) + spec_num_blocks(v, e) * spec_ec_per_block(v, e)
            == spec_total_codewords(v));
    } else if v == 27 {
        assert(spec_capacity(v, e) + spec_num_blocks(v, e) * spec_ec_per_block(v, e)
            == spec_total_codewords(v));
    } else if v == 28 {
        assert(spec_capacity(v, e) + spec_num_blocks(v, e) * spec_ec_per_block(v, e)
            == spec_total_codewords(v));
    } else if v == 29 {
        assert(spec_capacity(v, e) + spec_num_blocks(v, e) * spec_ec_per_block(v, e)
            == spec_total_codewords(v));
    } else if v == 30 {
        assert(spec_capacity(v, e) + spec_num_blocks(v, e) * spec_ec_per_block(v, e)
            == spec_total_codewords(v));
    } else if v == 31 {
        assert(spec_capacity(v, e) + spec_num_blocks(v, e) * spec_ec_per_block(v, e)
            == spec_total_codewords(v));
    } else if v == 32 {
        assert(spec_capacity(v, e) + spec_num_blocks(v, e) * spec_ec_per_block(v, e)
            == spec_total_codewords(v));
    } else if v == 33 {
        assert(spec_capacity(v, e) + spec_num_blocks(v, e) * spec_ec_per_block(v, e)
            == spec_total_codewords(v));
    } else if v == 34 {
        assert(spec_capacity(v, e) + spec_num_blocks(v, e) * spec_ec_per_block(v, e)
            == spec_total_codewords(v));
    } else if v == 35 {
        assert(spec_capacity(v, e) + spec_num_blocks(v, e) * spec_ec_per_block(v, e)
            == spec_total_codewords(v));
    } else if v == 36 {
        assert(spec_capacity(v, e) + spec_num_blocks(v, e) * spec_ec_per_block(v, e)
            == spec_total_codewords(v));
    } else if v == 37 {
        assert(spec_capacity(v, e) + spec_num_blocks(v, e) * spec_ec_per_block(v, e)
            == spec_total_codewords(v));
    } else if v == 38 {
        assert(spec_capacity(v, e) + spec_num_blocks(v, e) * spec_ec_per_block(v, e)
            == spec_total_codewords(v));
    } else if v == 39 {
        assert(spec_capacity(v, e) + spec_num_blocks(v, e) * spec_ec_per_block(v, e)
            == spec_total_codewords(v));
    } else if v == 40 {
        assert(spec_capacity(v, e) + spec_num_blocks(v, e) * spec_ec_per_block(v, e)
            == spec_total_codewords(v));
    } else {
    }
}

/// Block-structure law: the per-block data codeword counts sum exactly
/// to the data capacity, and data plus error-correction codewords sum
/// to the version's total codeword count, the same at every level.
pub proof fn lemma_block_totals(v: int, e: int)
    requires
        1 <= v <= 40,
        0 <= e < 4,
    ensures
        ({
            let (g1, s1, g2, s2) = spec_groups(v, e);
            g1 * s1 + g2 * s2 == spec_capacity(v, e)
        }),
        spec_capacity(v, e) + spec_num_blocks(v, e) * spec_ec_per_block(v, e)
            == spec_total_codewords(v),
{
    let b = spec_num_blocks(v, e);
    let cap = spec_capacity(v, e);
    assert(b >= 1);
    lemma_fundamental_div_mod(cap, b);
    let q = cap / b;
    let r2 = cap % b;
    assert((b - r2) * q + r2 * (q + 1) == b * q + r2) by (nonlinear_arith);
    lemma_total_identity(v, e);
}

/// Start indexes of `count` blocks of `step` codewords each, from
/// `*from` on; `*from` ends past the last block.
pub fn gen_indexes(from: &mut usize, step: usize, count: u8) -> (r: Vec<usize>)
    requires
        *old(from) + step * (count as int) <= usize::MAX,
    ensures
        r@.len() == count as int,
        forall|i: int| 0 <= i < count as int ==> r@[i] == *old(from) + step * i,
        *final(from) == *old(from) + step * (count as int),
{
    let mut indexes: Vec<usize> = Vec::new();
    let mut i: usize = 0;
    while i < count as usize
        invariant
            i <= count as int,
            *old(from) + step * (count as int) <= usize::MAX,
            *from == *old(from) + step * (i as int),
            indexes@.len() == i,
            forall|j: int| 0 <= j < i ==> indexes@[j] == *old(from) + step * j,
        decreases count as int - i,
    {
        proof {
            assert(step * ((i + 1) as int) <= step * (count as int)) by (nonlinear_arith)
                requires
                    i + 1 <= count as int,
                    step >= 0,
            ;
            assert(step * ((i + 1) as int) == step * (i as int) + step) by (nonlinear_arith);
        }
        indexes.push(*from);
        *from = *from + step;
        i += 1;
    }
    indexes
}

impl Encoder {
    /// The block distribution for the configured version and level:
    /// (group-1 blocks, codewords per group-1 block, group-2 blocks,
    /// codewords per group-2 block).  The counts sum to the capacity.
    pub fn groups(&self) -> (r: (usize, usize, usize, usize))
        requires
            1 <= self.version <= 40,
            self.ec_level < 4,
        ensures
            ({
                let (g1, s1, g2, s2) = spec_groups(self.version as int, self.ec_level as int);
                &&& r.0 == g1
                &&& r.1 == s1
                &&& r.2 == g2
                &&& r.3 == s2
                &&& r.0 * r.1 + r.2 * r.3 == spec_capacity(self.version as int, self.ec_level as int)
            }),
    {
        let b = num_blocks(self.version, self.ec_level) as usize;
        let cap = capacity(self.version, self.ec_level) as usize;
        let q = cap / b;
        let r2 = cap % b;
        proof {
            lemma_block_totals(self.version as int, self.ec_level as int);
        }
        (b - r2, q, r2, q + 1)
    }
}

/// Each block lies inside the data codewords, and the blocks tile them
/// end to end.
#[verifier::spinoff_prover]
#[verifier::rlimit(100)]
proof fn lemma_block_bounds(v: int, e: int, i: int)
    requires
        1 <= v <= 40,
        0 <= e < 4,
        0 <= i < spec_num_blocks(v, e),
    ensures
        spec_block_start(v, e, i) >= 0,
        spec_block_len(v, e, i) >= 0,
        spec_block_start(v, e, i) + spec_block_len(v, e, i) == spec_block_start(v, e, i + 1),
        spec_block_start(v, e, i + 1) <= spec_capacity(v, e),
{
    let b = spec_num_blocks(v, e);
    let cap = spec_capacity(v, e);
    assert(b >= 1);
    assert(cap >= 0);
    lemma_fundamental_div_mod(cap, b);
    let s1 = cap / b;
    let g2 = cap % b;
    let g1 = b - g2;
    let s2 = s1 + 1;
    assert(s1 >= 0 && 0 <= g2 < b);
    lemma_block_totals(v, e);
    if i < g1 {
        assert(i * s1 >= 0) by (nonlinear_arith)
            requires
                i >= 0,
                s1 >= 0,
        ;
        assert(i * s1 + s1 == (i + 1) * s1) by (nonlinear_arith);
        assert((i + 1) * s1 + (g1 - (i + 1)) * s1 + g2 * s2 == g1 * s1 + g2 * s2)
            by (nonlinear_arith);
        assert((g1 - (i + 1)) * s1 >= 0) by (nonlinear_arith)
            requires
                g1 - (i + 1) >= 0,
                s1 >= 0,
        ;
        assert(g2 * s2 >= 0) by (nonlinear_arith)
            requires
                g2 >= 0,
                s2 >= 0,
        ;
    } else {
        assert(g1 * s1 >= 0 && (i - g1) * s2 >= 0) by (nonlinear_arith)
            requires
                g1 >= 0,
                s1 >= 0,
                i - g1 >= 0,
                s2 >= 0,
        ;
        assert(g1 * s1 + (i - g1) * s2 + s2 == g1 * s1 + (i + 1 - g1) * s2) by (nonlinear_arith);
        assert(g1 * s1 + (i + 1 - g1) * s2 + (b - (i + 1)) * s2 == g1 * s1 + g2 * s2)
            by (nonlinear_arith)
            requires
                g2 == b - g1,
        ;
        assert((b - (i + 1)) * s2 >= 0) by (nonlinear_arith)
            requires
                b - (i + 1) >= 0,
                s2 >= 0,
        ;
        assert(spec_block_start(v, e, i) == g1 * s1 + (i - g1) * s2 || i == g1);
        if i == g1 {
            assert((i - g1) * s2 == 0) by (nonlinear_arith)
                requires
                    i == g1,
            ;
            assert(spec_block_start(v, e, i) == i * s1);
            assert(spec_block_start(v, e, i) == g1 * s1 + (i - g1) * s2);
        }
        assert(i + 1 > g1);
        assert(spec_block_start(v, e, i + 1) == g1 * s1 + (i + 1 - g1) * s2);
        assert(spec_block_len(v, e, i) == s2);
        assert(spec_block_start(v, e, i) + spec_block_len(v, e, i) == spec_block_start(v, e, i + 1));
    }
}

impl Encoder {
    /// Splits the data codewords into blocks, computes each block's
    /// error-correction codewords, and reads both out round-robin into
    /// the final codeword sequence.
    #[verifier::rlimit(100)]
    pub fn interleave(&mut self)
        requires
            1 <= old(self).version <= 40,
            old(self).ec_level < 4,
            old(self).data@.len() == spec_capacity(
                old(self).version as int,
                old(self).ec_level as int,
            ),
        ensures
            final(self).data@ =~= spec_final_sequence(
                old(self).data@,
                old(self).version as int,
                old(self).ec_level as int,
            ),
            final(self).data@.len() == spec_total_codewords(old(self).version as int),
            final(self).ec_level == old(self).ec_level,
            final(self).mode == old(self).mode,
            final(self).version == old(self).version,
    {
        let ghost v = old(self).version as int;
        let ghost e = old(self).ec_level as int;
        let ghost data0 = self.data@;
        let (g1, s1, g2, s2) = self.groups();
        let bcnt = g1 + g2;
        let ecn = ec_per_block(self.version, self.ec_level) as usize;
        let cap = self.data.len();
        proof {
            lemma_block_totals(v, e);
            assert(bcnt == spec_num_blocks(v, e));
        }
        let ghost bspec = spec_data_blocks(data0, v, e);
        let mut blocks: Vec<Vec<u8>> = Vec::new();
        let mut pos: usize = 0;
        let mut i: usize = 0;
        while i < bcnt
            invariant
                i <= bcnt,
                1 <= old(self).version <= 40,
                old(self).ec_level < 4,
                v == old(self).version as int,
                e == old(self).ec_level as int,
                bcnt == spec_num_blocks(v, e),
                g1 == spec_groups(v, e).0,
                s1 == spec_groups(v, e).1,
                g2 == spec_groups(v, e).2,
                s2 == spec_groups(v, e).3,
                cap == spec_capacity(v, e),
                self.data@ == data0,
                data0.len() == cap,
                bspec == spec_data_blocks(data0, v, e),
                pos == spec_block_start(v, e, i as int),
                pos <= cap,
                blocks@.len() == i,
                forall|j: int| 0 <= j < i ==> #[trigger] blocks@[j]@ =~= bspec[j],
                self.ec_level == old(self).ec_level,
                self.mode == old(self).mode,
                self.version == old(self).version,
            decreases bcnt - i,
        {
            proof {
                lemma_block_bounds(v, e, i as int);
            }
            let size = if i < g1 {
                s1
            } else {
                s2
            };
            proof {
                assert(size == spec_block_len(v, e, i as int));
                assert(pos + size <= cap);
            }
            let mut blk: Vec<u8> = Vec::new();
            let mut t: usize = 0;
            while t < size
                invariant
                    t <= size,
                    pos + size <= cap,
                    cap == data0.len(),
                    self.data@ == data0,
                    blk@ =~= data0.subrange(pos as int, pos + t),
                decreases size - t,
            {
                blk.push(self.data[pos + t]);
                t += 1;
                proof {
                    assert(blk@ =~= data0.subrange(pos as int, pos + t));
                }
            }
            blocks.push(blk);
            pos = pos + size;
            i += 1;
            proof {
                assert(blocks@[i - 1]@ =~= bspec[i - 1]);
            }
        }
        let mut ec_blocks: Vec<Vec<u8>> = Vec::new();
        let ghost ecspec = spec_ec_blocks(data0, v, e);
        let mut i2: usize = 0;
        while i2 < bcnt
            invariant
                i2 <= bcnt,
                bcnt == blocks@.len(),
                bcnt == spec_num_blocks(v, e),
                1 <= ecn <= 30,
                ecn == spec_ec_per_block(v, e),
                bspec == spec_data_blocks(data0, v, e),
                ecspec == spec_ec_blocks(data0, v, e),
                forall|j: int| 0 <= j < bcnt ==> #[trigger] blocks@[j]@ =~= bspec[j],
                1 <= v <= 40,
                0 <= e < 4,
                data0.len() == spec_capacity(v, e) <= 2956,
                ec_blocks@.len() == i2,
                forall|j: int| 0 <= j < i2 ==> #[trigger] ec_blocks@[j]@ =~= ecspec[j],
                self.data@ == data0,
                self.ec_level == old(self).ec_level,
                self.mode == old(self).mode,
                self.version == old(self).version,
            decreases bcnt - i2,
        {
            proof {
                lemma_block_bounds(v, e, i2 as int);
                assert(bspec[i2 as int].len() == spec_block_len(v, e, i2 as int));
                assert(blocks@[i2 as int]@.len() <= 2956);
            }
            let blk = &blocks[i2];
            let ecb = error_correct(blk, ecn);
            ec_blocks.push(ecb);
            i2 += 1;
            proof {
                assert(ec_blocks@[i2 - 1]@ =~= ecspec[i2 - 1]);
            }
        }
        let mut out: Vec<u8> = Vec::new();
        proof {
            assert forall|j: int| 0 <= j < bcnt implies #[trigger] bspec[j].len()
                == spec_block_len(v, e, j) by {
                lemma_block_bounds(v, e, j);
            }
        }
        let mut r: usize = 0;
        while r < s2
            invariant
                r <= s2,
                1 <= v <= 40,
                0 <= e < 4,
                bcnt == blocks@.len(),
                bcnt == spec_num_blocks(v, e) >= 1,
                g1 == spec_groups(v, e).0,
                s1 == spec_groups(v, e).1,
                g2 == spec_groups(v, e).2,
                s2 == spec_groups(v, e).3,
                s2 == s1 + 1,
                bcnt == g1 + g2,
                data0.len() == spec_capacity(v, e) <= 2956,
                bspec == spec_data_blocks(data0, v, e),
                forall|j: int| 0 <= j < bcnt ==> #[trigger] blocks@[j]@ =~= bspec[j],
                forall|j: int| 0 <= j < bcnt ==> #[trigger] bspec[j].len() == spec_block_len(
                    v,
                    e,
                    j,
                ),
                out@ + spec_rr(bspec, r as int, s2 as int) =~= spec_rr(bspec, 0, s2 as int),
                out@.len() == (if r <= s1 {
                    (r as int) * bcnt
                } else {
                    (s1 as int) * bcnt + g2
                }),
                out@.len() <= spec_capacity(v, e),
                self.data@ == data0,
                self.ec_level == old(self).ec_level,
                self.mode == old(self).mode,
                self.version == old(self).version,
            decreases s2 - r,
        {
            let ghost row_base = out@.len() as int;
            proof {
                assert(bcnt <= 81 && spec_capacity(v, e) <= 2956);
            }
            let mut i3: usize = 0;
            while i3 < bcnt
                invariant
                    i3 <= bcnt,
                    r < s2,
                    s2 == s1 + 1,
                    bcnt == g1 + g2,
                    g1 == spec_groups(v, e).0,
                    g2 == spec_groups(v, e).2,
                    s1 == spec_groups(v, e).1,
                    bcnt == blocks@.len(),
                    bcnt == spec_num_blocks(v, e),
                    bspec == spec_data_blocks(data0, v, e),
                    forall|j: int| 0 <= j < bcnt ==> #[trigger] blocks@[j]@ =~= bspec[j],
                    forall|j: int| 0 <= j < bcnt ==> #[trigger] bspec[j].len() == spec_block_len(
                        v,
                        e,
                        j,
                    ),
                    out@ + spec_rr_row(bspec, r as int, i3 as int) + spec_rr(
                        bspec,
                        r + 1,
                        s2 as int,
                    ) =~= spec_rr(bspec, 0, s2 as int),
                    out@.len() == row_base + (if (r as int) < s1 {
                        i3 as int
                    } else {
                        if i3 <= g1 {
                            0int
                        } else {
                            i3 - g1
                        }
                    }),
                    row_base == (if r <= s1 {
                        (r as int) * bcnt
                    } else {
                        (s1 as int) * bcnt + g2
                    }),
                    row_base + bcnt <= usize::MAX,
                    self.data@ == data0,
                    self.ec_level == old(self).ec_level,
                    self.mode == old(self).mode,
                    self.version == old(self).version,
                decreases bcnt - i3,
            {
                let bi = &blocks[i3];
                proof {
                    assert(spec_block_len(v, e, i3 as int) == (if (i3 as int) < g1 {
                        s1 as int
                    } else {
                        s2 as int
                    }));
                }
                if r < bi.len() {
                    out.push(bi[r]);
                }
                i3 += 1;
            }
            proof {
                assert(spec_rr_row(bspec, r as int, bcnt as int) =~= Seq::<u8>::empty());
                assert((r + 1 <= s1 ==> ((r + 1) as int) * bcnt == (r as int) * bcnt + bcnt))
                    by (nonlinear_arith);
                lemma_fundamental_div_mod(spec_capacity(v, e), bcnt as int);
                assert((s1 as int) * bcnt == (bcnt as int) * s1) by (nonlinear_arith);
                assert(r + 1 <= s1 ==> ((r + 1) as int) * bcnt <= (s1 as int) * bcnt)
                    by (nonlinear_arith);
            }
            r += 1;
        }
        proof {
            lemma_block_totals(v, e);
            assert(out@ =~= spec_rr(bspec, 0, s2 as int));
            assert((s1 as int) * bcnt + g2 == spec_capacity(v, e)) by {
                lemma_fundamental_div_mod(spec_capacity(v, e), bcnt as int);
                assert((s1 as int) * bcnt == (bcnt as int) * s1) by (nonlinear_arith);
            }
        }
        let ghost data_part = out@;
        proof {
            assert forall|j: int| 0 <= j < bcnt implies #[trigger] ecspec[j].len() == ecn by {
                crate::reed_solomon::lemma_generator_props(ecn as nat);
                crate::reed_solomon::lemma_poly_rem_len(
                    bspec[j] + crate::bits::zero_seq(ecn as nat),
                    crate::reed_solomon::spec_generator(ecn as nat),
                );
            }
        }
        let mut r2: usize = 0;
        while r2 < ecn
            invariant
                r2 <= ecn,
                1 <= v <= 40,
                0 <= e < 4,
                ecn == spec_ec_per_block(v, e) <= 30,
                bcnt == ec_blocks@.len(),
                bcnt == spec_num_blocks(v, e) <= 81,
                ecspec == spec_ec_blocks(data0, v, e),
                forall|j: int| 0 <= j < bcnt ==> #[trigger] ec_blocks@[j]@ =~= ecspec[j],
                forall|j: int| 0 <= j < bcnt ==> #[trigger] ecspec[j].len() == ecn,
                data_part.len() == spec_capacity(v, e) <= 2956,
                out@ + spec_rr(ecspec, r2 as int, ecn as int) =~= data_part + spec_rr(
                    ecspec,
                    0,
                    ecn as int,
                ),
                out@.len() == data_part.len() + (r2 as int) * bcnt,
                out@.len() <= data_part.len() + 2430,
                self.data@ == data0,
                self.ec_level == old(self).ec_level,
                self.mode == old(self).mode,
                self.version == old(self).version,
            decreases ecn - r2,
        {
            let ghost row_base2 = out@.len() as int;
            proof {
                assert(bcnt <= 81);
            }
            let mut i4: usize = 0;
            while i4 < bcnt
                invariant
                    i4 <= bcnt,
                    r2 < ecn,
                    ecn == spec_ec_per_block(v, e) <= 30,
                    bcnt == ec_blocks@.len(),
                    bcnt == spec_num_blocks(v, e) <= 81,
                    ecspec == spec_ec_blocks(data0, v, e),
                    forall|j: int| 0 <= j < bcnt ==> #[trigger] ec_blocks@[j]@ =~= ecspec[j],
                    forall|j: int| 0 <= j < bcnt ==> #[trigger] ecspec[j].len() == ecn,
                    data_part.len() <= 2956,
                    out@ + spec_rr_row(ecspec, r2 as int, i4 as int) + spec_rr(
                        ecspec,
                        r2 + 1,
                        ecn as int,
                    ) =~= data_part + spec_rr(ecspec, 0, ecn as int),
                    out@.len() == row_base2 + i4,
                    row_base2 == data_part.len() + (r2 as int) * bcnt,
                    row_base2 + bcnt <= usize::MAX,
                    self.data@ == data0,
                    self.ec_level == old(self).ec_level,
                    self.mode == old(self).mode,
                    self.version == old(self).version,
                decreases bcnt - i4,
            {
                let bi = &ec_blocks[i4];
                out.push(bi[r2]);
                i4 += 1;
            }
            proof {
                assert(spec_rr_row(ecspec, r2 as int, bcnt as int) =~= Seq::<u8>::empty());
                assert(((r2 + 1) as int) * bcnt == (r2 as int) * bcnt + bcnt) by (nonlinear_arith);
                assert(((r2 + 1) as int) * bcnt <= 30 * 81) by (nonlinear_arith)
                    requires
                        r2 + 1 <= 30,
                        0 <= bcnt <= 81,
                ;
            }
            r2 += 1;
        }
        proof {
            lemma_block_totals(v, e);
            assert(out@ =~= data_part + spec_rr(ecspec, 0, ecn as int));
            assert((ecn as int) * bcnt == (bcnt as int) * ecn) by (nonlinear_arith);
        }
        self.data = out;
    }

    /// Builds the final codeword sequence of the symbol; the work is
    /// done by `interleave`.
    pub fn final_structure(&mut self)
        requires
            1 <= old(self).version <= 40,
            old(self).ec_level < 4,
            old(self).data@.len() == spec_capacity(
                old(self).version as int,
                old(self).ec_level as int,
            ),
        ensures
            final(self).data@ =~= spec_final_sequence(
                old(self).data@,
                old(self).version as int,
                old(self).ec_level as int,
            ),
            final(self).data@.len() == spec_total_codewords(old(self).version as int),
            final(self).ec_level == old(self).ec_level,
            final(self).mode == old(self).mode,
            final(self).version == old(self).version,
    {
        self.interleave();
    }
}

} // verus!
