//! The symbol matrix: function-pattern placement, zigzag data
//! placement, and mask selection.
//!
//! Module states: 0 and 1 are data modules carrying that bit; 2 and 3
//! are light and dark function modules; 4 is a reserved module; 5 is a
//! module not yet assigned.

use vstd::prelude::*;
use crate::qrcode_info::alignment_locations;
use crate::qrcode_info::spec_alignment_locations;

verus! {

/// The square module grid.
#[derive(Debug)]
pub struct Matrix(pub Vec<Vec<u8>>);

/// The rows of a vector-of-rows grid as sequences.
pub open spec fn spec_grid_of(m: Seq<Vec<u8>>) -> Seq<Seq<u8>> {
    Seq::new(m.len(), |i: int| m[i]@)
}

impl View for Matrix {
    type V = Seq<Seq<u8>>;

    open spec fn view(&self) -> Seq<Seq<u8>> {
        spec_grid_of(self.0@)
    }
}

/// A square grid of the given edge length.
pub open spec fn spec_wf_grid(g: Seq<Seq<u8>>, size: int) -> bool {
    g.len() == size && (forall|r: int| 0 <= r < size ==> #[trigger] g[r].len() == size)
}

/// Edge length of a version's matrix.
pub open spec fn spec_size(v: int) -> int {
    4 * v + 17
}

/// Whether the cell lies in one of the three finder-pattern squares.
pub open spec fn spec_in_finder(size: int, r: int, c: int) -> bool {
    (r < 7 && c < 7) || (r >= size - 7 && c < 7) || (r < 7 && c >= size - 7)
}

/// Module value inside a 7x7 finder pattern, by offsets from its
/// corner: dark border, light ring, dark 3x3 core.
pub open spec fn spec_finder_val(dr: int, dc: int) -> u8 {
    if dr == 0 || dr == 6 || dc == 0 || dc == 6 {
        3
    } else if dr == 1 || dr == 5 || dc == 1 || dc == 5 {
        2
    } else {
        3
    }
}

/// Row offset of a cell within its finder pattern.
pub open spec fn spec_finder_off(size: int, x: int) -> int {
    if x < 7 {
        x
    } else {
        x - (size - 7)
    }
}

/// The grid with the three finder patterns stamped.
pub open spec fn spec_add_finders(g: Seq<Seq<u8>>) -> Seq<Seq<u8>> {
    let size = g.len() as int;
    Seq::new(
        g.len(),
        |r: int|
            Seq::new(
                g[r].len(),
                |c: int|
                    if spec_in_finder(size, r, c) {
                        spec_finder_val(spec_finder_off(size, r), spec_finder_off(size, c))
                    } else {
                        g[r][c]
                    },
            ),
    )
}

/// Whether the cell lies on a separator: the light strip around each
/// finder pattern.
pub open spec fn spec_on_separator(size: int, r: int, c: int) -> bool {
    (r == 7 && (c <= 7 || c >= size - 8)) || (c == 7 && (r <= 7 || r >= size - 8)) || (r == size - 8
        && c <= 7) || (c == size - 8 && r <= 7)
}

/// The grid with the separators stamped.
pub open spec fn spec_add_separators(g: Seq<Seq<u8>>) -> Seq<Seq<u8>> {
    let size = g.len() as int;
    Seq::new(
        g.len(),
        |r: int|
            Seq::new(
                g[r].len(),
                |c: int|
                    if spec_on_separator(size, r, c) {
                        2u8
                    } else {
                        g[r][c]
                    },
            ),
    )
}


/// Module value inside a 5x5 alignment pattern, by offsets from its
/// corner: dark border, light ring, dark centre.
pub open spec fn spec_align_val(dr: int, dc: int) -> u8 {
    if dr == 2 && dc == 2 {
        3
    } else if 1 <= dr <= 3 && 1 <= dc <= 3 {
        2
    } else {
        3
    }
}

/// The grid with one alignment pattern stamped, centred at (cy, cx).
pub open spec fn spec_stamp_alignment(g: Seq<Seq<u8>>, cy: int, cx: int) -> Seq<Seq<u8>> {
    Seq::new(
        g.len(),
        |r: int|
            Seq::new(
                g[r].len(),
                |c: int|
                    if cy - 2 <= r <= cy + 2 && cx - 2 <= c <= cx + 2 {
                        spec_align_val(r - (cy - 2), c - (cx - 2))
                    } else {
                        g[r][c]
                    },
            ),
    )
}

/// One alignment centre: stamped unless it falls on a dark function
/// module (a centre inside a finder pattern).
pub open spec fn spec_alignment_step(g: Seq<Seq<u8>>, cy: int, cx: int) -> Seq<Seq<u8>> {
    if g[cy][cx] == 3 {
        g
    } else {
        spec_stamp_alignment(g, cy, cx)
    }
}

/// All alignment centres of the location list, row by row, from the
/// k-th centre pair on.
pub open spec fn spec_alignment_fold(g: Seq<Seq<u8>>, locs: Seq<u8>, k: int) -> Seq<Seq<u8>>
    decreases locs.len() * locs.len() - k,
{
    if k < 0 || k >= locs.len() * locs.len() {
        g
    } else {
        spec_alignment_fold(
            spec_alignment_step(g, locs[k / locs.len() as int] as int, locs[k % locs.len() as int] as int),
            locs,
            k + 1,
        )
    }
}

/// The grid with the version's alignment patterns stamped.
pub open spec fn spec_add_alignment(g: Seq<Seq<u8>>, v: int) -> Seq<Seq<u8>> {
    spec_alignment_fold(g, spec_alignment_locations(v), 0)
}

/// The grid with the two timing strips stamped: alternating modules
/// along row 6 and column 6, dark at even coordinates.
pub open spec fn spec_add_timing(g: Seq<Seq<u8>>) -> Seq<Seq<u8>> {
    let size = g.len() as int;
    Seq::new(
        g.len(),
        |r: int|
            Seq::new(
                g[r].len(),
                |c: int|
                    if r == 6 && 8 <= c < size - 8 {
                        if c % 2 == 0 {
                            3u8
                        } else {
                            2u8
                        }
                    } else if c == 6 && 8 <= r < size - 8 {
                        if r % 2 == 0 {
                            3u8
                        } else {
                            2u8
                        }
                    } else {
                        g[r][c]
                    },
            ),
    )
}

/// The grid with the dark module, the reserved format-information
/// strips, and (for versions 7 and up) the reserved version-information
/// blocks.
pub open spec fn spec_add_reserved(g: Seq<Seq<u8>>, v: int) -> Seq<Seq<u8>> {
    let size = g.len() as int;
    Seq::new(
        g.len(),
        |r: int|
            Seq::new(
                g[r].len(),
                |c: int|
                    if (r == 6 && c == 8) || (r == 8 && c == 6) || (r == size - 8 && c == 8) {
                        3u8
                    } else if (r == 8 && (c <= 8 || c >= size - 8)) || (c == 8 && (r <= 8 || r
                        >= size - 8)) {
                        4u8
                    } else if v > 6 && ((size - 11 <= r < size - 8 && c < 6) || (size - 11 <= c
                        < size - 8 && r < 6)) {
                        4u8
                    } else {
                        g[r][c]
                    },
            ),
    )
}


/// The cells of one two-column pair in visiting order: right column
/// before left in each row, rows bottom-to-top when `upward`.
pub open spec fn spec_pair_cells(size: int, x: int, upward: bool) -> Seq<(int, int)> {
    Seq::new(
        (2 * size) as nat,
        |k: int|
            {
                let row = if upward {
                    size - 1 - k / 2
                } else {
                    k / 2
                };
                let col = if k % 2 == 0 {
                    x
                } else {
                    x - 1
                };
                (row, col)
            },
    )
}

/// Right column of the next pair: two to the left, but stepping over
/// the timing column 6.
pub open spec fn spec_next_pair_col(x: int) -> int {
    if x == 8 {
        5
    } else {
        x - 2
    }
}

/// The zigzag visiting order over the column pairs, from right column
/// `x` on, alternating direction.
pub open spec fn spec_zigzag_from(size: int, x: int, upward: bool) -> Seq<(int, int)>
    decreases x + 2,
{
    if x < 1 {
        Seq::empty()
    } else {
        spec_pair_cells(size, x, upward) + spec_zigzag_from(size, spec_next_pair_col(x), !upward)
    }
}

/// The full zigzag visiting order, starting upward at the right edge.
pub open spec fn spec_zigzag(size: int) -> Seq<(int, int)> {
    spec_zigzag_from(size, size - 1, true)
}

/// Data placement from the k-th zigzag position on, with bit `b` the
/// next to place: every unassigned module takes the next bit, in
/// order; modules left over when the bits run out stay unassigned.
pub open spec fn spec_place_from(
    g: Seq<Seq<u8>>,
    bits: Seq<u8>,
    pos: Seq<(int, int)>,
    k: int,
    b: int,
) -> Seq<Seq<u8>>
    decreases pos.len() - k,
{
    if k < 0 || k >= pos.len() {
        g
    } else {
        let (y, x) = pos[k];
        if g[y][x] == 5 && 0 <= b < bits.len() {
            spec_place_from(g.update(y, g[y].update(x, bits[b])), bits, pos, k + 1, b + 1)
        } else {
            spec_place_from(g, bits, pos, k + 1, b)
        }
    }
}

/// The grid with the bit sequence placed along the zigzag order.
pub open spec fn spec_place_data(g: Seq<Seq<u8>>, bits: Seq<u8>) -> Seq<Seq<u8>> {
    spec_place_from(g, bits, spec_zigzag(g.len() as int), 0, 0)
}


/// The zigzag order visits at most size * (x + 2) cells from pair `x`.
proof fn lemma_zigzag_from_len(size: int, x: int, upward: bool)
    requires
        size >= 1,
        x >= -2,
    ensures
        spec_zigzag_from(size, x, upward).len() <= size * (x + 2),
    decreases x + 2,
{
    if x < 1 {
        assert(size * (x + 2) >= 0) by (nonlinear_arith)
            requires
                size >= 1,
                x >= -2,
        ;
    } else {
        let nx = spec_next_pair_col(x);
        lemma_zigzag_from_len(size, nx, !upward);
        assert(2 * size + size * (nx + 2) <= size * (x + 2)) by (nonlinear_arith)
            requires
                size >= 1,
                x >= 1,
                nx == (if x == 8 { 5int } else { x - 2 }),
        ;
    }
}


/// Rendered value of a module: dark (1) for states 1 and 3, light (0)
/// otherwise.
pub open spec fn spec_normalize(m: u8) -> u8 {
    if m == 1 || m == 3 {
        1
    } else {
        0
    }
}

/// Rendered value of a module.
pub fn normalize_module(module: u8) -> (r: u8)
    ensures
        r == spec_normalize(module),
{
    if module == 1 || module == 3 {
        1
    } else {
        0
    }
}

/// The grid rendered to dark/light values.
pub open spec fn spec_normalize_grid(g: Seq<Seq<u8>>) -> Seq<Seq<u8>> {
    Seq::new(g.len(), |r: int| Seq::new(g[r].len(), |c: int| spec_normalize(g[r][c])))
}

/// Mask condition `m` at column `x`, row `y`.
pub open spec fn spec_mask_bit(m: int, x: int, y: int) -> bool {
    if m == 0 {
        (x + y) % 2 == 0
    } else if m == 1 {
        x % 2 == 0
    } else if m == 2 {
        y % 3 == 0
    } else if m == 3 {
        (x + y) % 3 == 0
    } else if m == 4 {
        (x / 2 + y / 2) % 2 == 0
    } else if m == 5 {
        (x * y) % 2 + (x * y) % 3 == 0
    } else if m == 6 {
        ((x * y) % 2 + (x * y) % 3) % 2 == 0
    } else {
        ((x + y) % 2 + (x * y) % 3) % 2 == 0
    }
}

/// The grid with mask `m` applied: the bit of each data module whose
/// cell satisfies the mask condition flips; other modules are
/// untouched.
pub open spec fn spec_apply_mask(g: Seq<Seq<u8>>, m: int) -> Seq<Seq<u8>> {
    Seq::new(
        g.len(),
        |y: int|
            Seq::new(
                g[y].len(),
                |x: int|
                    if g[y][x] == 0 && spec_mask_bit(m, x, y) {
                        1u8
                    } else if g[y][x] == 1 && spec_mask_bit(m, x, y) {
                        0u8
                    } else {
                        g[y][x]
                    },
            ),
    )
}

/// Run penalty of the rest of a line, given the run length `count`
/// ending at position j - 1 with value `prev`: 3 points when a run
/// reaches five modules, one more for each further module.
pub open spec fn spec_run_penalty(line: Seq<u8>, j: int, count: int, prev: u8) -> int
    decreases line.len() - j,
{
    if j < 0 || j >= line.len() {
        0
    } else if line[j] == prev {
        (if count + 1 == 5 {
            3int
        } else if count + 1 > 5 {
            1int
        } else {
            0int
        }) + spec_run_penalty(line, j + 1, count + 1, prev)
    } else {
        spec_run_penalty(line, j + 1, 1, line[j])
    }
}

/// Rule-1 penalty of one line.
pub open spec fn spec_line_penalty(line: Seq<u8>) -> int {
    if line.len() == 0 {
        0
    } else {
        spec_run_penalty(line, 1, 1, line[0])
    }
}

/// Column `i` of the grid.
pub open spec fn spec_col_of(g: Seq<Seq<u8>>, i: int) -> Seq<u8> {
    Seq::new(g.len(), |r: int| g[r][i])
}

/// Rule-1 penalty over the first `i` rows and columns.
pub open spec fn spec_penalty1_upto(g: Seq<Seq<u8>>, i: int) -> int
    decreases i,
{
    if i <= 0 {
        0
    } else {
        spec_penalty1_upto(g, i - 1) + spec_line_penalty(g[i - 1]) + spec_line_penalty(
            spec_col_of(g, i - 1),
        )
    }
}

/// Rule 1: runs of five or more equal modules in rows and columns.
pub open spec fn spec_penalty1(g: Seq<Seq<u8>>) -> int {
    spec_penalty1_upto(g, g.len() as int)
}

/// Rule-2 penalty of the 2x2 block with top-left corner (y, x).
pub open spec fn spec_p2_cell(g: Seq<Seq<u8>>, y: int, x: int) -> int {
    if g[y][x] == g[y][x + 1] && g[y][x] == g[y + 1][x] && g[y][x] == g[y + 1][x + 1] {
        3
    } else {
        0
    }
}

/// Rule-2 penalty of row `y` over the first `x` blocks.
pub open spec fn spec_p2_row_upto(g: Seq<Seq<u8>>, y: int, x: int) -> int
    decreases x,
{
    if x <= 0 {
        0
    } else {
        spec_p2_row_upto(g, y, x - 1) + spec_p2_cell(g, y, x - 1)
    }
}

/// Rule-2 penalty over the first `y` block rows.
pub open spec fn spec_penalty2_upto(g: Seq<Seq<u8>>, y: int) -> int
    decreases y,
{
    if y <= 0 {
        0
    } else {
        spec_penalty2_upto(g, y - 1) + spec_p2_row_upto(g, y - 1, g.len() - 1)
    }
}

/// Rule 2: every 2x2 block of equal modules scores three points.
pub open spec fn spec_penalty2(g: Seq<Seq<u8>>) -> int {
    spec_penalty2_upto(g, g.len() - 1)
}

/// The 1:1:3:1:1 pattern with four light modules on the right.
pub open spec fn spec_pat(t: int) -> u8 {
    if t == 0 {
        1
    } else if t == 1 {
        0
    } else if t == 2 {
        1
    } else if t == 3 {
        1
    } else if t == 4 {
        1
    } else if t == 5 {
        0
    } else if t == 6 {
        1
    } else {
        0
    }
}

/// Whether the 11-module window at (i, j..) of a row matches the
/// pattern in either direction.
pub open spec fn spec_p3_row_hit(g: Seq<Seq<u8>>, i: int, j: int) -> bool {
    (forall|u: int| j <= u < j + 11 ==> #[trigger] g[i][u] == spec_pat(u - j)) || (forall|u: int|
        j <= u < j + 11 ==> #[trigger] g[i][u] == spec_pat(10 - (u - j)))
}

/// The same for the column window at (j.., i).
pub open spec fn spec_p3_col_hit(g: Seq<Seq<u8>>, i: int, j: int) -> bool {
    (forall|u: int| j <= u < j + 11 ==> #[trigger] g[u][i] == spec_pat(u - j)) || (forall|u: int|
        j <= u < j + 11 ==> #[trigger] g[u][i] == spec_pat(10 - (u - j)))
}

/// Rule-3 penalty of line `i` over the first `j` windows.
pub open spec fn spec_p3_line_upto(g: Seq<Seq<u8>>, i: int, j: int) -> int
    decreases j,
{
    if j <= 0 {
        0
    } else {
        spec_p3_line_upto(g, i, j - 1) + (if spec_p3_row_hit(g, i, j - 1) {
            40int
        } else {
            0int
        }) + (if spec_p3_col_hit(g, i, j - 1) {
            40int
        } else {
            0int
        })
    }
}

/// Rule-3 penalty over the first `i` lines.
pub open spec fn spec_penalty3_upto(g: Seq<Seq<u8>>, i: int) -> int
    decreases i,
{
    if i <= 0 {
        0
    } else {
        spec_penalty3_upto(g, i - 1) + spec_p3_line_upto(g, i - 1, g.len() - 10)
    }
}

/// Rule 3: each 1:1:3:1:1 window in a row or column, in either
/// direction, scores forty points.
pub open spec fn spec_penalty3(g: Seq<Seq<u8>>) -> int {
    spec_penalty3_upto(g, g.len() as int)
}

/// Dark modules of a line among the first `x`.
pub open spec fn spec_row_dark(line: Seq<u8>, x: int) -> int
    decreases x,
{
    if x <= 0 {
        0
    } else {
        spec_row_dark(line, x - 1) + (if line[x - 1] == 1 {
            1int
        } else {
            0int
        })
    }
}

/// Dark modules of the first `y` rows.
pub open spec fn spec_dark_upto(g: Seq<Seq<u8>>, y: int) -> int
    decreases y,
{
    if y <= 0 {
        0
    } else {
        spec_dark_upto(g, y - 1) + spec_row_dark(g[y - 1], g.len() as int)
    }
}

/// Number of dark modules of the grid.
pub open spec fn spec_dark_count(g: Seq<Seq<u8>>) -> int {
    spec_dark_upto(g, g.len() as int)
}

/// Rule 4: deviation of the dark-module percentage from 50 percent,
/// in steps of five, times ten.
pub open spec fn spec_penalty4(g: Seq<Seq<u8>>) -> int {
    let size = g.len() as int;
    if size == 0 {
        0
    } else {
        let p = spec_dark_count(g) * 100 / (size * size);
        let d1 = if p <= 50 {
            (50 - p) / 5
        } else {
            (p - 50) / 5
        };
        let d2 = if p <= 55 {
            (55 - p) / 5
        } else {
            (p - 55) / 5
        };
        (if d1 <= d2 {
            d1
        } else {
            d2
        }) * 10
    }
}

impl Matrix {
    /// Writes one module.
    fn set_module(&mut self, r: usize, c: usize, val: u8)
        requires
            spec_wf_grid(old(self)@, old(self)@.len() as int),
            r < old(self)@.len(),
            c < old(self)@.len(),
        ensures
            final(self)@.len() == old(self)@.len(),
            spec_wf_grid(final(self)@, old(self)@.len() as int),
            forall|i: int, j: int|
                0 <= i < old(self)@.len() && 0 <= j < old(self)@.len()
                    ==> #[trigger] final(self)@[i][j] == (if i == r && j == c {
                    val
                } else {
                    old(self)@[i][j]
                }),
    {
        proof {
            assert(self@[r as int] == self.0@[r as int]@);
            assert(self@[r as int].len() == self@.len());
        }
        self.0[r][c] = val;
        proof {
            assert forall|i: int|
                0 <= i < final(self)@.len() implies #[trigger] final(self)@[i].len() == old(
                    self,
                )@.len() by {
                assert(final(self)@[i] == final(self).0@[i]@);
                assert(old(self)@[i] == old(self).0@[i]@);
                assert(old(self)@[i].len() == old(self)@.len());
                if i != r {
                    assert(final(self).0@[i] == old(self).0@[i]);
                } else {
                    assert(final(self).0@[i]@ =~= old(self).0@[i]@.update(c as int, val));
                }
            }
        }
    }

    /// Stamps one 7x7 finder pattern with its corner at (ai, aj).
    fn stamp_finder(&mut self, ai: usize, aj: usize)
        requires
            spec_wf_grid(old(self)@, old(self)@.len() as int),
            ai + 7 <= old(self)@.len(),
            aj + 7 <= old(self)@.len(),
        ensures
            final(self)@.len() == old(self)@.len(),
            spec_wf_grid(final(self)@, old(self)@.len() as int),
            forall|i: int, j: int|
                0 <= i < old(self)@.len() && 0 <= j < old(self)@.len()
                    ==> #[trigger] final(self)@[i][j] == (
                if ai <= i < ai + 7 && aj <= j < aj + 7 {
                    spec_finder_val(i - ai, j - aj)
                } else {
                    old(self)@[i][j]
                }),
    {
        let size = self.0.len();
        let mut dr: usize = 0;
        while dr < 7
            invariant
                dr <= 7,
                size == self@.len(),
                ai + 7 <= size,
                aj + 7 <= size,
                spec_wf_grid(self@, size as int),
                forall|i: int, j: int|
                    0 <= i < size && 0 <= j < size ==> #[trigger] self@[i][j] == (
                    if ai <= i < ai + dr && aj <= j < aj + 7 {
                        spec_finder_val(i - ai, j - aj)
                    } else {
                        old(self)@[i][j]
                    }),
            decreases 7 - dr,
        {
            let mut dc: usize = 0;
            while dc < 7
                invariant
                    dr < 7,
                    dc <= 7,
                    size == self@.len(),
                    ai + 7 <= size,
                    aj + 7 <= size,
                    spec_wf_grid(self@, size as int),
                    forall|i: int, j: int|
                        0 <= i < size && 0 <= j < size ==> #[trigger] self@[i][j] == (
                        if (ai <= i < ai + dr && aj <= j < aj + 7) || (i == ai + dr && aj <= j < aj
                            + dc) {
                            spec_finder_val(i - ai, j - aj)
                        } else {
                            old(self)@[i][j]
                        }),
                decreases 7 - dc,
            {
                let val: u8 = if dr == 0 || dr == 6 || dc == 0 || dc == 6 {
                    3
                } else if dr == 1 || dr == 5 || dc == 1 || dc == 5 {
                    2
                } else {
                    3
                };
                self.set_module(ai + dr, aj + dc, val);
                dc += 1;
            }
            dr += 1;
        }
    }

    /// Stamps the three finder patterns at the non-bottom-right
    /// corners.
    pub fn add_finder_patterns(&mut self)
        requires
            spec_wf_grid(old(self)@, old(self)@.len() as int),
            old(self)@.len() >= 21,
        ensures
            final(self)@ =~~= spec_add_finders(old(self)@),
            spec_wf_grid(final(self)@, old(self)@.len() as int),
            final(self)@.len() == old(self)@.len(),
    {
        let size = self.0.len();
        let fix = size - 7;
        self.stamp_finder(0, 0);
        self.stamp_finder(fix, 0);
        self.stamp_finder(0, fix);
        proof {
            assert forall|i: int|
                0 <= i < self@.len() implies #[trigger] self@[i] =~= spec_add_finders(
                old(self)@,
            )[i] by {
                assert forall|j: int|
                    0 <= j < size implies #[trigger] self@[i][j] == spec_add_finders(
                    old(self)@,
                )[i][j] by {
                    assert(spec_add_finders(old(self)@)[i].len() == size);
                }
            }
        }
    }

    /// Stamps the light separators around the finder patterns.
    pub fn add_separators(&mut self)
        requires
            spec_wf_grid(old(self)@, old(self)@.len() as int),
            old(self)@.len() >= 21,
        ensures
            final(self)@ =~~= spec_add_separators(old(self)@),
            spec_wf_grid(final(self)@, old(self)@.len() as int),
            final(self)@.len() == old(self)@.len(),
    {
        let size = self.0.len();
        let fix = size - 8;
        let mut i: usize = 0;
        while i < 8
            invariant
                i <= 8,
                size == self@.len() >= 21,
                fix == size - 8,
                spec_wf_grid(self@, size as int),
                forall|r: int, c: int|
                    0 <= r < size && 0 <= c < size ==> #[trigger] self@[r][c] == (
                    if (r == 7 && c < i) || (c == 7 && r < i) || (c == fix && r < i) || (r == fix
                        && c < i) {
                        2u8
                    } else {
                        old(self)@[r][c]
                    }),
            decreases 8 - i,
        {
            self.set_module(7, i, 2);
            self.set_module(i, 7, 2);
            self.set_module(i, fix, 2);
            self.set_module(fix, i, 2);
            i += 1;
        }
        let mut t: usize = fix;
        while t < size
            invariant
                fix <= t <= size,
                size == self@.len() >= 21,
                fix == size - 8,
                spec_wf_grid(self@, size as int),
                forall|r: int, c: int|
                    0 <= r < size && 0 <= c < size ==> #[trigger] self@[r][c] == (
                    if (r == 7 && (c < 8 || fix <= c < t)) || (c == 7 && (r < 8 || fix <= r < t))
                        || (c == fix && r < 8) || (r == fix && c < 8) {
                        2u8
                    } else {
                        old(self)@[r][c]
                    }),
            decreases size - t,
        {
            self.set_module(7, t, 2);
            self.set_module(t, 7, 2);
            t += 1;
        }
        proof {
            assert forall|r: int|
                0 <= r < final(self)@.len() implies #[trigger] final(self)@[r]
                =~= spec_add_separators(old(self)@)[r] by {
                assert(final(self)@[r].len() == size);
                assert(spec_add_separators(old(self)@)[r].len() == size);
                assert forall|c: int|
                    0 <= c < size implies #[trigger] final(self)@[r][c] == spec_add_separators(
                    old(self)@,
                )[r][c] by {}
            }
        }
    }

    /// Stamps one 5x5 alignment pattern centred at (cy, cx).
    fn stamp_alignment(&mut self, cy: usize, cx: usize)
        requires
            spec_wf_grid(old(self)@, old(self)@.len() as int),
            2 <= cy,
            cy + 3 <= old(self)@.len(),
            2 <= cx,
            cx + 3 <= old(self)@.len(),
        ensures
            final(self)@ =~~= spec_stamp_alignment(old(self)@, cy as int, cx as int),
            spec_wf_grid(final(self)@, old(self)@.len() as int),
            final(self)@.len() == old(self)@.len(),
    {
        let size = self.0.len();
        let base_r = cy - 2;
        let base_c = cx - 2;
        let mut dr: usize = 0;
        while dr < 5
            invariant
                dr <= 5,
                size == self@.len(),
                base_r == cy - 2,
                base_c == cx - 2,
                base_r + 5 <= size,
                base_c + 5 <= size,
                spec_wf_grid(self@, size as int),
                forall|r: int, c: int|
                    0 <= r < size && 0 <= c < size ==> #[trigger] self@[r][c] == (
                    if base_r <= r < base_r + dr && base_c <= c < base_c + 5 {
                        spec_align_val(r - base_r, c - base_c)
                    } else {
                        old(self)@[r][c]
                    }),
            decreases 5 - dr,
        {
            let mut dc: usize = 0;
            while dc < 5
                invariant
                    dr < 5,
                    dc <= 5,
                    size == self@.len(),
                    base_r == cy - 2,
                    base_c == cx - 2,
                    base_r + 5 <= size,
                    base_c + 5 <= size,
                    spec_wf_grid(self@, size as int),
                    forall|r: int, c: int|
                        0 <= r < size && 0 <= c < size ==> #[trigger] self@[r][c] == (
                        if (base_r <= r < base_r + dr && base_c <= c < base_c + 5) || (r == base_r
                            + dr && base_c <= c < base_c + dc) {
                            spec_align_val(r - base_r, c - base_c)
                        } else {
                            old(self)@[r][c]
                        }),
                decreases 5 - dc,
            {
                let val: u8 = if dr == 2 && dc == 2 {
                    3
                } else if 1 <= dr && dr <= 3 && 1 <= dc && dc <= 3 {
                    2
                } else {
                    3
                };
                self.set_module(base_r + dr, base_c + dc, val);
                dc += 1;
            }
            dr += 1;
        }
        proof {
            assert forall|r: int|
                0 <= r < final(self)@.len() implies #[trigger] final(self)@[r]
                =~= spec_stamp_alignment(old(self)@, cy as int, cx as int)[r] by {
                assert(final(self)@[r].len() == size);
                assert(spec_stamp_alignment(old(self)@, cy as int, cx as int)[r].len() == size);
            }
        }
    }

    /// Stamps the alignment patterns of the version, skipping each
    /// centre that falls inside a finder pattern; version 1 has none.
    pub fn add_alignment_patterns(&mut self, version: usize)
        requires
            spec_wf_grid(old(self)@, old(self)@.len() as int),
            old(self)@.len() == spec_size(version as int),
            1 <= version <= 40,
        ensures
            final(self)@ == spec_add_alignment(old(self)@, version as int),
            spec_wf_grid(final(self)@, old(self)@.len() as int),
            final(self)@.len() == old(self)@.len(),
    {
        let size = self.0.len();
        let locs = alignment_locations(version);
        let n = locs.len();
        let ghost lseq = spec_alignment_locations(version as int);
        proof {
            lemma_alignment_locations_in_range(version as int);
            if n == 0 {
                assert(spec_alignment_fold(old(self)@, lseq, 0) == old(self)@);
            }
        }
        let mut i: usize = 0;
        while i < n
            invariant
                i <= n,
                n == lseq.len(),
                locs@ == lseq,
                size == self@.len(),
                size == spec_size(version as int),
                1 <= version <= 40,
                spec_wf_grid(self@, size as int),
                forall|t: int| 0 <= t < n ==> 6 <= #[trigger] lseq[t] < size - 6,
                spec_alignment_fold(self@, lseq, (i * n) as int) == spec_alignment_fold(
                    old(self)@,
                    lseq,
                    0,
                ),
            decreases n - i,
        {
            let cy = locs[i];
            let mut j: usize = 0;
            while j < n
                invariant
                    i < n,
                    j <= n,
                    n == lseq.len(),
                    locs@ == lseq,
                    cy == lseq[i as int],
                    size == self@.len(),
                    size == spec_size(version as int),
                    1 <= version <= 40,
                    spec_wf_grid(self@, size as int),
                    forall|t: int| 0 <= t < n ==> 6 <= #[trigger] lseq[t] < size - 6,
                    spec_alignment_fold(self@, lseq, (i * n + j) as int) == spec_alignment_fold(
                        old(self)@,
                        lseq,
                        0,
                    ),
                decreases n - j,
            {
                let cx = locs[j];
                let ghost k = (i * n + j) as int;
                proof {
                    assert(i * n + j < n * n) by (nonlinear_arith)
                        requires
                            0 <= i < n,
                            0 <= j < n,
                    ;
                    assert(k / (n as int) == i as int && k % (n as int) == j as int)
                        by (nonlinear_arith)
                        requires
                            k == i * n + j,
                            0 <= j < n,
                            0 <= i,
                    ;
                    assert(i * n + j + 1 <= n * n) by (nonlinear_arith)
                        requires
                            0 <= i < n,
                            0 <= j < n,
                    ;
                }
                let ghost before = self@;
                if self.get_module(cy as usize, cx as usize) != 3 {
                    self.stamp_alignment(cy as usize, cx as usize);
                    proof {
                        assert(self@ =~~= spec_alignment_step(before, cy as int, cx as int));
                    }
                } else {
                    proof {
                        assert(self@ =~~= spec_alignment_step(before, cy as int, cx as int));
                    }
                }
                j += 1;
                proof {
                    assert(spec_alignment_fold(before, lseq, k) == spec_alignment_fold(
                        self@,
                        lseq,
                        k + 1,
                    ));
                    assert((i * n + j) as int == k + 1);
                }
            }
            i += 1;
            proof {
                assert((i * n) as int == ((i - 1) * n + n) as int) by (nonlinear_arith);
            }
        }
        proof {
            assert((n * n) as int == (n as int) * (n as int)) by (nonlinear_arith);
            assert(spec_alignment_fold(self@, lseq, (n * n) as int) == self@);
        }
    }

    /// Reads one module.
    fn get_module(&self, r: usize, c: usize) -> (val: u8)
        requires
            spec_wf_grid(self@, self@.len() as int),
            r < self@.len(),
            c < self@.len(),
        ensures
            val == self@[r as int][c as int],
    {
        proof {
            assert(self@[r as int] == self.0@[r as int]@);
            assert(self@[r as int].len() == self@.len());
        }
        self.0[r][c]
    }

    /// Stamps the two timing strips between the finder patterns.
    pub fn add_timing_patterns(&mut self)
        requires
            spec_wf_grid(old(self)@, old(self)@.len() as int),
            old(self)@.len() >= 21,
        ensures
            final(self)@ =~~= spec_add_timing(old(self)@),
            spec_wf_grid(final(self)@, old(self)@.len() as int),
            final(self)@.len() == old(self)@.len(),
    {
        let size = self.0.len();
        let fix = size - 8;
        let mut i: usize = 8;
        while i < fix
            invariant
                8 <= i <= fix,
                size == self@.len() >= 21,
                fix == size - 8,
                spec_wf_grid(self@, size as int),
                forall|r: int, c: int|
                    0 <= r < size && 0 <= c < size ==> #[trigger] self@[r][c] == (
                    if r == 6 && 8 <= c < i {
                        if c % 2 == 0 {
                            3u8
                        } else {
                            2u8
                        }
                    } else if c == 6 && 8 <= r < i {
                        if r % 2 == 0 {
                            3u8
                        } else {
                            2u8
                        }
                    } else {
                        old(self)@[r][c]
                    }),
            decreases fix - i,
        {
            let val: u8 = if i % 2 == 0 {
                3
            } else {
                2
            };
            self.set_module(6, i, val);
            self.set_module(i, 6, val);
            i += 1;
        }
        proof {
            assert forall|r: int|
                0 <= r < final(self)@.len() implies #[trigger] final(self)@[r] =~= spec_add_timing(
                old(self)@,
            )[r] by {
                assert(final(self)@[r].len() == size);
                assert(spec_add_timing(old(self)@)[r].len() == size);
            }
        }
    }

    /// Stamps the dark module and marks the reserved format- and
    /// version-information areas.
    pub fn add_dark_module_and_reserved_areas(&mut self, version: usize)
        requires
            spec_wf_grid(old(self)@, old(self)@.len() as int),
            old(self)@.len() == spec_size(version as int),
            1 <= version <= 40,
        ensures
            final(self)@ =~~= spec_add_reserved(old(self)@, version as int),
            spec_wf_grid(final(self)@, old(self)@.len() as int),
            final(self)@.len() == old(self)@.len(),
    {
        let size = self.0.len();
        let fix = size - 8;
        let mut i: usize = 0;
        while i < 9
            invariant
                i <= 9,
                size == self@.len() >= 21,
                fix == size - 8,
                spec_wf_grid(self@, size as int),
                forall|r: int, c: int|
                    0 <= r < size && 0 <= c < size ==> #[trigger] self@[r][c] == (
                    if (r == 8 && c < i) || (c == 8 && r < i) {
                        4u8
                    } else {
                        old(self)@[r][c]
                    }),
            decreases 9 - i,
        {
            self.set_module(8, i, 4);
            self.set_module(i, 8, 4);
            i += 1;
        }
        let mut t: usize = fix;
        while t < size
            invariant
                fix <= t <= size,
                size == self@.len() >= 21,
                fix == size - 8,
                spec_wf_grid(self@, size as int),
                forall|r: int, c: int|
                    0 <= r < size && 0 <= c < size ==> #[trigger] self@[r][c] == (
                    if (r == 8 && (c < 9 || fix <= c < t)) || (c == 8 && (r < 9 || fix <= r < t)) {
                        4u8
                    } else {
                        old(self)@[r][c]
                    }),
            decreases size - t,
        {
            self.set_module(8, t, 4);
            self.set_module(t, 8, 4);
            t += 1;
        }
        self.set_module(6, 8, 3);
        self.set_module(8, 6, 3);
        self.set_module(fix, 8, 3);
        let ghost mid = self@;
        if version > 6 {
            let mut a: usize = fix - 3;
            while a < fix
                invariant
                    fix - 3 <= a <= fix,
                    size == self@.len() >= 21,
                    fix == size - 8,
                    size >= 45,
                    spec_wf_grid(self@, size as int),
                    forall|r: int, c: int|
                        0 <= r < size && 0 <= c < size ==> #[trigger] self@[r][c] == (
                        if (fix - 3 <= r < a && c < 6) || (fix - 3 <= c < a && r < 6) {
                            4u8
                        } else {
                            mid[r][c]
                        }),
                decreases fix - a,
            {
                let mut b: usize = 0;
                while b < 6
                    invariant
                        fix - 3 <= a < fix,
                        b <= 6,
                        size == self@.len() >= 21,
                        fix == size - 8,
                        size >= 45,
                        spec_wf_grid(self@, size as int),
                        forall|r: int, c: int|
                            0 <= r < size && 0 <= c < size ==> #[trigger] self@[r][c] == (
                            if (fix - 3 <= r < a && c < 6) || (fix - 3 <= c < a && r < 6) || (r == a
                                && c < b) || (c == a && r < b) {
                                4u8
                            } else {
                                mid[r][c]
                            }),
                    decreases 6 - b,
                {
                    self.set_module(a, b, 4);
                    self.set_module(b, a, 4);
                    b += 1;
                }
                a += 1;
            }
        }
        proof {
            assert forall|r: int|
                0 <= r < final(self)@.len() implies #[trigger] final(self)@[r]
                =~= spec_add_reserved(old(self)@, version as int)[r] by {
                assert(final(self)@[r].len() == size);
                assert(spec_add_reserved(old(self)@, version as int)[r].len() == size);
            }
        }
    }

    /// Places the bit sequence into the unassigned modules along the
    /// zigzag order; later modules stay unassigned if the bits run out.
    pub fn place_data(&mut self, data: &Vec<u8>)
        requires
            spec_wf_grid(old(self)@, old(self)@.len() as int),
            21 <= old(self)@.len() <= 177,
        ensures
            final(self)@ == spec_place_data(old(self)@, data@),
            spec_wf_grid(final(self)@, old(self)@.len() as int),
            final(self)@.len() == old(self)@.len(),
    {
        let size = self.0.len();
        let ghost pos = spec_zigzag(size as int);
        let ghost target = spec_place_data(old(self)@, data@);
        let mut b: usize = 0;
        let mut x: usize = size - 1;
        let mut upward: bool = true;
        let mut k: usize = 0;
        proof {
            assert(pos.skip(0) =~= pos);
            lemma_zigzag_from_len(size as int, size as int - 1, true);
            assert((size as int) * (size as int + 1) <= 31506) by (nonlinear_arith)
                requires
                    size <= 177,
            ;
        }
        while x >= 1
            invariant
                21 <= size <= 177,
                size == self@.len(),
                spec_wf_grid(self@, size as int),
                x < size,
                b <= data@.len(),
                k <= pos.len(),
                pos.len() <= 31506,
                pos == spec_zigzag(size as int),
                pos.skip(k as int) =~= spec_zigzag_from(size as int, x as int, upward),
                spec_place_from(self@, data@, pos, k as int, b as int) == target,
            decreases x,
        {
            let ghost pair = spec_pair_cells(size as int, x as int, upward);
            proof {
                assert(spec_zigzag_from(size as int, x as int, upward) =~= pair
                    + spec_zigzag_from(
                    size as int,
                    spec_next_pair_col(x as int),
                    !upward,
                ));
                assert(pos.len() - k >= pair.len());
            }
            let mut k2: usize = 0;
            while k2 < 2 * size
                invariant
                    k2 <= 2 * size,
                    1 <= x < size,
                    21 <= size <= 177,
                    size == self@.len(),
                    spec_wf_grid(self@, size as int),
                    b <= data@.len(),
                    k + 2 * size <= pos.len(),
                    pos.len() <= 31506,
                    pos == spec_zigzag(size as int),
                    pair == spec_pair_cells(size as int, x as int, upward),
                    pos.skip(k as int) =~= pair + spec_zigzag_from(
                        size as int,
                        spec_next_pair_col(x as int),
                        !upward,
                    ),
                    spec_place_from(self@, data@, pos, k + k2, b as int) == target,
                decreases 2 * size - k2,
            {
                let row = if upward {
                    size - 1 - k2 / 2
                } else {
                    k2 / 2
                };
                let col = if k2 % 2 == 0 {
                    x
                } else {
                    x - 1
                };
                proof {
                    assert(pos.skip(k as int)[k2 as int] == pair[k2 as int]);
                    assert(pos[k + k2] == (row as int, col as int));
                }
                let ghost before = self@;
                let cur = self.get_module(row, col);
                if cur == 5 && b < data.len() {
                    self.set_module(row, col, data[b]);
                    proof {
                        assert(self@ =~~= before.update(
                            row as int,
                            before[row as int].update(col as int, data@[b as int]),
                        ));
                        assert(spec_place_from(before, data@, pos, k + k2, b as int)
                            == spec_place_from(self@, data@, pos, k + k2 + 1, b + 1));
                    }
                    b += 1;
                } else {
                    proof {
                        assert(spec_place_from(before, data@, pos, k + k2, b as int)
                            == spec_place_from(self@, data@, pos, k + k2 + 1, b as int));
                    }
                }
                k2 += 1;
            }
            proof {
                assert(pos.skip(k as int).skip(2 * size as int) =~= pos.skip(k + 2 * size));
                assert((pair + spec_zigzag_from(
                    size as int,
                    spec_next_pair_col(x as int),
                    !upward,
                )).skip(2 * size as int) =~= spec_zigzag_from(
                    size as int,
                    spec_next_pair_col(x as int),
                    !upward,
                ));
                assert(pos.skip(k + 2 * size) =~= spec_zigzag_from(
                    size as int,
                    spec_next_pair_col(x as int),
                    !upward,
                ));
            }
            k = k + 2 * size;
            upward = !upward;
            if x == 8 {
                x = 5;
            } else if x >= 2 {
                x = x - 2;
            } else {
                x = 0;
            }
            proof {
                assert(pos.skip(k as int) =~= spec_zigzag_from(size as int, x as int, upward));
            }
        }
        proof {
            assert(spec_zigzag_from(size as int, x as int, upward) =~= Seq::<(int, int)>::empty());
            assert(pos.skip(k as int).len() == 0);
            assert(k == pos.len());
            assert(spec_place_from(self@, data@, pos, k as int, b as int) == self@);
        }
    }
}


/// Rule-1 penalty of one line of modules.
fn line_penalty(line: &Vec<u8>) -> (r: u32)
    requires
        line@.len() <= 177,
    ensures
        r == spec_line_penalty(line@),
        r <= 3 * line@.len(),
{
    let n = line.len();
    if n == 0 {
        return 0;
    }
    let mut acc: u32 = 0;
    let mut count: u32 = 1;
    let mut prev: u8 = line[0];
    let mut j: usize = 1;
    while j < n
        invariant
            1 <= j <= n,
            n == line@.len() <= 177,
            1 <= count <= j,
            acc + spec_run_penalty(line@, j as int, count as int, prev) == spec_line_penalty(
                line@,
            ),
            acc <= 3 * j,
        decreases n - j,
    {
        if line[j] == prev {
            count += 1;
            if count == 5 {
                acc += 3;
            } else if count > 5 {
                acc += 1;
            }
        } else {
            prev = line[j];
            count = 1;
        }
        j += 1;
    }
    acc
}

/// Column `i` of the grid as a vector.
fn extract_col(matrix: &Vec<Vec<u8>>, i: usize) -> (r: Vec<u8>)
    requires
        spec_wf_grid(spec_grid_of(matrix@), matrix@.len() as int),
        i < matrix@.len(),
    ensures
        r@ =~= spec_col_of(spec_grid_of(matrix@), i as int),
{
    let n = matrix.len();
    let mut col: Vec<u8> = Vec::new();
    let mut t: usize = 0;
    while t < n
        invariant
            t <= n,
            i < n,
            n == matrix@.len(),
            spec_wf_grid(spec_grid_of(matrix@), n as int),
            col@ =~= spec_col_of(spec_grid_of(matrix@), i as int).take(t as int),
        decreases n - t,
    {
        proof {
            assert(spec_grid_of(matrix@)[t as int] == matrix@[t as int]@);
            assert(spec_grid_of(matrix@)[t as int].len() == n);
        }
        col.push(matrix[t][i]);
        t += 1;
        proof {
            assert(col@ =~= spec_col_of(spec_grid_of(matrix@), i as int).take(t as int));
        }
    }
    proof {
        assert(spec_col_of(spec_grid_of(matrix@), i as int).take(n as int) =~= spec_col_of(
            spec_grid_of(matrix@),
            i as int,
        ));
    }
    col
}

/// The 1:1:3:1:1 pattern, by index.
fn pat_at(t: usize) -> (r: u8)
    requires
        t < 11,
    ensures
        r == spec_pat(t as int),
{
    if t == 0 || t == 2 || t == 3 || t == 4 || t == 6 {
        1
    } else {
        0
    }
}

impl Matrix {
    /// Rule 1: runs of five or more equal modules, rows and columns.
    pub fn eval_condition_1(matrix: &Vec<Vec<u8>>) -> (r: u32)
        requires
            spec_wf_grid(spec_grid_of(matrix@), matrix@.len() as int),
            matrix@.len() <= 177,
        ensures
            r == spec_penalty1(spec_grid_of(matrix@)),
            r <= 200000,
    {
        let ghost g = spec_grid_of(matrix@);
        let n = matrix.len();
        let mut total: u32 = 0;
        let mut i: usize = 0;
        while i < n
            invariant
                i <= n,
                n == matrix@.len() <= 177,
                g == spec_grid_of(matrix@),
                spec_wf_grid(g, n as int),
                total == spec_penalty1_upto(g, i as int),
                total <= 1062 * i,
            decreases n - i,
        {
            proof {
                assert(g[i as int] == matrix@[i as int]@);
                assert(g[i as int].len() == n);
            }
            let rp = line_penalty(&matrix[i]);
            let colv = extract_col(matrix, i);
            let cp = line_penalty(&colv);
            total = total + rp + cp;
            i += 1;
        }
        total
    }

    /// Rule 2: every 2x2 block of equal modules.
    pub fn eval_condition_2(matrix: &Vec<Vec<u8>>) -> (r: u32)
        requires
            spec_wf_grid(spec_grid_of(matrix@), matrix@.len() as int),
            1 <= matrix@.len() <= 177,
        ensures
            r == spec_penalty2(spec_grid_of(matrix@)),
            r <= 100000,
    {
        let ghost g = spec_grid_of(matrix@);
        let n = matrix.len();
        let edge = n - 1;
        let mut total: u32 = 0;
        let mut y: usize = 0;
        while y < edge
            invariant
                y <= edge,
                edge == n - 1,
                n == matrix@.len() <= 177,
                g == spec_grid_of(matrix@),
                spec_wf_grid(g, n as int),
                total == spec_penalty2_upto(g, y as int),
                total <= 531 * y,
            decreases edge - y,
        {
            let mut x: usize = 0;
            let mut row_acc: u32 = 0;
            while x < edge
                invariant
                    x <= edge,
                    y < edge,
                    edge == n - 1,
                    n == matrix@.len() <= 177,
                    g == spec_grid_of(matrix@),
                    spec_wf_grid(g, n as int),
                    row_acc == spec_p2_row_upto(g, y as int, x as int),
                    row_acc <= 3 * x,
                decreases edge - x,
            {
                proof {
                    assert(g[y as int] == matrix@[y as int]@);
                    assert(g[y + 1] == matrix@[y + 1]@);
                    assert(g[y as int].len() == n);
                    assert(g[y + 1].len() == n);
                }
                let tl = matrix[y][x];
                if tl == matrix[y][x + 1] && tl == matrix[y + 1][x] && tl == matrix[y + 1][x
                    + 1] {
                    row_acc += 3;
                }
                x += 1;
            }
            total = total + row_acc;
            y += 1;
        }
        total
    }

    /// Rule 3: 1:1:3:1:1 windows in rows and columns, both directions.
    pub fn eval_condition_3(matrix: &Vec<Vec<u8>>) -> (r: u32)
        requires
            spec_wf_grid(spec_grid_of(matrix@), matrix@.len() as int),
            matrix@.len() <= 177,
        ensures
            r == spec_penalty3(spec_grid_of(matrix@)),
            r <= 3000000,
    {
        let ghost g = spec_grid_of(matrix@);
        let n = matrix.len();
        let w = if n >= 11 {
            n - 10
        } else {
            0
        };
        proof {
            assert(w as int == (if g.len() >= 11 { g.len() - 10 } else { 0int }));
        }
        let mut total: u32 = 0;
        let mut i: usize = 0;
        while i < n
            invariant
                i <= n,
                n == matrix@.len() <= 177,
                w == (if n >= 11 { n - 10 } else { 0 }),
                g == spec_grid_of(matrix@),
                spec_wf_grid(g, n as int),
                total == spec_penalty3_upto(g, i as int),
                total <= 14160 * i,
            decreases n - i,
        {
            let mut j: usize = 0;
            let mut line_acc: u32 = 0;
            while j < w
                invariant
                    j <= w,
                    i < n,
                    n == matrix@.len() <= 177,
                    w == (if n >= 11 { n - 10 } else { 0 }),
                    g == spec_grid_of(matrix@),
                    spec_wf_grid(g, n as int),
                    line_acc == spec_p3_line_upto(g, i as int, j as int),
                    line_acc <= 80 * j,
                decreases w - j,
            {
                let mut fwd = true;
                let mut rev = true;
                let mut t: usize = 0;
                while t < 11
                    invariant
                        t <= 11,
                        i < n,
                        j + 10 < n,
                        n == matrix@.len() <= 177,
                        g == spec_grid_of(matrix@),
                        spec_wf_grid(g, n as int),
                        fwd == (forall|u: int|
                            j <= u < j + t ==> #[trigger] g[i as int][u] == spec_pat(u - j)),
                        rev == (forall|u: int|
                            j <= u < j + t ==> #[trigger] g[i as int][u] == spec_pat(
                                10 - (u - j),
                            )),
                    decreases 11 - t,
                {
                    proof {
                        assert(g[i as int] == matrix@[i as int]@);
                        assert(g[i as int].len() == n);
                    }
                    let cell = matrix[i][j + t];
                    let pf = pat_at(t);
                    let pr = pat_at(10 - t);
                    fwd = fwd && cell == pf;
                    rev = rev && cell == pr;
                    t += 1;
                }
                let mut cfwd = true;
                let mut crev = true;
                let mut t2: usize = 0;
                while t2 < 11
                    invariant
                        t2 <= 11,
                        i < n,
                        j + 10 < n,
                        n == matrix@.len() <= 177,
                        g == spec_grid_of(matrix@),
                        spec_wf_grid(g, n as int),
                        cfwd == (forall|u: int|
                            j <= u < j + t2 ==> #[trigger] g[u][i as int] == spec_pat(u - j)),
                        crev == (forall|u: int|
                            j <= u < j + t2 ==> #[trigger] g[u][i as int] == spec_pat(
                                10 - (u - j),
                            )),
                    decreases 11 - t2,
                {
                    proof {
                        assert(g[j + t2] == matrix@[j + t2]@);
                        assert(g[j + t2].len() == n);
                    }
                    let cell = matrix[j + t2][i];
                    let pf = pat_at(t2);
                    let pr = pat_at(10 - t2);
                    cfwd = cfwd && cell == pf;
                    crev = crev && cell == pr;
                    t2 += 1;
                }
                if fwd || rev {
                    line_acc += 40;
                }
                if cfwd || crev {
                    line_acc += 40;
                }
                proof {
                    assert((fwd || rev) == spec_p3_row_hit(g, i as int, j as int));
                    assert((cfwd || crev) == spec_p3_col_hit(g, i as int, j as int));
                }
                j += 1;
            }
            proof {
                if n >= 11 {
                    assert(spec_p3_line_upto(g, i as int, g.len() - 10) == line_acc);
                } else {
                    assert(spec_p3_line_upto(g, i as int, g.len() - 10) == 0);
                }
            }
            total = total + line_acc;
            i += 1;
        }
        total
    }

    /// Rule 4: deviation of the dark-module share from one half.
    pub fn eval_condition_4(matrix: &Vec<Vec<u8>>) -> (r: u32)
        requires
            spec_wf_grid(spec_grid_of(matrix@), matrix@.len() as int),
            1 <= matrix@.len() <= 177,
        ensures
            r == spec_penalty4(spec_grid_of(matrix@)),
            r <= 200,
    {
        let ghost g = spec_grid_of(matrix@);
        let n = matrix.len();
        let mut dark: u32 = 0;
        let mut y: usize = 0;
        while y < n
            invariant
                y <= n,
                n == matrix@.len() <= 177,
                g == spec_grid_of(matrix@),
                spec_wf_grid(g, n as int),
                dark == spec_dark_upto(g, y as int),
                dark <= n * y,
                n * y <= 31329,
            decreases n - y,
        {
            let mut x: usize = 0;
            let mut row_dark: u32 = 0;
            while x < n
                invariant
                    x <= n,
                    y < n,
                    n == matrix@.len() <= 177,
                    g == spec_grid_of(matrix@),
                    spec_wf_grid(g, n as int),
                    row_dark == spec_row_dark(g[y as int], x as int),
                    row_dark <= x,
                decreases n - x,
            {
                proof {
                    assert(g[y as int] == matrix@[y as int]@);
                    assert(g[y as int].len() == n);
                }
                if matrix[y][x] == 1 {
                    row_dark += 1;
                }
                x += 1;
            }
            proof {
                assert((n as int) * ((y + 1) as int) == (n as int) * (y as int) + n)
                    by (nonlinear_arith);
                assert((n as int) * ((y + 1) as int) <= 31329) by (nonlinear_arith)
                    requires
                        y + 1 <= n <= 177,
                ;
            }
            dark = dark + row_dark;
            y += 1;
        }
        proof {
            assert(1 <= n <= 177);
            assert((dark as int) <= (n as int) * (n as int)) by (nonlinear_arith)
                requires
                    (dark as int) <= (n as int) * (n as int),
            ;
            assert(dark <= 31329);
            assert(1 <= (n as int) * (n as int) <= 31329) by (nonlinear_arith)
                requires
                    1 <= (n as int) <= 177,
            ;
        }
        let sq: u32 = (n as u32) * (n as u32);
        let p = dark * 100 / sq;
        proof {
            assert(p == spec_dark_count(g) * 100 / ((g.len() * g.len()) as int));
            assert(p <= 100) by (nonlinear_arith)
                requires
                    (p as int) == (dark as int) * 100 / ((n as int) * (n as int)),
                    (dark as int) <= (n as int) * (n as int),
                    1 <= n <= 177,
            ;
        }
        let d1 = if p <= 50 {
            (50 - p) / 5
        } else {
            (p - 50) / 5
        };
        let d2 = if p <= 55 {
            (55 - p) / 5
        } else {
            (p - 55) / 5
        };
        (if d1 <= d2 {
            d1
        } else {
            d2
        }) * 10
    }
}


/// Total penalty of a rendered grid: the four rules summed.
pub open spec fn spec_penalty_total(g: Seq<Seq<u8>>) -> int {
    spec_penalty1(g) + spec_penalty2(g) + spec_penalty3(g) + spec_penalty4(g)
}

/// Penalty of the grid under mask `m`, scored on the rendered
/// dark/light values.
pub open spec fn spec_mask_penalty(g: Seq<Seq<u8>>, m: int) -> int {
    spec_penalty_total(spec_normalize_grid(spec_apply_mask(g, m)))
}

/// Best mask among 0..=k: the lowest penalty, ties broken by the
/// lower index.
pub open spec fn spec_best_upto(g: Seq<Seq<u8>>, k: int) -> int
    decreases k,
{
    if k <= 0 {
        0
    } else {
        let prev = spec_best_upto(g, k - 1);
        if spec_mask_penalty(g, k) < spec_mask_penalty(g, prev) {
            k
        } else {
            prev
        }
    }
}

/// The committed mask: best of the eight candidates.
pub open spec fn spec_best_mask(g: Seq<Seq<u8>>) -> int {
    spec_best_upto(g, 7)
}

/// A fully unassigned grid.
pub open spec fn spec_blank(size: int) -> Seq<Seq<u8>> {
    Seq::new(size as nat, |r: int| Seq::new(size as nat, |c: int| 5u8))
}

/// The function and reserved module map of a version: finders,
/// separators, alignment patterns, timing strips, dark module and
/// reserved areas, in build order.
pub open spec fn spec_function_grid(v: int) -> Seq<Seq<u8>> {
    let size = spec_size(v);
    spec_add_reserved(
        spec_add_timing(
            spec_add_alignment(spec_add_separators(spec_add_finders(spec_blank(size))), v),
        ),
        v,
    )
}

/// The finished symbol: data bits placed into the function grid, then
/// the best of the eight masks applied.
pub open spec fn spec_symbol_grid(bits: Seq<u8>, v: int) -> Seq<Seq<u8>> {
    let placed = spec_place_data(spec_function_grid(v), bits);
    spec_apply_mask(placed, spec_best_mask(placed))
}

/// Mask condition `m` at column `x`, row `y`.
fn mask_bit(m: usize, x: usize, y: usize) -> (r: bool)
    requires
        m < 8,
        x <= 176,
        y <= 176,
    ensures
        r == spec_mask_bit(m as int, x as int, y as int),
{
    proof {
        assert(0 <= (x as int) * (y as int) <= 30976) by (nonlinear_arith)
            requires
                x <= 176,
                y <= 176,
        ;
    }
    let prod = x * y;
    if m == 0 {
        (x + y) % 2 == 0
    } else if m == 1 {
        x % 2 == 0
    } else if m == 2 {
        y % 3 == 0
    } else if m == 3 {
        (x + y) % 3 == 0
    } else if m == 4 {
        (x / 2 + y / 2) % 2 == 0
    } else if m == 5 {
        prod % 2 + prod % 3 == 0
    } else if m == 6 {
        (prod % 2 + prod % 3) % 2 == 0
    } else {
        ((x + y) % 2 + prod % 3) % 2 == 0
    }
}

/// Every alignment centre lies at least six modules from each edge.
pub proof fn lemma_alignment_locations_in_range(v: int)
    requires
        1 <= v <= 40,
    ensures
        forall|t: int|
            0 <= t < spec_alignment_locations(v).len() ==> 6 <= #[trigger] spec_alignment_locations(
                v,
            )[t] < spec_size(v) - 6,
{
}


impl Matrix {
    /// The grid with mask `m` applied to the data modules.
    fn apply_mask(&self, m: usize) -> (r: Matrix)
        requires
            spec_wf_grid(self@, self@.len() as int),
            21 <= self@.len() <= 177,
            m < 8,
        ensures
            r@ =~~= spec_apply_mask(self@, m as int),
            spec_wf_grid(r@, self@.len() as int),
    {
        let ghost g = self@;
        let ghost target = spec_apply_mask(g, m as int);
        let n = self.0.len();
        let mut rows: Vec<Vec<u8>> = Vec::new();
        let mut y: usize = 0;
        while y < n
            invariant
                y <= n,
                m < 8,
                21 <= n <= 177,
                g == self@,
                n == g.len(),
                spec_wf_grid(g, n as int),
                target == spec_apply_mask(g, m as int),
                rows@.len() == y,
                forall|t: int| 0 <= t < y ==> #[trigger] rows@[t]@ =~= target[t],
            decreases n - y,
        {
            let mut row: Vec<u8> = Vec::new();
            let mut x: usize = 0;
            while x < n
                invariant
                    x <= n,
                    y < n,
                    m < 8,
                    21 <= n <= 177,
                    g == self@,
                    n == g.len(),
                    spec_wf_grid(g, n as int),
                    target == spec_apply_mask(g, m as int),
                    row@ =~= target[y as int].take(x as int),
                decreases n - x,
            {
                let cur = self.get_module(y, x);
                let mb = mask_bit(m, x, y);
                let val = if cur == 0 && mb {
                    1
                } else if cur == 1 && mb {
                    0
                } else {
                    cur
                };
                row.push(val);
                x += 1;
                proof {
                    assert(row@ =~= target[y as int].take(x as int));
                }
            }
            proof {
                assert(target[y as int].take(n as int) =~= target[y as int]);
            }
            rows.push(row);
            y += 1;
        }
        let r = Matrix(rows);
        proof {
            assert forall|t: int| 0 <= t < n implies #[trigger] r@[t] =~= target[t] by {
                assert(r@[t] == rows@[t]@);
            }
            assert(r@ =~~= target);
        }
        r
    }

    /// Total penalty of the grid under mask `m`, scored on the
    /// rendered values.
    fn mask_penalty(&self, m: usize) -> (r: u32)
        requires
            spec_wf_grid(self@, self@.len() as int),
            21 <= self@.len() <= 177,
            m < 8,
        ensures
            r == spec_mask_penalty(self@, m as int),
    {
        let ghost g = self@;
        let ghost target = spec_normalize_grid(spec_apply_mask(g, m as int));
        let n = self.0.len();
        let mut norm: Vec<Vec<u8>> = Vec::new();
        let mut y: usize = 0;
        while y < n
            invariant
                y <= n,
                m < 8,
                21 <= n <= 177,
                g == self@,
                n == g.len(),
                spec_wf_grid(g, n as int),
                target == spec_normalize_grid(spec_apply_mask(g, m as int)),
                norm@.len() == y,
                forall|t: int| 0 <= t < y ==> #[trigger] norm@[t]@ =~= target[t],
            decreases n - y,
        {
            let mut row: Vec<u8> = Vec::new();
            let mut x: usize = 0;
            while x < n
                invariant
                    x <= n,
                    y < n,
                    m < 8,
                    21 <= n <= 177,
                    g == self@,
                    n == g.len(),
                    spec_wf_grid(g, n as int),
                    target == spec_normalize_grid(spec_apply_mask(g, m as int)),
                    row@ =~= target[y as int].take(x as int),
                decreases n - x,
            {
                let cur = self.get_module(y, x);
                let mb = mask_bit(m, x, y);
                let masked = if cur == 0 && mb {
                    1
                } else if cur == 1 && mb {
                    0
                } else {
                    cur
                };
                row.push(normalize_module(masked));
                x += 1;
                proof {
                    assert(row@ =~= target[y as int].take(x as int));
                }
            }
            proof {
                assert(target[y as int].take(n as int) =~= target[y as int]);
            }
            norm.push(row);
            y += 1;
        }
        proof {
            assert forall|t: int|
                0 <= t < n implies #[trigger] spec_grid_of(norm@)[t] =~= target[t] by {
                assert(spec_grid_of(norm@)[t] == norm@[t]@);
            }
            assert(spec_grid_of(norm@) =~~= target);
            assert(spec_wf_grid(spec_grid_of(norm@), n as int));
        }
        let p1 = Matrix::eval_condition_1(&norm);
        let p2 = Matrix::eval_condition_2(&norm);
        let p3 = Matrix::eval_condition_3(&norm);
        let p4 = Matrix::eval_condition_4(&norm);
        p1 + p2 + p3 + p4
    }

    /// Scores all eight masks on the placed grid and commits the one
    /// with the smallest penalty, ties broken by the lowest index.
    /// Returns the masked matrix and the chosen mask index.
    pub fn data_mask(&self) -> (r: (Matrix, u8))
        requires
            spec_wf_grid(self@, self@.len() as int),
            21 <= self@.len() <= 177,
        ensures
            (r.1 as int) == spec_best_mask(self@),
            r.1 < 8,
            r.0@ == spec_apply_mask(self@, r.1 as int),
            spec_wf_grid(r.0@, self@.len() as int),
    {
        let mut best_m: usize = 0;
        let mut best_p = self.mask_penalty(0);
        let mut m: usize = 1;
        while m < 8
            invariant
                1 <= m <= 8,
                best_m < m,
                spec_wf_grid(self@, self@.len() as int),
                21 <= self@.len() <= 177,
                best_m as int == spec_best_upto(self@, m - 1),
                best_p == spec_mask_penalty(self@, best_m as int),
            decreases 8 - m,
        {
            let p = self.mask_penalty(m);
            if p < best_p {
                best_m = m;
                best_p = p;
            }
            m += 1;
        }
        let masked = self.apply_mask(best_m);
        (masked, best_m as u8)
    }

    /// Builds the full symbol for a version from the final bit
    /// sequence, returning the grid and the committed mask index:
    /// function patterns, data placement, mask selection.
    pub fn build(data: &Vec<u8>, version: usize) -> (r: (Matrix, u8))
        requires
            1 <= version <= 40,
        ensures
            r.0@ == spec_symbol_grid(data@, version as int),
            spec_wf_grid(r.0@, spec_size(version as int)),
            r.1 < 8,
            r.1 as int == spec_best_mask(
                spec_place_data(spec_function_grid(version as int), data@),
            ),
    {
        let size = version * 4 + 17;
        let mut rows: Vec<Vec<u8>> = Vec::new();
        let mut r: usize = 0;
        while r < size
            invariant
                r <= size,
                21 <= size <= 177,
                rows@.len() == r,
                forall|t: int| 0 <= t < r ==> #[trigger] rows@[t]@ =~= spec_blank(size as int)[t],
            decreases size - r,
        {
            let mut row: Vec<u8> = Vec::new();
            let mut c: usize = 0;
            while c < size
                invariant
                    c <= size,
                    r < size,
                    21 <= size <= 177,
                    row@ =~= spec_blank(size as int)[r as int].take(c as int),
                decreases size - c,
            {
                row.push(5);
                c += 1;
                proof {
                    assert(row@ =~= spec_blank(size as int)[r as int].take(c as int));
                }
            }
            proof {
                assert(spec_blank(size as int)[r as int].take(size as int) =~= spec_blank(
                    size as int,
                )[r as int]);
            }
            rows.push(row);
            r += 1;
        }
        let mut matrix = Matrix(rows);
        proof {
            assert forall|t: int|
                0 <= t < size implies #[trigger] matrix@[t] =~= spec_blank(size as int)[t] by {
                assert(matrix@[t] == matrix.0@[t]@);
            }
            assert(matrix@ =~~= spec_blank(size as int));
            assert(spec_wf_grid(matrix@, size as int));
        }
        matrix.add_finder_patterns();
        matrix.add_separators();
        matrix.add_alignment_patterns(version);
        matrix.add_timing_patterns();
        matrix.add_dark_module_and_reserved_areas(version);
        proof {
            assert(matrix@ == spec_function_grid(version as int));
        }
        matrix.place_data(data);
        matrix.data_mask()
    }

    /// Builds the full symbol for a version from the final bit
    /// sequence.
    pub fn new(data: &Vec<u8>, version: usize) -> (m: Matrix)
        requires
            1 <= version <= 40,
        ensures
            m@ == spec_symbol_grid(data@, version as int),
            spec_wf_grid(m@, spec_size(version as int)),
    {
        let (matrix, _) = Matrix::build(data, version);
        matrix
    }

    /// The rendered grid for consumers: 1 for a dark module, 0 for a
    /// light one.
    pub fn as_matrix(&self) -> (r: Vec<Vec<u8>>)
        requires
            spec_wf_grid(self@, self@.len() as int),
            self@.len() <= 177,
        ensures
            spec_grid_of(r@) =~~= spec_normalize_grid(self@),
    {
        let ghost target = spec_normalize_grid(self@);
        let n = self.0.len();
        let mut rows: Vec<Vec<u8>> = Vec::new();
        let mut y: usize = 0;
        while y < n
            invariant
                y <= n,
                n <= 177,
                n == self@.len(),
                spec_wf_grid(self@, n as int),
                target == spec_normalize_grid(self@),
                rows@.len() == y,
                forall|t: int| 0 <= t < y ==> #[trigger] rows@[t]@ =~= target[t],
            decreases n - y,
        {
            let mut row: Vec<u8> = Vec::new();
            let mut x: usize = 0;
            while x < n
                invariant
                    x <= n,
                    y < n,
                    n <= 177,
                    n == self@.len(),
                    spec_wf_grid(self@, n as int),
                    target == spec_normalize_grid(self@),
                    row@ =~= target[y as int].take(x as int),
                decreases n - x,
            {
                row.push(normalize_module(self.get_module(y, x)));
                x += 1;
                proof {
                    assert(row@ =~= target[y as int].take(x as int));
                }
            }
            proof {
                assert(target[y as int].take(n as int) =~= target[y as int]);
            }
            rows.push(row);
            y += 1;
        }
        proof {
            assert forall|t: int|
                0 <= t < n implies #[trigger] spec_grid_of(rows@)[t] =~= target[t] by {
                assert(spec_grid_of(rows@)[t] == rows@[t]@);
            }
        }
        rows
    }
}

/// The Matrix Builder is a function of the version alone: building the
/// function and reserved module map twice gives byte-identical grids.
pub proof fn lemma_function_grid_deterministic(a: Seq<Seq<u8>>, b: Seq<Seq<u8>>, v: int)
    requires
        a == spec_function_grid(v),
        b == spec_function_grid(v),
    ensures
        a == b,
{
}

proof fn lemma_best_upto_props(g: Seq<Seq<u8>>, k: int)
    requires
        0 <= k <= 7,
    ensures
        0 <= spec_best_upto(g, k) <= k,
        forall|m: int|
            0 <= m <= k ==> spec_mask_penalty(g, spec_best_upto(g, k)) <= #[trigger] spec_mask_penalty(g, m),
        forall|m: int|
            0 <= m < spec_best_upto(g, k) ==> #[trigger] spec_mask_penalty(g, m)
                > spec_mask_penalty(g, spec_best_upto(g, k)),
    decreases k,
{
    if k > 0 {
        lemma_best_upto_props(g, k - 1);
    }
}

/// Mask selection is order-independent: for any pre-mask grid the
/// committed index is the unique minimum-penalty mask of the eight,
/// with ties broken by the lowest index, however the candidates are
/// scored or scheduled.
pub proof fn lemma_best_mask_minimal(g: Seq<Seq<u8>>)
    ensures
        0 <= spec_best_mask(g) < 8,
        forall|m: int|
            0 <= m < 8 ==> spec_mask_penalty(g, spec_best_mask(g)) <= #[trigger] spec_mask_penalty(g, m),
        forall|m: int|
            0 <= m < spec_best_mask(g) ==> #[trigger] spec_mask_penalty(g, m) > spec_mask_penalty(
                g,
                spec_best_mask(g),
            ),
{
    lemma_best_upto_props(g, 7);
}


} // verus!
