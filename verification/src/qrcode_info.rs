//! Symbol tables for the QR Code format: codeword capacities,
//! error-correction block structure, character-count indicator widths,
//! alignment-pattern locations, remainder bits, and the alphanumeric
//! character code table.

use vstd::prelude::*;

verus! {

pub open spec fn spec_capacity_row(v: int) -> (int, int, int, int) {
    if v == 1 {
        (19, 16, 13, 9)
    } else if v == 2 {
        (34, 28, 22, 16)
    } else if v == 3 {
        (55, 44, 34, 26)
    } else if v == 4 {
        (80, 64, 48, 36)
    } else if v == 5 {
        (108, 86, 62, 46)
    } else if v == 6 {
        (136, 108, 76, 60)
    } else if v == 7 {
        (156, 124, 88, 66)
    } else if v == 8 {
        (194, 154, 110, 86)
    } else if v == 9 {
        (232, 182, 132, 100)
    } else if v == 10 {
        (274, 216, 154, 122)
    } else if v == 11 {
        (324, 254, 180, 140)
    } else if v == 12 {
        (370, 290, 206, 158)
    } else if v == 13 {
        (428, 334, 244, 180)
    } else if v == 14 {
        (461, 365, 261, 197)
    } else if v == 15 {
        (523, 415, 295, 223)
    } else if v == 16 {
        (589, 453, 325, 253)
    } else if v == 17 {
        (647, 507, 367, 283)
    } else if v == 18 {
        (721, 563, 397, 313)
    } else if v == 19 {
        (795, 627, 445, 341)
    } else if v == 20 {
        (861, 669, 485, 385)
    } else if v == 21 {
        (932, 714, 512, 406)
    } else if v == 22 {
        (1006, 782, 568, 442)
    } else if v == 23 {
        (1094, 860, 614, 464)
    } else if v == 24 {
        (1174, 914, 664, 514)
    } else if v == 25 {
        (1276, 1000, 718, 538)
    } else if v == 26 {
        (1370, 1062, 754, 596)
    } else if v == 27 {
        (1468, 1128, 808, 628)
    } else if v == 28 {
        (1531, 1193, 871, 661)
    } else if v == 29 {
        (1631, 1267, 911, 701)
    } else if v == 30 {
        (1735, 1373, 985, 745)
    } else if v == 31 {
        (1843, 1455, 1033, 793)
    } else if v == 32 {
        (1955, 1541, 1115, 845)
    } else if v == 33 {
        (2071, 1631, 1171, 901)
    } else if v == 34 {
        (2191, 1725, 1231, 961)
    } else if v == 35 {
        (2306, 1812, 1286, 986)
    } else if v == 36 {
        (2434, 1914, 1354, 1054)
    } else if v == 37 {
        (2566, 1992, 1426, 1096)
    } else if v == 38 {
        (2702, 2102, 1502, 1142)
    } else if v == 39 {
        (2812, 2216, 1582, 1222)
    } else if v == 40 {
        (2956, 2334, 1666, 1276)
    } else {
        (0, 0, 0, 0)
    }
}

/// Number of data codewords for a version (1..=40) and error-correction
/// level (0 = L, 1 = M, 2 = Q, 3 = H).
pub open spec fn spec_capacity(v: int, e: int) -> int {
    let row = spec_capacity_row(v);
    if e == 0 { row.0 } else if e == 1 { row.1 } else if e == 2 { row.2 } else { row.3 }
}

/// Data capacity in bits.
pub open spec fn spec_capacity_bits(v: int, e: int) -> int {
    8 * spec_capacity(v, e)
}

fn capacity_row(version: usize) -> (r: (u16, u16, u16, u16))
    requires
        1 <= version <= 40,
    ensures
        r.0 == spec_capacity_row(version as int).0,
        r.1 == spec_capacity_row(version as int).1,
        r.2 == spec_capacity_row(version as int).2,
        r.3 == spec_capacity_row(version as int).3,
{
    match version {
        1 => (19, 16, 13, 9),
        2 => (34, 28, 22, 16),
        3 => (55, 44, 34, 26),
        4 => (80, 64, 48, 36),
        5 => (108, 86, 62, 46),
        6 => (136, 108, 76, 60),
        7 => (156, 124, 88, 66),
        8 => (194, 154, 110, 86),
        9 => (232, 182, 132, 100),
        10 => (274, 216, 154, 122),
        11 => (324, 254, 180, 140),
        12 => (370, 290, 206, 158),
        13 => (428, 334, 244, 180),
        14 => (461, 365, 261, 197),
        15 => (523, 415, 295, 223),
        16 => (589, 453, 325, 253),
        17 => (647, 507, 367, 283),
        18 => (721, 563, 397, 313),
        19 => (795, 627, 445, 341),
        20 => (861, 669, 485, 385),
        21 => (932, 714, 512, 406),
        22 => (1006, 782, 568, 442),
        23 => (1094, 860, 614, 464),
        24 => (1174, 914, 664, 514),
        25 => (1276, 1000, 718, 538),
        26 => (1370, 1062, 754, 596),
        27 => (1468, 1128, 808, 628),
        28 => (1531, 1193, 871, 661),
        29 => (1631, 1267, 911, 701),
        30 => (1735, 1373, 985, 745),
        31 => (1843, 1455, 1033, 793),
        32 => (1955, 1541, 1115, 845),
        33 => (2071, 1631, 1171, 901),
        34 => (2191, 1725, 1231, 961),
        35 => (2306, 1812, 1286, 986),
        36 => (2434, 1914, 1354, 1054),
        37 => (2566, 1992, 1426, 1096),
        38 => (2702, 2102, 1502, 1142),
        39 => (2812, 2216, 1582, 1222),
        40 => (2956, 2334, 1666, 1276),
        _ => (0, 0, 0, 0),
    }
}

/// Number of data codewords for this version and error-correction level.
pub fn capacity(version: usize, ec_level: usize) -> (r: u16)
    requires
        1 <= version <= 40,
        ec_level < 4,
    ensures
        r == spec_capacity(version as int, ec_level as int),
        9 <= r <= 2956,
{
    let row = capacity_row(version);
    if ec_level == 0 { row.0 } else if ec_level == 1 { row.1 } else if ec_level == 2 { row.2 } else { row.3 }
}

pub open spec fn spec_ec_per_block_row(v: int) -> (int, int, int, int) {
    if v == 1 {
        (7, 10, 13, 17)
    } else if v == 2 {
        (10, 16, 22, 28)
    } else if v == 3 {
        (15, 26, 18, 22)
    } else if v == 4 {
        (20, 18, 26, 16)
    } else if v == 5 {
        (26, 24, 18, 22)
    } else if v == 6 {
        (18, 16, 24, 28)
    } else if v == 7 {
        (20, 18, 18, 26)
    } else if v == 8 {
        (24, 22, 22, 26)
    } else if v == 9 {
        (30, 22, 20, 24)
    } else if v == 10 {
        (18, 26, 24, 28)
    } else if v == 11 {
        (20, 30, 28, 24)
    } else if v == 12 {
        (24, 22, 26, 28)
    } else if v == 13 {
        (26, 22, 24, 22)
    } else if v == 14 {
        (30, 24, 20, 24)
    } else if v == 15 {
        (22, 24, 30, 24)
    } else if v == 16 {
        (24, 28, 24, 30)
    } else if v == 17 {
        (28, 28, 28, 28)
    } else if v == 18 {
        (30, 26, 28, 28)
    } else if v == 19 {
        (28, 26, 26, 26)
    } else if v == 20 {
        (28, 26, 30, 28)
    } else if v == 21 {
        (28, 26, 28, 30)
    } else if v == 22 {
        (28, 28, 30, 24)
    } else if v == 23 {
        (30, 28, 30, 30)
    } else if v == 24 {
        (30, 28, 30, 30)
    } else if v == 25 {
        (26, 28, 30, 30)
    } else if v == 26 {
        (28, 28, 28, 30)
    } else if v == 27 {
        (30, 28, 30, 30)
    } else if v == 28 {
        (30, 28, 30, 30)
    } else if v == 29 {
        (30, 28, 30, 30)
    } else if v == 30 {
        (30, 28, 30, 30)
    } else if v == 31 {
        (30, 28, 30, 30)
    } else if v == 32 {
        (30, 28, 30, 30)
    } else if v == 33 {
        (30, 28, 30, 30)
    } else if v == 34 {
        (30, 28, 30, 30)
    } else if v == 35 {
        (30, 28, 30, 30)
    } else if v == 36 {
        (30, 28, 30, 30)
    } else if v == 37 {
        (30, 28, 30, 30)
    } else if v == 38 {
        (30, 28, 30, 30)
    } else if v == 39 {
        (30, 28, 30, 30)
    } else if v == 40 {
        (30, 28, 30, 30)
    } else {
        (0, 0, 0, 0)
    }
}

/// Number of error-correction codewords per block.
pub open spec fn spec_ec_per_block(v: int, e: int) -> int {
    let row = spec_ec_per_block_row(v);
    if e == 0 { row.0 } else if e == 1 { row.1 } else if e == 2 { row.2 } else { row.3 }
}

fn ec_per_block_row(version: usize) -> (r: (u8, u8, u8, u8))
    requires
        1 <= version <= 40,
    ensures
        r.0 == spec_ec_per_block_row(version as int).0,
        r.1 == spec_ec_per_block_row(version as int).1,
        r.2 == spec_ec_per_block_row(version as int).2,
        r.3 == spec_ec_per_block_row(version as int).3,
{
    match version {
        1 => (7, 10, 13, 17),
        2 => (10, 16, 22, 28),
        3 => (15, 26, 18, 22),
        4 => (20, 18, 26, 16),
        5 => (26, 24, 18, 22),
        6 => (18, 16, 24, 28),
        7 => (20, 18, 18, 26),
        8 => (24, 22, 22, 26),
        9 => (30, 22, 20, 24),
        10 => (18, 26, 24, 28),
        11 => (20, 30, 28, 24),
        12 => (24, 22, 26, 28),
        13 => (26, 22, 24, 22),
        14 => (30, 24, 20, 24),
        15 => (22, 24, 30, 24),
        16 => (24, 28, 24, 30),
        17 => (28, 28, 28, 28),
        18 => (30, 26, 28, 28),
        19 => (28, 26, 26, 26),
        20 => (28, 26, 30, 28),
        21 => (28, 26, 28, 30),
        22 => (28, 28, 30, 24),
        23 => (30, 28, 30, 30),
        24 => (30, 28, 30, 30),
        25 => (26, 28, 30, 30),
        26 => (28, 28, 28, 30),
        27 => (30, 28, 30, 30),
        28 => (30, 28, 30, 30),
        29 => (30, 28, 30, 30),
        30 => (30, 28, 30, 30),
        31 => (30, 28, 30, 30),
        32 => (30, 28, 30, 30),
        33 => (30, 28, 30, 30),
        34 => (30, 28, 30, 30),
        35 => (30, 28, 30, 30),
        36 => (30, 28, 30, 30),
        37 => (30, 28, 30, 30),
        38 => (30, 28, 30, 30),
        39 => (30, 28, 30, 30),
        40 => (30, 28, 30, 30),
        _ => (0, 0, 0, 0),
    }
}

/// Error-correction codewords per block for this version and level; the
/// count is the same for every block of the symbol.
pub fn ec_per_block(version: usize, ec_level: usize) -> (r: u8)
    requires
        1 <= version <= 40,
        ec_level < 4,
    ensures
        r == spec_ec_per_block(version as int, ec_level as int),
        7 <= r <= 30,
{
    let row = ec_per_block_row(version);
    if ec_level == 0 { row.0 } else if ec_level == 1 { row.1 } else if ec_level == 2 { row.2 } else { row.3 }
}

pub open spec fn spec_num_blocks_row(v: int) -> (int, int, int, int) {
    if v == 1 {
        (1, 1, 1, 1)
    } else if v == 2 {
        (1, 1, 1, 1)
    } else if v == 3 {
        (1, 1, 2, 2)
    } else if v == 4 {
        (1, 2, 2, 4)
    } else if v == 5 {
        (1, 2, 4, 4)
    } else if v == 6 {
        (2, 4, 4, 4)
    } else if v == 7 {
        (2, 4, 6, 5)
    } else if v == 8 {
        (2, 4, 6, 6)
    } else if v == 9 {
        (2, 5, 8, 8)
    } else if v == 10 {
        (4, 5, 8, 8)
    } else if v == 11 {
        (4, 5, 8, 11)
    } else if v == 12 {
        (4, 8, 10, 11)
    } else if v == 13 {
        (4, 9, 12, 16)
    } else if v == 14 {
        (4, 9, 16, 16)
    } else if v == 15 {
        (6, 10, 12, 18)
    } else if v == 16 {
        (6, 10, 17, 16)
    } else if v == 17 {
        (6, 11, 16, 19)
    } else if v == 18 {
        (6, 13, 18, 21)
    } else if v == 19 {
        (7, 14, 21, 25)
    } else if v == 20 {
        (8, 16, 20, 25)
    } else if v == 21 {
        (8, 17, 23, 25)
    } else if v == 22 {
        (9, 17, 23, 34)
    } else if v == 23 {
        (9, 18, 25, 30)
    } else if v == 24 {
        (10, 20, 27, 32)
    } else if v == 25 {
        (12, 21, 29, 35)
    } else if v == 26 {
        (12, 23, 34, 37)
    } else if v == 27 {
        (12, 25, 34, 40)
    } else if v == 28 {
        (13, 26, 35, 42)
    } else if v == 29 {
        (14, 28, 38, 45)
    } else if v == 30 {
        (15, 29, 40, 48)
    } else if v == 31 {
        (16, 31, 43, 51)
    } else if v == 32 {
        (17, 33, 45, 54)
    } else if v == 33 {
        (18, 35, 48, 57)
    } else if v == 34 {
        (19, 37, 51, 60)
    } else if v == 35 {
        (19, 38, 53, 63)
    } else if v == 36 {
        (20, 40, 56, 66)
    } else if v == 37 {
        (21, 43, 59, 70)
    } else if v == 38 {
        (22, 45, 62, 74)
    } else if v == 39 {
        (24, 47, 65, 77)
    } else if v == 40 {
        (25, 49, 68, 81)
    } else {
        (0, 0, 0, 0)
    }
}

/// Total number of Reed-Solomon blocks (both groups together).
pub open spec fn spec_num_blocks(v: int, e: int) -> int {
    let row = spec_num_blocks_row(v);
    if e == 0 { row.0 } else if e == 1 { row.1 } else if e == 2 { row.2 } else { row.3 }
}

fn num_blocks_row(version: usize) -> (r: (u8, u8, u8, u8))
    requires
        1 <= version <= 40,
    ensures
        r.0 == spec_num_blocks_row(version as int).0,
        r.1 == spec_num_blocks_row(version as int).1,
        r.2 == spec_num_blocks_row(version as int).2,
        r.3 == spec_num_blocks_row(version as int).3,
{
    match version {
        1 => (1, 1, 1, 1),
        2 => (1, 1, 1, 1),
        3 => (1, 1, 2, 2),
        4 => (1, 2, 2, 4),
        5 => (1, 2, 4, 4),
        6 => (2, 4, 4, 4),
        7 => (2, 4, 6, 5),
        8 => (2, 4, 6, 6),
        9 => (2, 5, 8, 8),
        10 => (4, 5, 8, 8),
        11 => (4, 5, 8, 11),
        12 => (4, 8, 10, 11),
        13 => (4, 9, 12, 16),
        14 => (4, 9, 16, 16),
        15 => (6, 10, 12, 18),
        16 => (6, 10, 17, 16),
        17 => (6, 11, 16, 19),
        18 => (6, 13, 18, 21),
        19 => (7, 14, 21, 25),
        20 => (8, 16, 20, 25),
        21 => (8, 17, 23, 25),
        22 => (9, 17, 23, 34),
        23 => (9, 18, 25, 30),
        24 => (10, 20, 27, 32),
        25 => (12, 21, 29, 35),
        26 => (12, 23, 34, 37),
        27 => (12, 25, 34, 40),
        28 => (13, 26, 35, 42),
        29 => (14, 28, 38, 45),
        30 => (15, 29, 40, 48),
        31 => (16, 31, 43, 51),
        32 => (17, 33, 45, 54),
        33 => (18, 35, 48, 57),
        34 => (19, 37, 51, 60),
        35 => (19, 38, 53, 63),
        36 => (20, 40, 56, 66),
        37 => (21, 43, 59, 70),
        38 => (22, 45, 62, 74),
        39 => (24, 47, 65, 77),
        40 => (25, 49, 68, 81),
        _ => (0, 0, 0, 0),
    }
}

/// Total number of Reed-Solomon blocks for this version and level.
pub fn num_blocks(version: usize, ec_level: usize) -> (r: u8)
    requires
        1 <= version <= 40,
        ec_level < 4,
    ensures
        r == spec_num_blocks(version as int, ec_level as int),
        1 <= r <= 81,
        r <= spec_capacity(version as int, ec_level as int),
{
    let row = num_blocks_row(version);
    if ec_level == 0 { row.0 } else if ec_level == 1 { row.1 } else if ec_level == 2 { row.2 } else { row.3 }
}


/// Centre coordinates of the alignment patterns for a version; empty for
/// version 1, which has none.
pub open spec fn spec_alignment_locations(v: int) -> Seq<u8> {
    if v == 2 {
        seq![6u8, 18u8]
    } else if v == 3 {
        seq![6u8, 22u8]
    } else if v == 4 {
        seq![6u8, 26u8]
    } else if v == 5 {
        seq![6u8, 30u8]
    } else if v == 6 {
        seq![6u8, 34u8]
    } else if v == 7 {
        seq![6u8, 22u8, 38u8]
    } else if v == 8 {
        seq![6u8, 24u8, 42u8]
    } else if v == 9 {
        seq![6u8, 26u8, 46u8]
    } else if v == 10 {
        seq![6u8, 28u8, 50u8]
    } else if v == 11 {
        seq![6u8, 30u8, 54u8]
    } else if v == 12 {
        seq![6u8, 32u8, 58u8]
    } else if v == 13 {
        seq![6u8, 34u8, 62u8]
    } else if v == 14 {
        seq![6u8, 26u8, 46u8, 66u8]
    } else if v == 15 {
        seq![6u8, 26u8, 48u8, 70u8]
    } else if v == 16 {
        seq![6u8, 26u8, 50u8, 74u8]
    } else if v == 17 {
        seq![6u8, 30u8, 54u8, 78u8]
    } else if v == 18 {
        seq![6u8, 30u8, 56u8, 82u8]
    } else if v == 19 {
        seq![6u8, 30u8, 58u8, 86u8]
    } else if v == 20 {
        seq![6u8, 34u8, 62u8, 90u8]
    } else if v == 21 {
        seq![6u8, 28u8, 50u8, 72u8, 94u8]
    } else if v == 22 {
        seq![6u8, 26u8, 50u8, 74u8, 98u8]
    } else if v == 23 {
        seq![6u8, 30u8, 54u8, 78u8, 102u8]
    } else if v == 24 {
        seq![6u8, 28u8, 54u8, 80u8, 106u8]
    } else if v == 25 {
        seq![6u8, 32u8, 58u8, 84u8, 110u8]
    } else if v == 26 {
        seq![6u8, 30u8, 58u8, 86u8, 114u8]
    } else if v == 27 {
        seq![6u8, 34u8, 62u8, 90u8, 118u8]
    } else if v == 28 {
        seq![6u8, 26u8, 50u8, 74u8, 98u8, 122u8]
    } else if v == 29 {
        seq![6u8, 30u8, 54u8, 78u8, 102u8, 126u8]
    } else if v == 30 {
        seq![6u8, 26u8, 52u8, 78u8, 104u8, 130u8]
    } else if v == 31 {
        seq![6u8, 30u8, 56u8, 82u8, 108u8, 134u8]
    } else if v == 32 {
        seq![6u8, 34u8, 60u8, 86u8, 112u8, 138u8]
    } else if v == 33 {
        seq![6u8, 30u8, 58u8, 86u8, 114u8, 142u8]
    } else if v == 34 {
        seq![6u8, 34u8, 62u8, 90u8, 118u8, 146u8]
    } else if v == 35 {
        seq![6u8, 30u8, 54u8, 78u8, 102u8, 126u8, 150u8]
    } else if v == 36 {
        seq![6u8, 24u8, 50u8, 76u8, 102u8, 128u8, 154u8]
    } else if v == 37 {
        seq![6u8, 28u8, 54u8, 80u8, 106u8, 132u8, 158u8]
    } else if v == 38 {
        seq![6u8, 32u8, 58u8, 84u8, 110u8, 136u8, 162u8]
    } else if v == 39 {
        seq![6u8, 26u8, 54u8, 82u8, 110u8, 138u8, 166u8]
    } else if v == 40 {
        seq![6u8, 30u8, 58u8, 86u8, 114u8, 142u8, 170u8]
    } else {
        Seq::empty()
    }
}

/// Centre coordinates of the alignment patterns for this version.
pub fn alignment_locations(version: usize) -> (r: Vec<u8>)
    requires
        1 <= version <= 40,
    ensures
        r@ =~= spec_alignment_locations(version as int),
{
    let mut r: Vec<u8> = Vec::new();
    match version {
        2 => { r.push(6); r.push(18); }
        3 => { r.push(6); r.push(22); }
        4 => { r.push(6); r.push(26); }
        5 => { r.push(6); r.push(30); }
        6 => { r.push(6); r.push(34); }
        7 => { r.push(6); r.push(22); r.push(38); }
        8 => { r.push(6); r.push(24); r.push(42); }
        9 => { r.push(6); r.push(26); r.push(46); }
        10 => { r.push(6); r.push(28); r.push(50); }
        11 => { r.push(6); r.push(30); r.push(54); }
        12 => { r.push(6); r.push(32); r.push(58); }
        13 => { r.push(6); r.push(34); r.push(62); }
        14 => { r.push(6); r.push(26); r.push(46); r.push(66); }
        15 => { r.push(6); r.push(26); r.push(48); r.push(70); }
        16 => { r.push(6); r.push(26); r.push(50); r.push(74); }
        17 => { r.push(6); r.push(30); r.push(54); r.push(78); }
        18 => { r.push(6); r.push(30); r.push(56); r.push(82); }
        19 => { r.push(6); r.push(30); r.push(58); r.push(86); }
        20 => { r.push(6); r.push(34); r.push(62); r.push(90); }
        21 => { r.push(6); r.push(28); r.push(50); r.push(72); r.push(94); }
        22 => { r.push(6); r.push(26); r.push(50); r.push(74); r.push(98); }
        23 => { r.push(6); r.push(30); r.push(54); r.push(78); r.push(102); }
        24 => { r.push(6); r.push(28); r.push(54); r.push(80); r.push(106); }
        25 => { r.push(6); r.push(32); r.push(58); r.push(84); r.push(110); }
        26 => { r.push(6); r.push(30); r.push(58); r.push(86); r.push(114); }
        27 => { r.push(6); r.push(34); r.push(62); r.push(90); r.push(118); }
        28 => { r.push(6); r.push(26); r.push(50); r.push(74); r.push(98); r.push(122); }
        29 => { r.push(6); r.push(30); r.push(54); r.push(78); r.push(102); r.push(126); }
        30 => { r.push(6); r.push(26); r.push(52); r.push(78); r.push(104); r.push(130); }
        31 => { r.push(6); r.push(30); r.push(56); r.push(82); r.push(108); r.push(134); }
        32 => { r.push(6); r.push(34); r.push(60); r.push(86); r.push(112); r.push(138); }
        33 => { r.push(6); r.push(30); r.push(58); r.push(86); r.push(114); r.push(142); }
        34 => { r.push(6); r.push(34); r.push(62); r.push(90); r.push(118); r.push(146); }
        35 => { r.push(6); r.push(30); r.push(54); r.push(78); r.push(102); r.push(126); r.push(150); }
        36 => { r.push(6); r.push(24); r.push(50); r.push(76); r.push(102); r.push(128); r.push(154); }
        37 => { r.push(6); r.push(28); r.push(54); r.push(80); r.push(106); r.push(132); r.push(158); }
        38 => { r.push(6); r.push(32); r.push(58); r.push(84); r.push(110); r.push(136); r.push(162); }
        39 => { r.push(6); r.push(26); r.push(54); r.push(82); r.push(110); r.push(138); r.push(166); }
        40 => { r.push(6); r.push(30); r.push(58); r.push(86); r.push(114); r.push(142); r.push(170); }
        _ => {}
    }
    r
}

/// Number of zero remainder bits that follow the final codeword.
pub open spec fn spec_remainder_bits(v: int) -> int {
    if v == 1 {
        0
    } else if v <= 6 {
        7
    } else if v <= 13 {
        0
    } else if v <= 20 {
        3
    } else if v <= 27 {
        4
    } else if v <= 34 {
        3
    } else {
        0
    }
}

/// Number of zero remainder bits appended after the final codeword.
pub fn remainder_bits(version: usize) -> (r: usize)
    requires
        1 <= version <= 40,
    ensures
        r == spec_remainder_bits(version as int),
        r <= 7,
{
    if version == 1 {
        0
    } else if version <= 6 {
        7
    } else if version <= 13 {
        0
    } else if version <= 20 {
        3
    } else if version <= 27 {
        4
    } else if version <= 34 {
        3
    } else {
        0
    }
}

/// Width in bits of the character-count indicator, by version size class
/// (1-9, 10-26, 27-40) and mode index (0 = Numeric, 1 = Alphanumeric,
/// 2 = Byte, 3 = Kanji).
pub open spec fn spec_indicator_bits(v: int, m: int) -> int {
    let row = if v <= 9 {
        (10int, 9int, 8int, 8int)
    } else if v <= 26 {
        (12int, 11int, 16int, 10int)
    } else {
        (14int, 13int, 16int, 12int)
    };
    if m == 0 { row.0 } else if m == 1 { row.1 } else if m == 2 { row.2 } else { row.3 }
}

/// Width in bits of the character-count indicator.
pub fn indicator_bits(version: usize, mode_index: usize) -> (r: usize)
    requires
        1 <= version <= 40,
        mode_index < 4,
    ensures
        r == spec_indicator_bits(version as int, mode_index as int),
        8 <= r <= 16,
{
    let row: (usize, usize, usize, usize) = if version <= 9 {
        (10, 9, 8, 8)
    } else if version <= 26 {
        (12, 11, 16, 10)
    } else {
        (14, 13, 16, 12)
    };
    if mode_index == 0 { row.0 } else if mode_index == 1 { row.1 } else if mode_index == 2 { row.2 } else { row.3 }
}

/// The bytes admitted by the 45-character alphanumeric code table:
/// digits, upper-case letters, space, and $ % * + - . / :
pub open spec fn is_alphanumeric_byte(b: u8) -> bool {
    (48 <= b <= 57) || (65 <= b <= 90) || b == 32 || b == 36 || b == 37 || b == 42 || b == 43
        || b == 45 || b == 46 || b == 47 || b == 58
}

/// Code value (0..=44) of an alphanumeric-table byte.
pub open spec fn spec_alphanumeric_value(b: u8) -> int {
    if 48 <= b <= 57 {
        b - 48
    } else if 65 <= b <= 90 {
        b - 55
    } else if b == 32 {
        36
    } else if b == 36 {
        37
    } else if b == 37 {
        38
    } else if b == 42 {
        39
    } else if b == 43 {
        40
    } else if b == 45 {
        41
    } else if b == 46 {
        42
    } else if b == 47 {
        43
    } else {
        44
    }
}

/// Code value of a byte under the 45-character alphanumeric table.
pub fn alphanumeric_table(b: u8) -> (r: u16)
    requires
        is_alphanumeric_byte(b),
    ensures
        r == spec_alphanumeric_value(b),
        r < 45,
{
    if 48 <= b && b <= 57 {
        (b - 48) as u16
    } else if 65 <= b && b <= 90 {
        (b - 55) as u16
    } else if b == 32 {
        36
    } else if b == 36 {
        37
    } else if b == 37 {
        38
    } else if b == 42 {
        39
    } else if b == 43 {
        40
    } else if b == 45 {
        41
    } else if b == 46 {
        42
    } else if b == 47 {
        43
    } else {
        44
    }
}

/// Total codewords (data plus error correction) of a version; the same
/// for every error-correction level of that version.
pub open spec fn spec_total_codewords(v: int) -> int {
    spec_capacity(v, 0) + spec_num_blocks(v, 0) * spec_ec_per_block(v, 0)
}


/// Ranges of the table entries, for every version and level.
pub proof fn lemma_table_bounds(v: int, e: int)
    requires
        1 <= v <= 40,
        0 <= e < 4,
    ensures
        9 <= spec_capacity(v, e) <= 2956,
        7 <= spec_ec_per_block(v, e) <= 30,
        1 <= spec_num_blocks(v, e) <= 81,
        spec_num_blocks(v, e) <= spec_capacity(v, e),
{
}

/// Data capacity by version size class: versions 1-9, 10-26, 27-40.
pub proof fn lemma_capacity_class_bounds(v: int, e: int)
    requires
        1 <= v <= 40,
        0 <= e < 4,
    ensures
        v <= 9 ==> spec_capacity(v, e) <= 232,
        v <= 26 ==> spec_capacity(v, e) <= 1370,
        spec_capacity(v, e) <= 2956,
{
}

} // verus!
