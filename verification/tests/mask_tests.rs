//! Mask selection: the committed mask is the minimum-penalty,
//! lowest-index candidate, independently recomputed, and the choice is
//! stable across repeated evaluation.

use qr_encoder::encoder::Encoder;
use qr_encoder::matrix::Matrix;

fn mask_hit(m: usize, x: usize, y: usize) -> bool {
    match m {
        0 => (x + y) % 2 == 0,
        1 => x % 2 == 0,
        2 => y % 3 == 0,
        3 => (x + y) % 3 == 0,
        4 => (x / 2 + y / 2) % 2 == 0,
        5 => (x * y) % 2 + (x * y) % 3 == 0,
        6 => ((x * y) % 2 + (x * y) % 3) % 2 == 0,
        _ => ((x + y) % 2 + (x * y) % 3) % 2 == 0,
    }
}

fn masked(grid: &Vec<Vec<u8>>, m: usize) -> Vec<Vec<u8>> {
    let n = grid.len();
    let mut out = grid.clone();
    for y in 0..n {
        for x in 0..n {
            if out[y][x] <= 1 && mask_hit(m, x, y) {
                out[y][x] = 1 - out[y][x];
            }
        }
    }
    out
}

fn normalized(grid: &Vec<Vec<u8>>) -> Vec<Vec<u8>> {
    grid.iter()
        .map(|row| row.iter().map(|&v| if v == 1 || v == 3 { 1 } else { 0 }).collect())
        .collect()
}

fn penalty(grid: &Vec<Vec<u8>>) -> u32 {
    let norm = normalized(grid);
    Matrix::eval_condition_1(&norm) + Matrix::eval_condition_2(&norm)
        + Matrix::eval_condition_3(&norm) + Matrix::eval_condition_4(&norm)
}

fn independent_best(grid: &Vec<Vec<u8>>) -> (usize, u32) {
    let mut best = 0;
    let mut best_p = penalty(&masked(grid, 0));
    for m in 1..8 {
        let p = penalty(&masked(grid, m));
        if p < best_p {
            best = m;
            best_p = p;
        }
    }
    (best, best_p)
}

#[test]
fn mask_choice_is_minimum_lowest_index() {
    let mut enc = Encoder::new().version(1).ec_level("M");
    enc.alphanumeric_encode(9, "HELLO WORLD");
    enc.decimal_data();
    enc.final_structure();
    enc.binary_data();

    let mut matrix = Matrix(vec![vec![5u8; 21]; 21]);
    matrix.add_finder_patterns();
    matrix.add_separators();
    matrix.add_alignment_patterns(1);
    matrix.add_timing_patterns();
    matrix.add_dark_module_and_reserved_areas(1);
    matrix.place_data(&enc.data);

    let (chosen_matrix, chosen) = matrix.data_mask();
    let (best, _best_p) = independent_best(&matrix.0);
    assert_eq!(chosen as usize, best);
    assert_eq!(chosen_matrix.0, masked(&matrix.0, best));
}

#[test]
fn mask_choice_favours_pattern_free_grid() {
    // A pure data grid packed with 1:1:3:1:1 runs: rule 3 dominates and
    // the selector must pick whichever mask clears it best.
    let mut rows: Vec<Vec<u8>> = Vec::new();
    for _y in 0..21 {
        let mut row: Vec<u8> = Vec::new();
        for x in 0..21 {
            let pat = [1u8, 0, 1, 1, 1, 0, 1, 0, 0, 0, 0];
            row.push(pat[x % 11]);
        }
        rows.push(row);
    }
    let matrix = Matrix(rows);
    let (chosen_matrix, chosen) = matrix.data_mask();
    let (best, best_p) = independent_best(&matrix.0);
    assert_eq!(chosen as usize, best);
    assert!(penalty(&chosen_matrix.0) == best_p);
    for m in 0..8 {
        assert!(best_p <= penalty(&masked(&matrix.0, m)));
    }
}

#[test]
fn mask_choice_is_deterministic() {
    let mut enc = Encoder::new().version(1).ec_level("M");
    enc.alphanumeric_encode(9, "HELLO WORLD");
    enc.decimal_data();
    enc.final_structure();
    enc.binary_data();

    let mut matrix = Matrix(vec![vec![5u8; 21]; 21]);
    matrix.add_finder_patterns();
    matrix.add_separators();
    matrix.add_alignment_patterns(1);
    matrix.add_timing_patterns();
    matrix.add_dark_module_and_reserved_areas(1);
    matrix.place_data(&enc.data);

    let (m1, c1) = matrix.data_mask();
    let (m2, c2) = matrix.data_mask();
    assert_eq!(c1, c2);
    assert_eq!(m1.0, m2.0);
}

#[test]
fn mask_five_wins_under_pattern_penalty() {
    // A pre-mask grid where masks 0 and 1 leave many 1:1:3:1:1 runs
    // (rule 3) while mask 5 leaves none and the smallest total
    // penalty: the selector must commit mask 5.
    let rows = vec![
        vec![0, 0, 0, 1, 0, 0, 0, 0, 1, 0, 1, 0, 1, 0, 1, 0, 1, 0, 1, 0, 1],
        vec![0, 0, 1, 0, 1, 0, 0, 0, 1, 0, 1, 0, 0, 0, 1, 0, 1, 0, 0, 0, 1],
        vec![1, 1, 0, 0, 0, 1, 1, 1, 0, 0, 0, 0, 0, 1, 0, 0, 0, 0, 1, 0, 1],
        vec![0, 0, 0, 0, 0, 0, 0, 0, 0, 0, 0, 0, 0, 0, 0, 0, 0, 0, 0, 0, 0],
        vec![0, 0, 0, 1, 0, 0, 0, 0, 1, 0, 1, 1, 1, 1, 0, 0, 0, 1, 1, 1, 0],
        vec![0, 0, 1, 0, 1, 0, 0, 0, 1, 0, 1, 0, 0, 0, 1, 0, 1, 0, 0, 0, 1],
        vec![1, 0, 1, 0, 1, 0, 1, 0, 1, 0, 1, 0, 1, 0, 1, 0, 1, 0, 1, 0, 1],
        vec![0, 0, 1, 0, 1, 0, 0, 0, 1, 0, 1, 0, 0, 0, 1, 0, 1, 0, 0, 0, 1],
        vec![1, 1, 0, 0, 0, 1, 1, 1, 0, 0, 0, 1, 1, 1, 0, 0, 0, 1, 1, 1, 0],
        vec![0, 0, 0, 0, 0, 0, 0, 0, 0, 0, 0, 0, 0, 0, 0, 0, 0, 0, 0, 0, 0],
        vec![0, 0, 0, 1, 0, 0, 0, 0, 1, 0, 1, 1, 1, 1, 0, 0, 0, 1, 1, 1, 0],
        vec![0, 0, 1, 0, 1, 0, 0, 0, 1, 0, 1, 0, 0, 0, 1, 0, 1, 0, 0, 0, 1],
        vec![1, 0, 1, 0, 1, 0, 1, 0, 1, 0, 0, 0, 0, 1, 0, 0, 0, 0, 1, 0, 1],
        vec![0, 0, 1, 0, 1, 0, 0, 0, 1, 0, 1, 0, 0, 0, 1, 0, 1, 0, 0, 0, 1],
        vec![0, 0, 0, 1, 0, 0, 0, 0, 1, 0, 1, 1, 1, 1, 0, 0, 0, 1, 1, 1, 0],
        vec![0, 0, 0, 0, 0, 0, 0, 0, 0, 0, 0, 0, 0, 0, 0, 0, 0, 0, 0, 0, 0],
        vec![1, 1, 0, 0, 0, 1, 1, 1, 0, 0, 0, 1, 1, 1, 0, 0, 0, 1, 1, 1, 0],
        vec![0, 0, 1, 0, 1, 0, 0, 0, 1, 0, 1, 0, 0, 0, 1, 0, 1, 0, 0, 0, 1],
        vec![1, 0, 1, 0, 1, 0, 1, 0, 1, 0, 1, 0, 1, 0, 1, 0, 1, 0, 1, 0, 1],
        vec![0, 0, 1, 0, 1, 0, 0, 0, 1, 0, 1, 0, 0, 0, 1, 0, 1, 0, 0, 0, 1],
        vec![1, 1, 0, 0, 0, 1, 1, 1, 0, 0, 0, 1, 1, 1, 0, 0, 0, 1, 1, 1, 0],
    ];
    let matrix = Matrix(rows);
    let (_, chosen) = matrix.data_mask();

    let r3 = |m: usize| Matrix::eval_condition_3(&normalized(&masked(&matrix.0, m)));
    assert!(r3(0) >= 240 && r3(1) >= 240);
    assert_eq!(r3(5), 0);
    let (best, best_p) = independent_best(&matrix.0);
    assert_eq!(best, 5);
    assert_eq!(chosen, 5);
    for m in 0..8 {
        if m != 5 {
            assert!(penalty(&masked(&matrix.0, m)) > best_p);
        }
    }
}
