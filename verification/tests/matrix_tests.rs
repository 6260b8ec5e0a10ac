//! The matrix builder and mask evaluation, rendered and compared
//! stage by stage.

use qr_encoder::matrix::Matrix;

#[test]
fn test_add_finder_patterns() {
    let mut matrix = Matrix({
        let mut matrix = vec![];
        let mut row = vec![];

        row.resize(21, 5);
        matrix.resize(21, row);

        matrix
    });

    matrix.add_finder_patterns();

    assert_eq!(
        matrix.0.iter()
            .map(|row| row.iter()
                .map(|state| match state {
                    2 => '□',
                    3 => '■',
                    _ => ' '
                }).collect::<String>()
            ).collect::<Vec<String>>()
            .join("\n"),
        [
            "\
            ■■■■■■■       ■■■■■■■\n\
            ■□□□□□■       ■□□□□□■\n\
            ■□■■■□■       ■□■■■□■\n\
            ■□■■■□■       ■□■■■□■\n\
            ■□■■■□■       ■□■■■□■\n\
            ■□□□□□■       ■□□□□□■\n\
            ■■■■■■■       ■■■■■■■\n",
            "                     \n".repeat(7).as_str(),
            "\
            ■■■■■■■              \n\
            ■□□□□□■              \n\
            ■□■■■□■              \n\
            ■□■■■□■              \n\
            ■□■■■□■              \n\
            ■□□□□□■              \n\
            ■■■■■■■              "
        ].join("")
            .to_string()
    );
}

#[test]
fn test_add_separators() {
    let mut matrix = Matrix({
        let mut matrix = vec![];
        let mut row = vec![];

        row.resize(21, 5);
        matrix.resize(21, row);

        matrix
    });

    matrix.add_finder_patterns();
    matrix.add_separators();

    assert_eq!(
        matrix.0.iter()
            .map(|row| row.iter()
                .map(|state| match state {
                    2 => '□',
                    3 => '■',
                    _ => ' '
                }).collect::<String>()
            ).collect::<Vec<String>>()
            .join("\n"),
        [
            "\
            ■■■■■■■□     □■■■■■■■\n\
            ■□□□□□■□     □■□□□□□■\n\
            ■□■■■□■□     □■□■■■□■\n\
            ■□■■■□■□     □■□■■■□■\n\
            ■□■■■□■□     □■□■■■□■\n\
            ■□□□□□■□     □■□□□□□■\n\
            ■■■■■■■□     □■■■■■■■\n\
            □□□□□□□□     □□□□□□□□\n",
            "                     \n".repeat(5).as_str(),
            "\
            □□□□□□□□             \n\
            ■■■■■■■□             \n\
            ■□□□□□■□             \n\
            ■□■■■□■□             \n\
            ■□■■■□■□             \n\
            ■□■■■□■□             \n\
            ■□□□□□■□             \n\
            ■■■■■■■□             "
        ].join("")
            .to_string()
    );
}

#[test]
fn test_add_alignment_patterns() {
    let mut matrix = Matrix({
        let mut matrix = vec![];
        let mut row = vec![];

        row.resize(25, 5);
        matrix.resize(25, row);

        matrix
    });

    matrix.add_finder_patterns();
    matrix.add_separators();
    matrix.add_alignment_patterns(2);

    assert_eq!(
        matrix.0.iter()
            .map(|row| row.iter()
                .map(|state| match state {
                    2 => '□',
                    3 => '■',
                    _ => ' '
                }).collect::<String>()
            ).collect::<Vec<String>>()
            .join("\n"),
        [
            "\
            ■■■■■■■□         □■■■■■■■\n\
            ■□□□□□■□         □■□□□□□■\n\
            ■□■■■□■□         □■□■■■□■\n\
            ■□■■■□■□         □■□■■■□■\n\
            ■□■■■□■□         □■□■■■□■\n\
            ■□□□□□■□         □■□□□□□■\n\
            ■■■■■■■□         □■■■■■■■\n\
            □□□□□□□□         □□□□□□□□\n",
            "                         \n".repeat(8).as_str(),
            "                ■■■■■    \n\
            □□□□□□□□        ■□□□■    \n\
            ■■■■■■■□        ■□■□■    \n\
            ■□□□□□■□        ■□□□■    \n\
            ■□■■■□■□        ■■■■■    \n\
            ■□■■■□■□                 \n\
            ■□■■■□■□                 \n\
            ■□□□□□■□                 \n\
            ■■■■■■■□                 "
        ].join("")
            .to_string()
    );
}

#[test]
fn test_add_timing_patterns() {
    let mut matrix = Matrix({
        let mut matrix = vec![];
        let mut row = vec![];

        row.resize(25, 5);
        matrix.resize(25, row);

        matrix
    });

    matrix.add_finder_patterns();
    matrix.add_separators();
    matrix.add_alignment_patterns(2);
    matrix.add_timing_patterns();

    assert_eq!(
        matrix.0.iter()
            .map(|row| row.iter()
                .map(|state| match state {
                    2 => '□',
                    3 => '■',
                    _ => ' '
                }).collect::<String>()
            ).collect::<Vec<String>>()
            .join("\n"),
        [
            "\
            ■■■■■■■□         □■■■■■■■\n\
            ■□□□□□■□         □■□□□□□■\n\
            ■□■■■□■□         □■□■■■□■\n\
            ■□■■■□■□         □■□■■■□■\n\
            ■□■■■□■□         □■□■■■□■\n\
            ■□□□□□■□         □■□□□□□■\n\
            ■■■■■■■□■□■□■□■□■□■■■■■■■\n\
            □□□□□□□□         □□□□□□□□\n",
            "      ■                  \n",
            "      □                  \n",
            "      ■                  \n",
            "      □                  \n",
            "      ■                  \n",
            "      □                  \n",
            "      ■                  \n",
            "      □                  \n",
            "      ■         ■■■■■    \n\
            □□□□□□□□        ■□□□■    \n\
            ■■■■■■■□        ■□■□■    \n\
            ■□□□□□■□        ■□□□■    \n\
            ■□■■■□■□        ■■■■■    \n\
            ■□■■■□■□                 \n\
            ■□■■■□■□                 \n\
            ■□□□□□■□                 \n\
            ■■■■■■■□                 "
        ].join("")
            .to_string()
    );
}

#[test]
fn test_add_dark_module_and_reserved_areas() {
    // version 2
    let mut matrix = Matrix({
        let mut matrix = vec![];
        let mut row = vec![];

        row.resize(25, 5);
        matrix.resize(25, row);

        matrix
    });

    matrix.add_finder_patterns();
    matrix.add_separators();
    matrix.add_alignment_patterns(2);
    matrix.add_timing_patterns();
    matrix.add_dark_module_and_reserved_areas(2);

    assert_eq!(
        matrix.0.iter()
            .map(|row| row.iter()
                .map(|state| match state {
                    2 => '□',
                    3 => '■',
                    4 => '○',
                    _ => ' '
                }).collect::<String>()
            ).collect::<Vec<String>>()
            .join("\n"),
        [
            "\
            ■■■■■■■□○        □■■■■■■■\n\
            ■□□□□□■□○        □■□□□□□■\n\
            ■□■■■□■□○        □■□■■■□■\n\
            ■□■■■□■□○        □■□■■■□■\n\
            ■□■■■□■□○        □■□■■■□■\n\
            ■□□□□□■□○        □■□□□□□■\n\
            ■■■■■■■□■□■□■□■□■□■■■■■■■\n\
            □□□□□□□□○        □□□□□□□□\n\
            ○○○○○○■○○        ○○○○○○○○\n",
            "      □                  \n",
            "      ■                  \n",
            "      □                  \n",
            "      ■                  \n",
            "      □                  \n",
            "      ■                  \n",
            "      □                  \n",
            "      ■         ■■■■■    \n\
            □□□□□□□□■       ■□□□■    \n\
            ■■■■■■■□○       ■□■□■    \n\
            ■□□□□□■□○       ■□□□■    \n\
            ■□■■■□■□○       ■■■■■    \n\
            ■□■■■□■□○                \n\
            ■□■■■□■□○                \n\
            ■□□□□□■□○                \n\
            ■■■■■■■□○                "
        ].join("")
            .to_string()
    );

    // version 7
    let mut matrix = Matrix({
        let mut matrix = vec![];
        let mut row = vec![];

        row.resize(45, 5);
        matrix.resize(45, row);

        matrix
    });

    matrix.add_finder_patterns();
    matrix.add_separators();
    matrix.add_alignment_patterns(7);
    matrix.add_timing_patterns();
    matrix.add_dark_module_and_reserved_areas(7);

    assert_eq!(
        matrix.0.iter()
            .map(|row| row.iter()
                .map(|state| match state {
                    2 => '□',
                    3 => '■',
                    4 => '○',
                    _ => ' '
                }).collect::<String>()
            ).collect::<Vec<String>>()
            .join("\n"),
        [
            "\
            ■■■■■■■□○                         ○○○□■■■■■■■\n\
            ■□□□□□■□○                         ○○○□■□□□□□■\n\
            ■□■■■□■□○                         ○○○□■□■■■□■\n\
            ■□■■■□■□○                         ○○○□■□■■■□■\n\
            ■□■■■□■□○           ■■■■■         ○○○□■□■■■□■\n\
            ■□□□□□■□○           ■□□□■         ○○○□■□□□□□■\n\
            ■■■■■■■□■□■□■□■□■□■□■□■□■□■□■□■□■□■□■□■■■■■■■\n\
            □□□□□□□□○           ■□□□■            □□□□□□□□\n\
            ○○○○○○■○○           ■■■■■            ○○○○○○○○\n",
            "      □                                      \n",
            "      ■                                      \n",
            "      □                                      \n",
            "      ■                                      \n",
            "      □                                      \n",
            "      ■                                      \n",
            "      □                                      \n",
            "      ■                                      \n",
            "      □                                      \n",
            "      ■                                      \n",
            "      □                                      \n",
            "    ■■■■■           ■■■■■           ■■■■■    \n",
            "    ■□□□■           ■□□□■           ■□□□■    \n",
            "    ■□■□■           ■□■□■           ■□■□■    \n",
            "    ■□□□■           ■□□□■           ■□□□■    \n",
            "    ■■■■■           ■■■■■           ■■■■■    \n",
            "      □                                      \n",
            "      ■                                      \n",
            "      □                                      \n",
            "      ■                                      \n",
            "      □                                      \n",
            "      ■                                      \n",
            "      □                                      \n",
            "      ■                                      \n",
            "      □                                      \n",
            "○○○○○○■                                      \n",
            "○○○○○○□                                      \n",
            "○○○○○○■             ■■■■■           ■■■■■    \n\
            □□□□□□□□■           ■□□□■           ■□□□■    \n\
            ■■■■■■■□○           ■□■□■           ■□■□■    \n\
            ■□□□□□■□○           ■□□□■           ■□□□■    \n\
            ■□■■■□■□○           ■■■■■           ■■■■■    \n\
            ■□■■■□■□○                                    \n\
            ■□■■■□■□○                                    \n\
            ■□□□□□■□○                                    \n\
            ■■■■■■■□○                                    "
        ].join("")
            .to_string()
    );
}

#[test]
fn test_place_data() {
    let mut matrix = Matrix({
        let mut matrix = vec![];
        let mut row = vec![];

        row.resize(25, 5);
        matrix.resize(25, row);

        matrix
    });

    let mut data = vec![];
    for _ in 0..18 { data.extend_from_slice(&[1, 0, 1, 0, 0, 0, 0, 1, 1, 1, 0, 1, 0, 1, 0, 1, 0, 1, 1]); }
    for _ in 0..17 { data.push(0); }

    matrix.add_finder_patterns();
    matrix.add_separators();
    matrix.add_alignment_patterns(2);
    matrix.add_timing_patterns();
    matrix.add_dark_module_and_reserved_areas(2);
    matrix.place_data(&data);

    assert_eq!(
        matrix.0.iter()
            .map(|row| row.iter()
                .map(|state| match state {
                    0 => '0',
                    1 => '1',
                    2 => '□',
                    3 => '■',
                    4 => '○',
                    _ => ' '
                }).collect::<String>()
            ).collect::<Vec<String>>()
            .join("\n"),
        [
            "\
            ■■■■■■■□○01111110□■■■■■■■\n\
            ■□□□□□■□○01011010□■□□□□□■\n\
            ■□■■■□■□○00010010□■□■■■□■\n\
            ■□■■■□■□○10010010□■□■■■□■\n\
            ■□■■■□■□○11011111□■□■■■□■\n\
            ■□□□□□■□○10110110□■□□□□□■\n\
            ■■■■■■■□■□■□■□■□■□■■■■■■■\n\
            □□□□□□□□○10000100□□□□□□□□\n\
            ○○○○○○■○○10000101○○○○○○○○\n",
            "000111□001010010110110101\n",
            "001001■001111111110100101\n",
            "001001□101010010110001111\n",
            "001001■110010010110010100\n",
            "001001□100010000111010100\n",
            "001111■101110100110110010\n",
            "001001□100111111100011011\n",
            "000001■100110100■■■■■1110\n\
            □□□□□□□□■0100100■□□□■1010\n\
            ■■■■■■■□○0101100■□■□■1010\n\
            ■□□□□□■□○1101100■□□□■1010\n\
            ■□■■■□■□○0111111■■■■■1011\n\
            ■□■■■□■□○0101100100011110\n\
            ■□■■■□■□○0001001111011000\n\
            ■□□□□□■□○1001000101010001\n\
            ■■■■■■■□○1101110101110001"
        ].join("")
            .to_string()
    );
}

#[test]
fn test_eval_condition() {
    let matrix = vec![
        vec![1, 1, 1, 1, 1, 1, 1, 0, 1, 1, 0, 0, 0, 0, 1, 1, 1, 1, 1, 1, 1],
        vec![1, 0, 0, 0, 0, 0, 1, 0, 1, 0, 0, 1, 0, 0, 1, 0, 0, 0, 0, 0, 1],
        vec![1, 0, 1, 1, 1, 0, 1, 0, 1, 0, 0, 1, 1, 0, 1, 0, 1, 1, 1, 0, 1],
        vec![1, 0, 1, 1, 1, 0, 1, 0, 1, 0, 0, 0, 0, 0, 1, 0, 1, 1, 1, 0, 1],
        vec![1, 0, 1, 1, 1, 0, 1, 0, 1, 0, 1, 0, 0, 0, 1, 0, 1, 1, 1, 0, 1],
        vec![1, 0, 0, 0, 0, 0, 1, 0, 0, 0, 1, 0, 0, 0, 1, 0, 0, 0, 0, 0, 1],
        vec![1, 1, 1, 1, 1, 1, 1, 0, 1, 0, 1, 0, 1, 0, 1, 1, 1, 1, 1, 1, 1],
        vec![0, 0, 0, 0, 0, 0, 0, 0, 1, 0, 0, 0, 0, 0, 0, 0, 0, 0, 0, 0, 0],
        vec![0, 1, 1, 0, 1, 0, 1, 1, 0, 0, 0, 0, 1, 0, 1, 0, 1, 1, 1, 1, 1],
        vec![0, 1, 0, 0, 0, 0, 0, 0, 1, 1, 1, 1, 0, 0, 0, 0, 1, 0, 0, 0, 1],
        vec![0, 0, 1, 1, 0, 1, 1, 1, 0, 1, 1, 0, 0, 0, 1, 0, 1, 1, 0, 0, 0],
        vec![0, 1, 1, 0, 1, 1, 0, 1, 0, 0, 1, 1, 0, 1, 0, 1, 0, 1, 1, 1, 0],
        vec![1, 0, 0, 0, 1, 0, 1, 0, 1, 0, 1, 1, 1, 0, 1, 1, 1, 0, 1, 0, 1],
        vec![0, 0, 0, 0, 0, 0, 0, 0, 1, 1, 0, 1, 0, 0, 1, 0, 0, 0, 1, 0, 1],
        vec![1, 1, 1, 1, 1, 1, 1, 0, 1, 0, 1, 0, 0, 0, 0, 1, 0, 1, 1, 0, 0],
        vec![1, 0, 0, 0, 0, 0, 1, 0, 0, 1, 0, 1, 1, 0, 1, 1, 0, 1, 0, 0, 0],
        vec![1, 0, 1, 1, 1, 0, 1, 0, 1, 0, 1, 0, 0, 0, 1, 1, 1, 1, 1, 1, 1],
        vec![1, 0, 1, 1, 1, 0, 1, 0, 0, 1, 0, 1, 0, 1, 0, 1, 0, 0, 0, 1, 0],
        vec![1, 0, 1, 1, 1, 0, 1, 0, 1, 0, 0, 0, 1, 1, 1, 1, 0, 1, 0, 0, 1],
        vec![1, 0, 0, 0, 0, 0, 1, 0, 1, 0, 1, 1, 0, 1, 0, 0, 0, 1, 0, 1, 1],
        vec![1, 1, 1, 1, 1, 1, 1, 0, 0, 0, 0, 0, 1, 1, 1, 1, 0, 0, 0, 0, 1]
    ];

    assert_eq!(Matrix::eval_condition_1(&matrix), 180);
    assert_eq!(Matrix::eval_condition_2(&matrix), 90);
    assert_eq!(Matrix::eval_condition_3(&matrix), 80);
    assert_eq!(Matrix::eval_condition_4(&matrix), 0);
}

