use imghash::math::{over_matrix, transpose, Axis};

#[test]
fn test_transpose() {
    // Arrange
    let input = vec![1., 2., 3., 4., 5., 6., 7., 8., 9.];

    // Act
    let result = transpose(&input, 3);

    // Assert
    assert_eq!(result, vec![1., 4., 7., 2., 5., 8., 3., 6., 9.]);
}

#[test]
fn test_transpose_of_two_rows_has_rows_of_two_cells() {
    // two rows of three cells become three rows of two cells
    let input = vec![1u8, 2, 3, 4, 5, 6];

    let result = transpose(&input, 2);

    assert_eq!(result, vec![1, 4, 2, 5, 3, 6]);
}

#[test]
fn test_transpose_twice_gives_the_matrix_back() {
    let input = vec![1u8, 2, 3, 4, 5, 6, 7, 8, 9, 10, 11, 12];

    // three rows of four cells: turned into four rows of three, and back
    let turned = transpose(&input, 3);
    let back = transpose(&turned, 4);

    assert_eq!(turned, vec![1, 5, 9, 2, 6, 10, 3, 7, 11, 4, 8, 12]);
    assert_eq!(back, input);
}

#[test]
fn test_transpose_of_single_row_and_single_column() {
    let input = vec![7u8, 8, 9];

    assert_eq!(transpose(&input, 1), vec![7, 8, 9]);
    assert_eq!(transpose(&input, 3), vec![7, 8, 9]);
}

#[test]
fn test_transpose_of_empty_matrix() {
    let input: Vec<u8> = vec![];

    assert_eq!(transpose(&input, 4), Vec::<u8>::new());
}

#[test]
fn test_axis_default_is_row() {
    assert_eq!(Axis::default(), Axis::Row);
    assert_ne!(Axis::Row, Axis::Column);
}

fn running_sum(lane: &[i64]) -> Vec<i64> {
    let mut sum = 0;
    let mut out = Vec::new();
    for v in lane {
        sum += *v;
        out.push(sum);
    }
    out
}

#[test]
fn test_over_matrix_rows() {
    // two rows of three cells
    let input = vec![1, 2, 3, 10, 20, 30];

    let result = over_matrix(&input, 3, Axis::Row, running_sum);

    assert_eq!(result, vec![1, 3, 6, 10, 30, 60]);
}

#[test]
fn test_over_matrix_columns() {
    // two rows of three cells: each column is summed downwards
    let input = vec![1, 2, 3, 10, 20, 30];

    let result = over_matrix(&input, 3, Axis::Column, running_sum);

    assert_eq!(result, vec![1, 2, 3, 11, 22, 33]);
}

#[test]
fn test_over_matrix_columns_of_tall_matrix() {
    // three rows of two cells
    let input = vec![1, 2, 3, 4, 5, 6];

    let result = over_matrix(&input, 2, Axis::Column, running_sum);

    assert_eq!(result, vec![1, 2, 4, 6, 9, 12]);
}

#[test]
fn test_over_matrix_both_axes_in_turn() {
    let input = vec![1, 1, 1, 1];

    let down = over_matrix(&input, 2, Axis::Column, running_sum);
    let across = over_matrix(&down, 2, Axis::Row, running_sum);

    assert_eq!(down, vec![1, 1, 2, 2]);
    assert_eq!(across, vec![1, 2, 2, 4]);
}

#[test]
fn test_over_matrix_with_empty_rows() {
    let input: Vec<i64> = vec![];

    let result = over_matrix(&input, 0, Axis::Row, running_sum);

    assert_eq!(result, input);
}

#[test]
fn test_over_matrix_with_empty_columns() {
    let input: Vec<i64> = vec![];

    let result = over_matrix(&input, 0, Axis::Column, running_sum);

    assert_eq!(result, input);
}

#[test]
fn test_over_matrix_with_rows_of_no_cell() {
    let input = vec![1, 2, 3];

    assert_eq!(over_matrix(&input, 0, Axis::Row, running_sum), Vec::<i64>::new());
    assert_eq!(over_matrix(&input, 0, Axis::Column, running_sum), Vec::<i64>::new());
}

// the cosine transform of a lane, to walk a matrix of real numbers with
fn dct2(input: &[f64]) -> Vec<f64> {
    let n = input.len();

    (0..n)
        .map(|k| {
            2 as f64
                * input
                    .iter()
                    .enumerate()
                    .map(|(i, x)| {
                        let numerator = std::f64::consts::PI * k as f64 * (2 * i + 1) as f64;
                        let denominator = (2 * n) as f64;

                        let cosine = (numerator / denominator).cos();

                        x * cosine
                    })
                    .sum::<f64>()
        })
        .collect()
}

#[test]
fn test_dct2_over_matrix_rows() {
    // Arrange
    let input = vec![
        1., 2., 3., 4., 5., 6., 7., 8., 9., 10., 11., 12., 13., 14., 15., 16.,
    ];

    // Act
    let result = over_matrix(&input, 4, Axis::Row, dct2);

    // Assert
    assert_eq!(
        result,
        vec![
            20.0,
            -6.308644059797899,
            -1.7763568394002505e-15,
            -0.44834152916796777,
            52.0,
            -6.308644059797897,
            -3.552713678800501e-15,
            -0.44834152916797,
            84.0,
            -6.308644059797897,
            -7.105427357601002e-15,
            -0.44834152916797265,
            116.0,
            -6.308644059797899,
            -3.552713678800501e-15,
            -0.4483415291679762
        ]
    );
}

#[test]
fn test_dct2_over_matrix_column() {
    // Arrange
    let input = vec![
        1., 2., 3., 4., 5., 6., 7., 8., 9., 10., 11., 12., 13., 14., 15., 16.,
    ];

    // Act
    let result = over_matrix(&input, 4, Axis::Column, dct2);

    // Assert
    assert_eq!(
        result,
        vec![
            56.,
            64.,
            72.,
            80.,
            -25.234576239191597,
            -25.234576239191597,
            -25.234576239191597,
            -25.234576239191597,
            -7.105427357601002e-15,
            -7.105427357601002e-15,
            -7.105427357601002e-15,
            -7.105427357601002e-15,
            -1.7933661166718693,
            -1.7933661166718693,
            -1.7933661166718693,
            -1.793366116671871
        ]
    );
}

#[test]
fn test_dct2_over_matrix_with_empty_rows() {
    // Arrange
    let input = vec![];

    // Act
    let result = over_matrix(&input, 0, Axis::Row, dct2);

    // Assert
    assert_eq!(result, input);
}

#[test]
fn test_dct2_over_matrix_with_empty_columns() {
    // Arrange
    let input = vec![];

    // Act
    let result = over_matrix(&input, 0, Axis::Column, dct2);

    // Assert
    assert_eq!(result, input);
}
