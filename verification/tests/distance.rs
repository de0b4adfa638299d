use imghash::ImageHash;

fn hash(pattern: &str, width: u32, height: u32) -> ImageHash {
    let bits = pattern
        .chars()
        .filter(|c| *c == '0' || *c == '1')
        .map(|c| c == '1')
        .collect();
    ImageHash::from_bool_iter(bits, width, height)
}

#[test]
fn test_distance_counts_the_cells_that_differ() {
    let a = hash("0110 1001 1111 0000", 4, 4);
    let b = hash("0110 1001 1111 0000", 4, 4);
    let c = hash("1110 1001 1011 0001", 4, 4);
    let d = hash("1001 0110 0000 1111", 4, 4);

    assert_eq!(a.distance(&b), Ok(0));
    assert_eq!(a.distance(&c), Ok(3));
    assert_eq!(a.distance(&d), Ok(16));
}

#[test]
fn test_distance_is_the_same_in_both_directions() {
    let a = hash("01101 01000 11111", 5, 3);
    let b = hash("11100 01011 10101", 5, 3);

    assert_eq!(a.distance(&b), Ok(6));
    assert_eq!(b.distance(&a), Ok(6));
    assert_eq!(a.distance(&b), b.distance(&a));
}

#[test]
fn test_distance_to_itself_is_zero() {
    let a = hash("01101 01000 11111", 5, 3);
    let b = hash("1", 1, 1);

    assert_eq!(a.distance(&a), Ok(0));
    assert_eq!(b.distance(&b), Ok(0));
}

#[test]
fn test_distance_is_at_most_the_number_of_cells() {
    let a = hash("000 000", 3, 2);
    let b = hash("111 111", 3, 2);
    let c = hash("010 101", 3, 2);

    assert_eq!(a.distance(&b), Ok(6));
    assert!(a.distance(&c).unwrap() <= 6);
    assert!(b.distance(&c).unwrap() <= 6);
}

#[test]
fn test_distance_needs_one_shape() {
    // the same cells in another shape
    let wide = hash("010 101", 3, 2);
    let tall = hash("01 01 01", 2, 3);
    let small = hash("01", 2, 1);

    let message = "Cannot compute distance of hashes with different sizes";
    assert_eq!(wide.distance(&tall), Err(message.to_string()));
    assert_eq!(tall.distance(&wide), Err(message.to_string()));
    assert_eq!(wide.distance(&small), Err(message.to_string()));
    assert_eq!(small.distance(&tall), Err(message.to_string()));
}

#[test]
fn test_hashes_are_equal_by_shape_and_bits() {
    let wide = hash("010 101", 3, 2);
    let same = hash("010 101", 3, 2);
    let tall = hash("01 01 01", 2, 3);
    let other = hash("010 100", 3, 2);

    assert_eq!(wide, same);
    assert_ne!(wide, tall);
    assert_ne!(wide, other);
}

#[test]
fn test_iter_bool_walks_the_rows() {
    let wide = hash("010 101", 3, 2);

    let bits: Vec<bool> = wide.iter_bool().collect();

    assert_eq!(bits, vec![false, true, false, true, false, true]);
    assert_eq!(wide.iter_bool().filter(|b| *b).count(), 3);
}

#[test]
fn test_matrix_and_flatten_of_a_wide_hash() {
    let wide = ImageHash::new(vec![
        vec![true, false, false],
        vec![false, true, true],
    ]);

    assert_eq!(wide.shape(), (2, 3));
    assert_eq!(wide.flatten(), vec![true, false, false, false, true, true]);
    assert_eq!(
        wide.matrix(),
        vec![vec![true, false, false], vec![false, true, true]]
    );
    assert_eq!(
        wide,
        ImageHash::from_bool_iter(vec![true, false, false, false, true, true], 3, 2)
    );
}
