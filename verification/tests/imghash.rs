use imghash::ImageHash;

// NEW

#[test]
fn test_image_hash_new_with_valid_matrix() {
    // Arrange
    let hash = ImageHash::new(vec![vec![false, true], vec![true, false]]);

    // Assert
    assert_eq!(
        hash,
        ImageHash::new(vec![vec![false, true], vec![true, false]],)
    );
}

// MATRIX

#[test]
fn test_image_hash_get_matrix() {
    // Arrange
    let hash = ImageHash::new(vec![vec![false, true], vec![true, false]]);

    // Assert
    assert_eq!(hash.matrix(), vec![vec![false, true], vec![true, false]],);
}

// FLATTEN

#[test]
fn test_image_hash_flatten() {
    // Arrange
    let hash = ImageHash::new(vec![vec![false, true], vec![true, false]]);

    let expected = vec![false, true, true, false];

    // Act
    let flattened = hash.flatten();

    // Assert
    assert_eq!(flattened, expected);
}

// SHAPE

#[test]
fn test_image_hash_shape() {
    // Arrange
    let hash = ImageHash::new(vec![vec![false, true], vec![true, false]]);

    let expected = (2, 2);

    // Act
    let flattened = hash.shape();

    // Assert
    assert_eq!(flattened, expected);
}

// ENCODING

#[test]
fn test_image_hash_encoding() {
    // Arrange

    // -> resulting bit str: 0010 0100 1111 0000
    // -> resulting hex str: 24F0
    let hash = ImageHash::new(vec![
        vec![false, false, true, false],
        vec![false, true, false, false],
        vec![true, true, true, true],
        vec![false, false, false, false],
    ]);

    // Assert
    assert_eq!(hash.encode(), "24f0");
}

#[test]
fn test_image_hash_encoding_with_non_square_matrix() {
    // Arrange

    // -> resulting bit str: 0110 1010 0011 1110 0001
    // -> resulting hex str: 6A3E1
    let hash = ImageHash::new(vec![
        vec![false, true, true, false, true],
        vec![false, true, false, false, false],
        vec![true, true, true, true, true],
        vec![false, false, false, false, true],
    ]);

    // Assert
    assert_eq!(hash.encode(), "6a3e1");
}

#[test]
fn test_image_hash_encoding_with_uneven_total_bits() {
    // Arrange

    // due to the uneven number of bits, the entire bit string gets padded until
    // it is divisible by 4
    // -> resulting bit str: 0011 0101 0001 1111
    // -> resulting hex str: 351F
    let hash = ImageHash::new(vec![
        vec![false, true, true, false, true],
        vec![false, true, false, false, false],
        vec![true, true, true, true, true],
    ]);

    // Assert
    assert_eq!(hash.encode(), "351f");
}

#[test]
fn test_image_hash_python_safe_encoding_with_single_bit() {
    // Arrange

    // should equal to 1 due to added padding
    // -> resulting bit str: 0001
    // -> resulting hex str: 1
    let hash = ImageHash::new(vec![vec![true]]);

    // Assert
    assert_eq!(hash.encode(), "1");
}

// DECODING

#[test]
fn test_image_hash_decoding() {
    // Arrange
    let expected = vec![
        vec![false, false, true, false],
        vec![false, true, false, false],
        vec![true, true, true, true],
        vec![false, false, false, false],
    ];

    // Act
    let decoded = ImageHash::decode("24f0", 4, 4).unwrap();

    // Assert
    assert_eq!(decoded.matrix(), expected);
}

#[test]
fn test_image_hash_decoding_with_non_square_matrix() {
    // Arrange
    let expected = vec![
        vec![false, true, true, false, true],
        vec![false, true, false, false, false],
        vec![true, true, true, true, true],
        vec![false, false, false, false, true],
    ];

    // Act
    let decoded = ImageHash::decode("6a3e1", 5, 4).unwrap();

    // Assert
    assert_eq!(decoded.matrix(), expected);
}

#[test]
fn test_image_hash_decoding_with_uneven_total_bits() {
    // Arrange
    let expected = vec![
        vec![false, true, true, false, true],
        vec![false, true, false, false, false],
        vec![true, true, true, true, true],
    ];

    // Act
    let decoded = ImageHash::decode("351f", 5, 3).unwrap();

    // Assert
    assert_eq!(decoded.matrix(), expected);
}

#[test]
fn test_image_hash_decoding_with_single_bit() {
    // Arrange
    let expected = vec![vec![true]];

    // Act
    let decoded = ImageHash::decode("1", 1, 1).unwrap();

    // Assert
    assert_eq!(decoded.matrix(), expected);
}

#[test]
fn test_image_hash_decoding_with_too_short_string() {
    // Act
    let decoded = ImageHash::decode("AB", 2, 5);

    // Assert
    match decoded {
        Ok(_) => panic!("Should not have decoded"),
        Err(e) => assert_eq!(e, "String is too short or too long for the specified size"),
    }
}

#[test]
fn test_image_hash_decoding_with_too_long_string() {
    // Act
    let decoded = ImageHash::decode("ABCD", 2, 2);

    // Assert
    match decoded {
        Ok(_) => panic!("Should not have decoded"),
        Err(e) => assert_eq!(e, "String is too short or too long for the specified size"),
    }
}

#[test]
fn test_image_hash_decoding_with_invalid_string() {
    // Act
    let decoded = ImageHash::decode("!", 2, 2);

    // Assert
    match decoded {
        Ok(_) => panic!("Should not have decoded"),
        Err(e) => assert_eq!(e, "invalid digit found in string"),
    }
}

#[test]
fn test_image_hash_decoding_with_zero_size_matrix() {
    // Act
    let decoded = ImageHash::decode("!", 2, 0);

    // Assert
    match decoded {
        Ok(_) => panic!("Should not have decoded"),
        Err(e) => assert_eq!(e, "Width or height cannot be 0"),
    }
}

#[test]
fn test_image_hash_decoding_with_empty_string() {
    // Act
    let decoded = ImageHash::decode("", 2, 2);

    // Assert
    match decoded {
        Ok(_) => panic!("Should not have decoded"),
        Err(e) => assert_eq!(e, "String is empty"),
    }
}

// DISTANCE

#[test]
fn test_image_hash_distance_with_unequal_hashes() {
    // Arrange
    let hash1 = ImageHash::new(vec![vec![false, true], vec![true, false]]);

    let hash2 = ImageHash::new(vec![vec![true, true], vec![false, false]]);

    // Act
    let distance = hash1.distance(&hash2);

    // Assert
    match distance {
        Ok(d) => assert_eq!(d, 2),
        Err(_) => panic!("Should not have errored"),
    }
}

#[test]
fn test_image_hash_distance_with_equal_hashes() {
    // Arrange
    let hash1 = ImageHash::new(vec![vec![false, true], vec![true, false]]);

    let hash2 = ImageHash::new(vec![vec![false, true], vec![true, false]]);

    // Act
    let distance = hash1.distance(&hash2);

    // Assert
    match distance {
        Ok(d) => assert_eq!(d, 0),
        Err(_) => panic!("Should not have errored"),
    }
}

#[test]
fn test_image_hash_distance_with_different_sizes() {
    // Arrange
    let hash1 = ImageHash::new(vec![vec![false, true, false], vec![true, false, false]]);

    let hash2 = ImageHash::new(vec![vec![false, true], vec![true, false]]);

    // Act
    let distance = hash1.distance(&hash2);

    // Assert
    match distance {
        Ok(_) => panic!("Should not have succeeded"),
        Err(e) => assert_eq!(e, "Cannot compute distance of hashes with different sizes"),
    }
}
