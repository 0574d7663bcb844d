use product_quantization_vector_search::error::AppError;
use product_quantization_vector_search::vector::VectorSet;

#[test]
fn vector_set_exposes_rows() {
    let data: Vec<u32> = [1.0_f32, 2.0, 3.0, 4.0, 5.0, 6.0]
        .iter()
        .map(|value| value.to_bits())
        .collect();
    let set = VectorSet::new(3, data.clone()).unwrap();
    assert_eq!(set.len(), 2);
    assert_eq!(set.dimension(), 3);
    assert!(!set.is_empty());
    assert_eq!(set.vector(1), &data[3..6]);
    assert_eq!(set.data(), &data[..]);
}

#[test]
fn vector_set_rejects_bad_shapes_and_values() {
    assert!(matches!(VectorSet::new(0, vec![]), Err(AppError::InvalidConfig(_))));
    assert!(matches!(
        VectorSet::new(2, vec![0; 5]),
        Err(AppError::DimensionMismatch {
            expected: 2,
            actual: 1
        })
    ));
    assert!(matches!(
        VectorSet::new(1, vec![f32::NAN.to_bits()]),
        Err(AppError::InvalidConfig(_))
    ));
    assert!(matches!(
        VectorSet::new(1, vec![f32::INFINITY.to_bits()]),
        Err(AppError::InvalidConfig(_))
    ));
    assert!(VectorSet::new(2, vec![]).unwrap().is_empty());
}

#[test]
fn from_vectors_checks_lengths() {
    assert!(matches!(
        VectorSet::from_vectors(vec![]),
        Err(AppError::InvalidConfig(_))
    ));
    assert!(matches!(
        VectorSet::from_vectors(vec![vec![0, 0], vec![0]]),
        Err(AppError::DimensionMismatch {
            expected: 2,
            actual: 1
        })
    ));
    let set = VectorSet::from_vectors(vec![vec![1, 2], vec![3, 4]]).unwrap();
    assert_eq!(set.data(), &[1, 2, 3, 4]);
    assert_eq!(set.clone(), set);
}

#[test]
fn rows_of_a_set_built_from_vectors_are_its_inputs() {
    let vectors = vec![vec![1_u32, 2, 3], vec![4, 5, 6], vec![7, 8, 9]];
    let set = VectorSet::from_vectors(vectors.clone()).unwrap();
    assert_eq!(set.len(), 3);
    for (index, vector) in vectors.iter().enumerate() {
        assert_eq!(set.vector(index), vector.as_slice());
    }
}
