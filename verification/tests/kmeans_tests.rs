use product_quantization_vector_search::error::AppError;
use product_quantization_vector_search::kmeans::{assign_points, repair_empty_clusters, validate_input};
use product_quantization_vector_search::vector::VectorSet;

fn bits(values: &[f32]) -> Vec<u32> {
    values.iter().map(|value| value.to_bits()).collect()
}

#[test]
fn repairs_empty_clusters_using_farthest_lowest_index() {
    let points =
        VectorSet::from_vectors(vec![bits(&[0.0]), bits(&[2.0]), bits(&[10.0]), bits(&[20.0])])
            .unwrap();
    let mut centroids = vec![bits(&[0.0]), bits(&[0.0]), bits(&[0.0])];
    let mut assignments = vec![0, 0, 1, 1];
    let mut distances = bits(&[4.0, 4.0, 1.0, 1.0]);
    let mut counts = vec![2, 2, 0];
    repair_empty_clusters(
        &points,
        &mut centroids,
        &mut assignments,
        &mut distances,
        &mut counts,
    )
    .unwrap();
    assert_eq!(assignments[0], 2);
    assert_eq!(counts, vec![1, 2, 1]);
    assert_eq!(centroids[2], bits(&[0.0]));
}

#[test]
fn repair_fails_without_a_donor() {
    let points = VectorSet::from_vectors(vec![bits(&[0.0]), bits(&[2.0])]).unwrap();
    let mut centroids = vec![bits(&[0.0]), bits(&[2.0]), bits(&[0.0])];
    let mut assignments = vec![0, 1];
    let mut distances = bits(&[0.0, 0.0]);
    let mut counts = vec![1, 1, 0];
    assert!(matches!(
        repair_empty_clusters(
            &points,
            &mut centroids,
            &mut assignments,
            &mut distances,
            &mut counts,
        ),
        Err(AppError::KMeans(_))
    ));
}

#[test]
fn assignment_takes_the_first_nearest_centroid() {
    // three points, two centroids
    let distances = bits(&[1.0, 2.0, 3.0, 3.0, 5.0, 4.0]);
    let mut assignments = vec![0; 3];
    let mut assignment_distances = vec![0; 3];
    let counts = assign_points(&distances, 2, &mut assignments, &mut assignment_distances);
    assert_eq!(assignments, vec![0, 0, 1]);
    assert_eq!(assignment_distances, bits(&[1.0, 3.0, 4.0]));
    assert_eq!(counts, vec![2, 1]);
}

#[test]
fn input_needs_enough_points() {
    let points = VectorSet::from_vectors(vec![bits(&[0.0]), bits(&[2.0])]).unwrap();
    assert!(validate_input(&points, 2).is_ok());
    assert!(validate_input(&points, 0).is_err());
    assert!(validate_input(&points, 3).is_err());
}
