use product_quantization_vector_search::rng::{
    derive_kmeans_seed, derive_seed, mix64, QUERY_TAG, TRAINING_TAG,
};

#[test]
fn derivation_is_stable_and_namespaced() {
    assert_eq!(derive_seed(42, TRAINING_TAG), derive_seed(42, TRAINING_TAG));
    assert_ne!(derive_seed(42, TRAINING_TAG), derive_seed(42, QUERY_TAG));
    assert_ne!(
        derive_kmeans_seed(42, 32, 4, 16, 0),
        derive_kmeans_seed(42, 32, 4, 16, 1)
    );
}

#[test]
fn mix64_matches_the_splitmix64_finaliser() {
    // The first SplitMix64 output for state zero.
    assert_eq!(mix64(0), 0xE220_A839_7B1D_CDAF);
    assert_eq!(derive_seed(7, 7), mix64(0));
}

#[test]
fn kmeans_seed_folds_every_parameter() {
    assert_ne!(
        derive_kmeans_seed(42, 32, 4, 16, 0),
        derive_kmeans_seed(42, 64, 4, 16, 0)
    );
    assert_ne!(
        derive_kmeans_seed(42, 32, 4, 16, 0),
        derive_kmeans_seed(43, 32, 4, 16, 0)
    );
}
