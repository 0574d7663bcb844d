use product_quantization_vector_search::benchmark::ExperimentConfigResult;
use product_quantization_vector_search::report::{
    escape_html, escape_xml, find_experiment, representative_experiment,
};

fn shape(subspaces: usize, centroids_per_subspace: usize) -> ExperimentConfigResult {
    ExperimentConfigResult {
        subspaces,
        centroids_per_subspace,
        subvector_dimension: 64 / subspaces,
    }
}

#[test]
fn escaping_replaces_markup_characters() {
    assert_eq!(
        escape_xml("a<b & 'c' > \"d\""),
        "a&lt;b &amp; &apos;c&apos; &gt; &quot;d&quot;"
    );
    assert_eq!(escape_html("M=8 K=256"), "M=8 K=256");
    assert_eq!(escape_xml(""), "");
}

#[test]
fn experiments_are_found_by_filters() {
    let shapes = [shape(4, 16), shape(8, 16), shape(8, 256)];
    assert_eq!(find_experiment(&shapes, Some(8), None), Some(1));
    assert_eq!(find_experiment(&shapes, None, Some(256)), Some(2));
    assert_eq!(find_experiment(&shapes, None, None), Some(0));
    assert_eq!(find_experiment(&shapes, Some(4), Some(256)), None);
    assert_eq!(representative_experiment(&shapes), Some(2));
    assert_eq!(representative_experiment(&shapes[..2]), Some(1));
    assert_eq!(representative_experiment(&[]), None);
}
