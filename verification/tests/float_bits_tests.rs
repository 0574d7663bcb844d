use std::cmp::Ordering;

use product_quantization_vector_search::vector::float_bits::{
    bits_are_below_zero, bits_are_finite, bits_less, total_order_key_of, NEGATIVE_ZERO_BITS,
    POSITIVE_INFINITY_BITS,
};
use product_quantization_vector_search::vector::nearest::scan_nearest;
use product_quantization_vector_search::vector::top_k::rank_by_distance;

fn samples() -> Vec<f32> {
    vec![
        0.0,
        -0.0,
        1.0,
        -1.0,
        0.5,
        -2.5,
        f32::MIN_POSITIVE,
        -f32::MIN_POSITIVE,
        f32::from_bits(1),
        f32::from_bits(0x8000_0001),
        f32::MAX,
        f32::MIN,
        f32::INFINITY,
        f32::NEG_INFINITY,
        f32::NAN,
        -f32::NAN,
        f32::from_bits(0x7F80_0001),
    ]
}

#[test]
fn bit_comparison_agrees_with_f32_less_than() {
    for left in samples() {
        for right in samples() {
            assert_eq!(
                bits_less(left.to_bits(), right.to_bits()),
                left < right,
                "{left:?} < {right:?}"
            );
        }
    }
}

#[test]
fn total_order_keys_agree_with_total_cmp() {
    for left in samples() {
        for right in samples() {
            let keys = total_order_key_of(left.to_bits()).cmp(&total_order_key_of(right.to_bits()));
            assert_eq!(keys, left.total_cmp(&right), "{left:?} vs {right:?}");
        }
    }
    assert_eq!(
        total_order_key_of(NEGATIVE_ZERO_BITS).cmp(&total_order_key_of(0)),
        Ordering::Less
    );
}

#[test]
fn finiteness_and_sign_agree_with_f32() {
    for value in samples() {
        assert_eq!(bits_are_finite(value.to_bits()), value.is_finite(), "{value:?}");
        assert_eq!(bits_are_below_zero(value.to_bits()), value < 0.0, "{value:?}");
    }
    assert_eq!(f32::from_bits(POSITIVE_INFINITY_BITS), f32::INFINITY);
}

#[test]
fn nearest_scan_keeps_the_first_strict_minimum() {
    let distances: Vec<u32> = [3.0_f32, 1.0, 2.0, 1.0]
        .iter()
        .map(|value| value.to_bits())
        .collect();
    assert_eq!(scan_nearest(&distances, 1, 0, distances[0]), 1);
    assert_eq!(scan_nearest(&distances, 0, 0, POSITIVE_INFINITY_BITS), 1);
    let unordered = [f32::NAN.to_bits(), 5.0_f32.to_bits()];
    assert_eq!(scan_nearest(&unordered, 1, 0, unordered[0]), 0);
}

#[test]
fn ranking_by_distance_is_a_sorted_prefix() {
    let distances: Vec<u32> = [4.0_f32, 1.0, 3.0, 1.0, 0.5]
        .iter()
        .map(|value| value.to_bits())
        .collect();
    let ranked = rank_by_distance(&distances, 3);
    let ids: Vec<usize> = ranked.iter().map(|neighbor| neighbor.vector_id).collect();
    assert_eq!(ids, vec![4, 1, 3]);
    assert_eq!(rank_by_distance(&distances, 10).len(), 5);
    assert!(rank_by_distance(&distances, 0).is_empty());
}
