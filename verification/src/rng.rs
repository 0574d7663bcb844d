//! Deterministic seed derivation (SplitMix64 finaliser).

use vstd::prelude::*;

verus! {

/// Namespace tag of the stream that draws the latent distribution.
pub const DISTRIBUTION_TAG: u64 = 0x4449_5354_5249_4255;
/// Namespace tag of the training-vector stream.
pub const TRAINING_TAG: u64 = 0x0054_5241_494E;
/// Namespace tag of the database-vector stream.
pub const DATABASE_TAG: u64 = 0x4441_5441_4241_5345;
/// Namespace tag of the query-vector stream.
pub const QUERY_TAG: u64 = 0x0051_5545_5249_4553;
/// Namespace tag of the k-means seeds.
pub const KMEANS_TAG: u64 = 0x4B4D_4541_4E53;

/// Product modulo `2^64`.
#[verifier::opaque]
pub open spec fn wrapped_product(value: u64, factor: u64) -> u64 {
    vstd::wrapping::u64_specs::wrapping_mul(value, factor)
}

/// The SplitMix64 finaliser, over 64-bit wrapping arithmetic.
pub open spec fn spec_mix64(value: u64) -> u64 {
    let a = vstd::wrapping::u64_specs::wrapping_add(value, 0x9E37_79B9_7F4A_7C15u64);
    let b = wrapped_product(a ^ (a >> 30u64), 0xBF58_476D_1CE4_E5B9u64);
    let c = wrapped_product(b ^ (b >> 27u64), 0x94D0_49BB_1331_11EBu64);
    c ^ (c >> 31u64)
}

/// Seed of the stream named `tag` under `master_seed`.
pub open spec fn spec_derive_seed(master_seed: u64, tag: u64) -> u64 {
    spec_mix64(master_seed ^ tag)
}

/// Folds the k-means parameters, in order, into the k-means namespace seed.
pub open spec fn spec_derive_kmeans_seed(
    master_seed: u64,
    dimension: u64,
    subspaces: u64,
    centroids_per_subspace: u64,
    subspace_index: u64,
) -> u64 {
    let s0 = spec_derive_seed(master_seed, KMEANS_TAG);
    let s1 = spec_mix64(s0 ^ dimension);
    let s2 = spec_mix64(s1 ^ subspaces);
    let s3 = spec_mix64(s2 ^ centroids_per_subspace);
    spec_mix64(s3 ^ subspace_index)
}

/// Mixes the bits of `value` (SplitMix64 finaliser).
pub fn mix64(value: u64) -> (mixed: u64)
    ensures
        mixed == spec_mix64(value),
{
    proof {
        reveal(wrapped_product);
    }
    let mut value = value;
    value = value.wrapping_add(0x9E37_79B9_7F4A_7C15);
    value = (value ^ (value >> 30u64)).wrapping_mul(0xBF58_476D_1CE4_E5B9);
    value = (value ^ (value >> 27u64)).wrapping_mul(0x94D0_49BB_1331_11EB);
    value ^ (value >> 31u64)
}

/// Seed of the stream named `tag` under `master_seed`.
pub fn derive_seed(master_seed: u64, tag: u64) -> (seed: u64)
    ensures
        seed == spec_derive_seed(master_seed, tag),
{
    mix64(master_seed ^ tag)
}

/// Seed of the k-means run of one subspace of one PQ configuration.
pub fn derive_kmeans_seed(
    master_seed: u64,
    dimension: usize,
    subspaces: usize,
    centroids_per_subspace: usize,
    subspace_index: usize,
) -> (seed: u64)
    ensures
        seed == spec_derive_kmeans_seed(
            master_seed,
            dimension as u64,
            subspaces as u64,
            centroids_per_subspace as u64,
            subspace_index as u64,
        ),
{
    let mut seed = derive_seed(master_seed, KMEANS_TAG);
    seed = mix64(seed ^ (dimension as u64));
    seed = mix64(seed ^ (subspaces as u64));
    seed = mix64(seed ^ (centroids_per_subspace as u64));
    seed = mix64(seed ^ (subspace_index as u64));
    seed
}

/// Xor with its own right shift loses no bits.
proof fn lemma_xorshift_injective(a: u64, b: u64, shift: u64)
    requires
        shift == 27 || shift == 30 || shift == 31,
        a ^ (a >> shift) == b ^ (b >> shift),
    ensures
        a == b,
{
    if shift == 27 {
        assert(a == b) by (bit_vector)
            requires
                a ^ (a >> 27u64) == b ^ (b >> 27u64),
        ;
    } else if shift == 30 {
        assert(a == b) by (bit_vector)
            requires
                a ^ (a >> 30u64) == b ^ (b >> 30u64),
        ;
    } else {
        assert(a == b) by (bit_vector)
            requires
                a ^ (a >> 31u64) == b ^ (b >> 31u64),
        ;
    }
}

/// Multiplying by a constant that has an inverse modulo `2^64` loses no bits.
proof fn lemma_wrapping_mul_injective(a: u64, b: u64, factor: u64, inverse: u64)
    requires
        (factor as int * inverse as int) % 0x1_0000_0000_0000_0000 == 1,
        wrapped_product(a, factor) == wrapped_product(b, factor),
    ensures
        a == b,
{
    reveal(wrapped_product);
    let m: int = 0x1_0000_0000_0000_0000;
    assert forall|x: u64| #![trigger vstd::wrapping::u64_specs::wrapping_mul(x, factor)]
        ((vstd::wrapping::u64_specs::wrapping_mul(x, factor) as int) * (inverse as int)) % m == x by {
        let product = (x as int) * (factor as int);
        assert(vstd::wrapping::u64_specs::wrapping_mul(x, factor) as int == product % m);
        vstd::arithmetic::div_mod::lemma_mul_mod_noop_left(product, inverse as int, m);
        assert((x as int) * (factor as int) * (inverse as int) == (x as int) * ((factor as int)
            * (inverse as int))) by (nonlinear_arith);
        vstd::arithmetic::div_mod::lemma_mul_mod_noop_right(
            x as int,
            (factor as int) * (inverse as int),
            m,
        );
        vstd::arithmetic::div_mod::lemma_small_mod(x as nat, m as nat);
    }
}

/// Distinct inputs mix to distinct outputs: the finaliser is a bijection.
pub proof fn lemma_mix64_injective(a: u64, b: u64)
    requires
        spec_mix64(a) == spec_mix64(b),
    ensures
        a == b,
{
    let a1 = vstd::wrapping::u64_specs::wrapping_add(a, 0x9E37_79B9_7F4A_7C15u64);
    let b1 = vstd::wrapping::u64_specs::wrapping_add(b, 0x9E37_79B9_7F4A_7C15u64);
    let a2 = wrapped_product(a1 ^ (a1 >> 30u64), 0xBF58_476D_1CE4_E5B9u64);
    let b2 = wrapped_product(b1 ^ (b1 >> 30u64), 0xBF58_476D_1CE4_E5B9u64);
    let a3 = wrapped_product(a2 ^ (a2 >> 27u64), 0x94D0_49BB_1331_11EBu64);
    let b3 = wrapped_product(b2 ^ (b2 >> 27u64), 0x94D0_49BB_1331_11EBu64);
    lemma_xorshift_injective(a3, b3, 31);
    lemma_wrapping_mul_injective(
        a2 ^ (a2 >> 27u64),
        b2 ^ (b2 >> 27u64),
        0x94D0_49BB_1331_11EBu64,
        0x3196_42B2_D24D_8EC3u64,
    );
    lemma_xorshift_injective(a2, b2, 27);
    lemma_wrapping_mul_injective(
        a1 ^ (a1 >> 30u64),
        b1 ^ (b1 >> 30u64),
        0xBF58_476D_1CE4_E5B9u64,
        0x96DE_1B17_3F11_9089u64,
    );
    lemma_xorshift_injective(a1, b1, 30);
}

/// Under one master seed, distinct namespace tags derive distinct seeds.
pub proof fn lemma_derived_seeds_are_namespaced(master_seed: u64, tag: u64, other_tag: u64)
    requires
        tag != other_tag,
    ensures
        spec_derive_seed(master_seed, tag) != spec_derive_seed(master_seed, other_tag),
{
    if spec_derive_seed(master_seed, tag) == spec_derive_seed(master_seed, other_tag) {
        lemma_mix64_injective(master_seed ^ tag, master_seed ^ other_tag);
        assert(tag == other_tag) by (bit_vector)
            requires
                master_seed ^ tag == master_seed ^ other_tag,
        ;
    }
}

/// Under one master seed and one configuration, distinct subspaces derive
/// distinct k-means seeds.
pub proof fn lemma_kmeans_seeds_differ_per_subspace(
    master_seed: u64,
    dimension: u64,
    subspaces: u64,
    centroids_per_subspace: u64,
    subspace_index: u64,
    other_subspace_index: u64,
)
    requires
        subspace_index != other_subspace_index,
    ensures
        spec_derive_kmeans_seed(
            master_seed,
            dimension,
            subspaces,
            centroids_per_subspace,
            subspace_index,
        ) != spec_derive_kmeans_seed(
            master_seed,
            dimension,
            subspaces,
            centroids_per_subspace,
            other_subspace_index,
        ),
{
    let s0 = spec_derive_seed(master_seed, KMEANS_TAG);
    let s1 = spec_mix64(s0 ^ dimension);
    let s2 = spec_mix64(s1 ^ subspaces);
    let s3 = spec_mix64(s2 ^ centroids_per_subspace);
    if spec_mix64(s3 ^ subspace_index) == spec_mix64(s3 ^ other_subspace_index) {
        lemma_mix64_injective(s3 ^ subspace_index, s3 ^ other_subspace_index);
        assert(subspace_index == other_subspace_index) by (bit_vector)
            requires
                s3 ^ subspace_index == s3 ^ other_subspace_index,
        ;
    }
}

} // verus!
