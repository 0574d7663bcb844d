# Product Quantization vector-search laboratory

A laboratory that compares exhaustive squared-Euclidean search with Product
Quantization (PQ) and Asymmetric Distance Computation (ADC) on synthetic data.

## Layout

- `src/` — the library, written in Verus and verified. Coordinates and
  distances are carried as the bit patterns of `f32` values (`u32`); the
  library states over those bits everything it decides: vector-set checks,
  the ordering of results (`f32::total_cmp`, then vector id), the bounded
  top-k selection, exact and ADC ranking with their work counters, PQ
  layouts, encoding into nearest-centroid codes, reconstruction, k-means
  assignment and empty-cluster repair, recall hit counts, memory footprints,
  configuration checks, benchmark presets, seed derivation and report
  escaping.
- `app/` — the `pqvs` command-line program around the library: argument
  parsing, the floating-point arithmetic (distances, centroid means, ratios),
  random sampling of the synthetic datasets, timing, and writing the JSON,
  CSV, SVG and HTML artifacts.
- `tests/` — tests of the library on concrete values.
