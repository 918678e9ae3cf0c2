# zkml

A verified core for provable machine-learning inference: Q16.16 fixed-point
arithmetic, quantized models (decision trees, logistic regression, small
ReLU networks) and their inference, commitments and Merkle proofs, the
journal and bundle wire formats, RISC Zero digest arithmetic, BN254 point
checks, and ONNX model validation and extraction.

Every function in `src/` carries a `requires`/`ensures` contract proved by
Verus. Properties that span several functions are stated and proved as
public `lemma_*` proof functions next to the code they speak about, for
example:

- `journal::lemma_decode_encode`: decoding an encoded journal gives it back;
- `bundle::lemma_from_bytes_to_bytes`, `bundle::lemma_prefix_is_truncated`,
  `bundle::lemma_hex_round_trip`;
- `commitment::lemma_from_hex_to_hex`;
- `merkle::lemma_generated_proof_verifies`;
- `bn254::lemma_mont_then_r2_is_product`;
- `inference::lemma_validated_tree_inference_succeeds`,
  `inference::lemma_small_logistic_inference_succeeds`,
  `inference::lemma_small_mlp_inference_succeeds`,
  `inference::lemma_validated_mlp_inference`,
  `inference::lemma_validated_inference_agrees`.

Layout:

- `src/` — the verified library;
- `tests/` — tests of the library on concrete values;
- `app/` — the command-line program around it: argument parsing, file I/O,
  JSON and protobuf decoding, and the floating-point work: quantizing
  real-valued parameters into fixed-point ones, and judging a `Gemm`
  node's `alpha`, `beta` and `transA`. Dense networks are read from ONNX by
  `onnx::extract_mlp` in the library.
