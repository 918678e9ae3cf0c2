//! Commitment helpers binding models and inputs to a proof.
//!
//! The commitment is a deterministic byte mixer over little-endian `i64`
//! elements. It is **not** collision-resistant: it is a stand-in that the
//! prover and the zkVM guest share so that their digests agree.
use vstd::prelude::*;

use crate::journal::{le_bytes_i64, u64_le_bytes};
use vstd::string::StringSliceAdditionalSpecFns;
use crate::models::{DenseLayer, Model, TreeNode};

verus! {

/// A 32-byte commitment value.
pub type Commitment = [u8; 32];

/// One byte update of the mixer: `(s + b) * 31 + 7`, wrapping at 256.
pub open spec fn mix_byte(s: u8, b: u8) -> u8 {
    ((((s + b) % 256) * 31 % 256 + 7) % 256) as u8
}

/// The state after absorbing the first `i` bytes of `bytes`, the bytes of
/// element number `k`, into `state`: byte `i` updates position `(k + i) % 32`.
pub open spec fn absorb_bytes(state: Seq<u8>, k: int, bytes: Seq<u8>, i: int) -> Seq<u8>
    decreases i,
{
    if i <= 0 {
        state
    } else {
        let s = absorb_bytes(state, k, bytes, i - 1);
        let idx = (k + i - 1) % 32;
        s.update(idx, mix_byte(s[idx], bytes[i - 1]))
    }
}

/// The 32-byte state after absorbing the first `n` elements.
pub open spec fn commit_state(elements: Seq<i64>, n: int) -> Seq<u8>
    decreases n,
{
    if n <= 0 {
        Seq::new(32, |i: int| 0u8)
    } else {
        absorb_bytes(commit_state(elements, n - 1), n - 1, le_bytes_i64(elements[n - 1]), 8)
    }
}

/// The commitment of a sequence of elements.
pub open spec fn spec_commit(elements: Seq<i64>) -> Seq<u8> {
    commit_state(elements, elements.len() as int)
}

proof fn lemma_mod_shift(k: int, i: int)
    requires
        0 <= k,
        0 <= i,
    ensures
        (k % 32 + i) % 32 == (k + i) % 32,
{
    vstd::arithmetic::div_mod::lemma_add_mod_noop(k, i, 32);
    vstd::arithmetic::div_mod::lemma_mod_twice(i, 32);
    vstd::arithmetic::div_mod::lemma_add_mod_noop(k % 32, i, 32);
}

fn mix_at(state: &mut [u8; 32], idx: usize, b: u8)
    requires
        idx < 32,
    ensures
        final(state)@ == old(state)@.update(idx as int, mix_byte(old(state)@[idx as int], b)),
{
    let t: u32 = ((state[idx] as u32 + b as u32) % 256 * 31 % 256 + 7) % 256;
    state[idx] = t as u8;
    assert(state@ =~= old(state)@.update(idx as int, mix_byte(old(state)@[idx as int], b)));
}

/// Fold a sequence of little-endian `i64` elements into a commitment.
///
/// Not collision-resistant; do not use it to gate any trust decision.
pub fn commit_i64(elements: &[i64]) -> (r: Commitment)
    ensures
        r@ == spec_commit(elements@),
{
    let mut state: [u8; 32] = [0u8; 32];
    assert(state@ =~= commit_state(elements@, 0));
    let mut k: usize = 0;
    while k < elements.len()
        invariant
            k <= elements@.len(),
            state@ == commit_state(elements@, k as int),
        decreases elements@.len() - k,
    {
        let eb: [u8; 8] = u64_le_bytes(elements[k] as u64);
        let ghost bytes = le_bytes_i64(elements@[k as int]);
        let ghost start = state@;
        let base: usize = k % 32;
        let mut i: usize = 0;
        while i < 8
            invariant
                i <= 8,
                base == k % 32,
                eb@ == bytes,
                bytes.len() == 8,
                start.len() == 32,
                state@ == absorb_bytes(start, k as int, bytes, i as int),
            decreases 8 - i,
        {
            let idx: usize = (base + i) % 32;
            proof {
                lemma_mod_shift(k as int, i as int);
            }
            mix_at(&mut state, idx, eb[i]);
            i = i + 1;
        }
        k = k + 1;
    }
    state
}

proof fn lemma_window_distinct(k: int, i: int, j: int)
    requires
        0 <= k,
        0 <= j < i < 32,
    ensures
        (k + j) % 32 != (k + i) % 32,
{
    vstd::arithmetic::div_mod::lemma_fundamental_div_mod(k + j, 32);
    vstd::arithmetic::div_mod::lemma_fundamental_div_mod(k + i, 32);
    if (k + j) % 32 == (k + i) % 32 {
        assert((i - j) == 32 * ((k + i) / 32) - 32 * ((k + j) / 32));
        assert(false) by (nonlinear_arith)
            requires
                (i - j) == 32 * ((k + i) / 32) - 32 * ((k + j) / 32),
                0 < i - j < 32,
        ;
    }
}

proof fn lemma_offset_of_window(k: int, j: int)
    requires
        0 <= k,
        0 <= j < 32,
    ensures
        ((k + j) % 32 - k) % 32 == j,
{
    vstd::arithmetic::div_mod::lemma_fundamental_div_mod(k + j, 32);
    let q = (k + j) / 32;
    assert((k + j) % 32 - k == j - 32 * q);
    vstd::arithmetic::div_mod::lemma_mod_multiples_vanish(-q, j, 32);
    assert(j - 32 * q == 32 * (-q) + j) by (nonlinear_arith);
    vstd::arithmetic::div_mod::lemma_small_mod(j as nat, 32);
}

proof fn lemma_mix_arith(s: u8, b: u8)
    ensures
        mix_byte(s, b) as int == ((s + b) * 31 + 7) % 256,
{
    let a = s + b;
    assert((((a % 256) * 31 % 256 + 7) % 256) == (a * 31 + 7) % 256) by (nonlinear_arith)
        requires
            0 <= a,
    {
        vstd::arithmetic::div_mod::lemma_mul_mod_noop_left(a, 31, 256);
        vstd::arithmetic::div_mod::lemma_add_mod_noop(a * 31, 7, 256);
        vstd::arithmetic::div_mod::lemma_add_mod_noop((a % 256) * 31 % 256, 7, 256);
        vstd::arithmetic::div_mod::lemma_mod_twice(a * 31, 256);
    }
}

proof fn lemma_absorb_window(state: Seq<u8>, k: int, bytes: Seq<u8>, i: int)
    requires
        state.len() == 32,
        bytes.len() == 8,
        0 <= k,
        0 <= i <= 8,
    ensures
        absorb_bytes(state, k, bytes, i).len() == 32,
        forall|j: int|
            0 <= j < i ==> #[trigger] absorb_bytes(state, k, bytes, i)[(k + j) % 32] == mix_byte(
                state[(k + j) % 32],
                bytes[j],
            ),
        forall|p: int|
            0 <= p < 32 && (p - k) % 32 >= i ==> #[trigger] absorb_bytes(state, k, bytes, i)[p] == state[p],
    decreases i,
{
    if i > 0 {
        lemma_absorb_window(state, k, bytes, i - 1);
        let s = absorb_bytes(state, k, bytes, i - 1);
        let idx = (k + i - 1) % 32;
        lemma_offset_of_window(k, i - 1);
        assert(s[idx] == state[idx]);
        assert forall|j: int| 0 <= j < i implies #[trigger] absorb_bytes(state, k, bytes, i)[(k + j) % 32]
            == mix_byte(state[(k + j) % 32], bytes[j]) by {
            if j < i - 1 {
                lemma_window_distinct(k, i - 1, j);
            }
        }
    }
}

/// Appending element `x` to `n` committed elements mixes byte `j` of `x`
/// (little-endian) into state position `(n + j) mod 32` of the 32-byte
/// state, as `(old + byte) * 31 + 7` wrapping at 256, and leaves every
/// other position of the state (those more than seven places past
/// `n mod 32`, cyclically) as it was.
pub proof fn lemma_commit_append(xs: Seq<i64>, x: i64)
    ensures
        spec_commit(xs.push(x)).len() == 32,
        forall|j: int|
            0 <= j < 8 ==> #[trigger] spec_commit(xs.push(x))[(xs.len() + j) % 32] as int == ((spec_commit(
                xs,
            )[(xs.len() + j) % 32] + le_bytes_i64(x)[j]) * 31 + 7) % 256,
        forall|p: int|
            0 <= p < 32 && (p - xs.len()) % 32 >= 8 ==> #[trigger] spec_commit(xs.push(x))[p] == spec_commit(xs)[p],
{
    let ys = xs.push(x);
    let n = xs.len() as int;
    lemma_commit_state_prefix(ys, xs, n);
    lemma_commit_state_len(xs, n);
    assert(ys[n] == x);
    let bytes = le_bytes_i64(x);
    lemma_absorb_window(spec_commit(xs), n, bytes, 8);
    assert(spec_commit(ys) == absorb_bytes(spec_commit(xs), n, bytes, 8));
    assert forall|j: int| 0 <= j < 8 implies #[trigger] spec_commit(ys)[(n + j) % 32] as int == ((spec_commit(
        xs,
    )[(n + j) % 32] + bytes[j]) * 31 + 7) % 256 by {
        lemma_mix_arith(spec_commit(xs)[(n + j) % 32], bytes[j]);
    }
}

proof fn lemma_commit_state_len(xs: Seq<i64>, n: int)
    requires
        0 <= n <= xs.len(),
    ensures
        commit_state(xs, n).len() == 32,
    decreases n,
{
    if n > 0 {
        lemma_commit_state_len(xs, n - 1);
        lemma_absorb_window(commit_state(xs, n - 1), n - 1, le_bytes_i64(xs[n - 1]), 8);
    }
}

proof fn lemma_commit_state_prefix(ys: Seq<i64>, xs: Seq<i64>, n: int)
    requires
        0 <= n <= xs.len(),
        xs.len() <= ys.len(),
        forall|i: int| 0 <= i < xs.len() ==> xs[i] == ys[i],
    ensures
        commit_state(ys, n) == commit_state(xs, n),
    decreases n,
{
    if n > 0 {
        lemma_commit_state_prefix(ys, xs, n - 1);
    }
}

/// Canonical commitment over little-endian `i64` elements; host and guest
/// both call this.
pub fn commitment_hash(elements: &[i64]) -> (r: Commitment)
    ensures
        r@ == spec_commit(elements@),
{
    commit_i64(elements)
}

/// The elements of one tree node: a split's feature, threshold and
/// children, or a leaf's value.
pub open spec fn node_elements(node: TreeNode) -> Seq<i64> {
    match node {
        TreeNode::Split { feature_index, threshold, left, right } => seq![
            feature_index as i64,
            threshold.value,
            left as i64,
            right as i64,
        ],
        TreeNode::Leaf { value } => seq![value.value],
    }
}

/// The elements of the first `n` nodes.
pub open spec fn nodes_elements(nodes: Seq<TreeNode>, n: int) -> Seq<i64>
    decreases n,
{
    if n <= 0 {
        Seq::empty()
    } else {
        nodes_elements(nodes, n - 1) + node_elements(nodes[n - 1])
    }
}

/// Raw values of a fixed-point sequence.
pub open spec fn raw_values(xs: Seq<crate::fixed_point::FixedPoint>) -> Seq<i64> {
    xs.map_values(|x: crate::fixed_point::FixedPoint| x.value)
}

/// The elements of one dense layer: weights, biases, then both sizes.
pub open spec fn layer_elements(layer: DenseLayer) -> Seq<i64> {
    raw_values(layer.weights@) + raw_values(layer.biases@) + seq![
        layer.input_size as i64,
        layer.output_size as i64,
    ]
}

/// The elements of the first `n` layers.
pub open spec fn layers_elements(layers: Seq<DenseLayer>, n: int) -> Seq<i64>
    decreases n,
{
    if n <= 0 {
        Seq::empty()
    } else {
        layers_elements(layers, n - 1) + layer_elements(layers[n - 1])
    }
}

/// The element stream that binds a model's parameters.
pub open spec fn spec_model_elements(model: Model) -> Seq<i64> {
    match model {
        Model::LogisticRegression(lr) => raw_values(lr.weights@).push(lr.bias.value),
        Model::DecisionTree(tree) => seq![tree.num_features as i64] + nodes_elements(
            tree.nodes@,
            tree.nodes@.len() as int,
        ),
        Model::TinyMLP(mlp) => layers_elements(mlp.layers@, mlp.layers@.len() as int),
    }
}

fn push_raw_values(out: &mut Vec<i64>, xs: &[crate::fixed_point::FixedPoint])
    ensures
        final(out)@ == old(out)@ + raw_values(xs@),
{
    let ghost start = out@;
    let mut i: usize = 0;
    while i < xs.len()
        invariant
            i <= xs@.len(),
            out@ == start + raw_values(xs@.take(i as int)),
        decreases xs@.len() - i,
    {
        out.push(xs[i].value);
        proof {
            assert(xs@.take(i + 1) == xs@.take(i as int).push(xs@[i as int]));
            assert(raw_values(xs@.take(i + 1)) =~= raw_values(xs@.take(i as int)).push(xs@[i as int].value));
        }
        i = i + 1;
        assert(out@ =~= start + raw_values(xs@.take(i as int)));
    }
    assert(xs@.take(i as int) == xs@);
}

/// Flatten model parameters into the element stream committed by
/// [`commitment_hash`] for model binding.
pub fn model_elements(model: &Model) -> (r: Vec<i64>)
    ensures
        r@ == spec_model_elements(*model),
{
    let mut out: Vec<i64> = Vec::new();
    match model {
        Model::LogisticRegression(lr) => {
            push_raw_values(&mut out, lr.weights.as_slice());
            out.push(lr.bias.value);
            assert(out@ =~= spec_model_elements(*model));
        },
        Model::DecisionTree(tree) => {
            out.push(tree.num_features as i64);
            let mut i: usize = 0;
            while i < tree.nodes.len()
                invariant
                    i <= tree.nodes@.len(),
                    out@ == seq![tree.num_features as i64] + nodes_elements(tree.nodes@, i as int),
                decreases tree.nodes@.len() - i,
            {
                match &tree.nodes[i] {
                    TreeNode::Split { feature_index, threshold, left, right } => {
                        out.push(*feature_index as i64);
                        out.push(threshold.value);
                        out.push(*left as i64);
                        out.push(*right as i64);
                    },
                    TreeNode::Leaf { value } => {
                        out.push(value.value);
                    },
                }
                i = i + 1;
                assert(out@ =~= seq![tree.num_features as i64] + nodes_elements(tree.nodes@, i as int));
            }
        },
        Model::TinyMLP(mlp) => {
            let mut i: usize = 0;
            while i < mlp.layers.len()
                invariant
                    i <= mlp.layers@.len(),
                    out@ == layers_elements(mlp.layers@, i as int),
                decreases mlp.layers@.len() - i,
            {
                let layer = &mlp.layers[i];
                push_raw_values(&mut out, layer.weights.as_slice());
                push_raw_values(&mut out, layer.biases.as_slice());
                out.push(layer.input_size as i64);
                out.push(layer.output_size as i64);
                i = i + 1;
                assert(out@ =~= layers_elements(mlp.layers@, i as int));
            }
        },
    }
    out
}

// ---------------------------------------------------------------------------
// Hex encoding
// ---------------------------------------------------------------------------

/// The lowercase hex digit for a nibble.
pub open spec fn hex_char(n: u8) -> char {
    if n < 10 {
        (48 + n) as char
    } else {
        (87 + n) as char
    }
}

/// Lowercase hex of a byte sequence, two digits per byte, high nibble first.
pub open spec fn hex_chars(bytes: Seq<u8>) -> Seq<char>
    decreases bytes.len(),
{
    if bytes.len() == 0 {
        Seq::empty()
    } else {
        hex_chars(bytes.drop_last()) + seq![hex_char(bytes.last() / 16), hex_char(bytes.last() % 16)]
    }
}

pub(crate) fn hex_digit(n: u8) -> (r: &'static str)
    requires
        n < 16,
    ensures
        r@ == seq![hex_char(n)],
{
    proof {
        reveal_strlit("0");
        reveal_strlit("1");
        reveal_strlit("2");
        reveal_strlit("3");
        reveal_strlit("4");
        reveal_strlit("5");
        reveal_strlit("6");
        reveal_strlit("7");
        reveal_strlit("8");
        reveal_strlit("9");
        reveal_strlit("a");
        reveal_strlit("b");
        reveal_strlit("c");
        reveal_strlit("d");
        reveal_strlit("e");
        reveal_strlit("f");
    }
    let r = match n {
        0 => "0",
        1 => "1",
        2 => "2",
        3 => "3",
        4 => "4",
        5 => "5",
        6 => "6",
        7 => "7",
        8 => "8",
        9 => "9",
        10 => "a",
        11 => "b",
        12 => "c",
        13 => "d",
        14 => "e",
        _ => "f",
    };
    assert(r@ =~= seq![hex_char(n)]);
    r
}

/// Encode a commitment as a 64-character lowercase hex string.
pub fn to_hex(c: &Commitment) -> (r: String)
    ensures
        r@ == hex_chars(c@),
{
    let mut s = String::new();
    let mut i: usize = 0;
    while i < 32
        invariant
            i <= 32,
            c@.len() == 32,
            s@ == hex_chars(c@.take(i as int)),
        decreases 32 - i,
    {
        let b = c[i];
        s.append(hex_digit(b / 16));
        s.append(hex_digit(b % 16));
        proof {
            assert(c@.take(i + 1).drop_last() == c@.take(i as int));
        }
        i = i + 1;
    }
    assert(c@.take(32) == c@);
    s
}

/// The value of an ASCII hex digit (either case).
pub open spec fn hex_val(c: u8) -> Option<u8> {
    if 0x30 <= c <= 0x39 {
        Some((c - 0x30) as u8)
    } else if 0x61 <= c <= 0x66 {
        Some((c - 0x61 + 10) as u8)
    } else if 0x41 <= c <= 0x46 {
        Some((c - 0x41 + 10) as u8)
    } else {
        None
    }
}

/// The byte spelled by two hex digits (either case), high digit first.
pub open spec fn pair_value(a: u8, b: u8) -> Option<u8> {
    match (hex_val(a), hex_val(b)) {
        (Some(h), Some(l)) => Some((h * 16 + l) as u8),
        _ => None,
    }
}

/// The first `n` byte pairs of `bytes` parse.
pub open spec fn pairs_ok(bytes: Seq<u8>, n: int) -> bool {
    forall|i: int| 0 <= i < n ==> #[trigger] pair_value(bytes[2 * i], bytes[2 * i + 1]) is Some
}

/// The commitment spelled by `bytes`, when it is 64 bytes of 32 parsable
/// pairs.
pub open spec fn spec_from_hex(bytes: Seq<u8>) -> Option<Seq<u8>> {
    if bytes.len() == 64 && pairs_ok(bytes, 32) {
        Some(Seq::new(32, |i: int| pair_value(bytes[2 * i], bytes[2 * i + 1])->0))
    } else {
        None
    }
}

pub(crate) fn hex_val_exec(c: u8) -> (r: Option<u8>)
    ensures
        r == hex_val(c),
{
    if 0x30 <= c && c <= 0x39 {
        Some(c - 0x30)
    } else if 0x61 <= c && c <= 0x66 {
        Some(c - 0x61 + 10)
    } else if 0x41 <= c && c <= 0x46 {
        Some(c - 0x41 + 10)
    } else {
        None
    }
}

fn pair_value_exec(a: u8, b: u8) -> (r: Option<u8>)
    ensures
        r == pair_value(a, b),
{
    match (hex_val_exec(a), hex_val_exec(b)) {
        (Some(h), Some(l)) => Some(h * 16 + l),
        _ => None,
    }
}

/// Decode a 64-character hex string into a commitment: `Some` exactly when
/// the text is 64 hex digits (either case), each pair giving one byte.
pub fn from_hex(s: &str) -> (r: Option<Commitment>)
    ensures
        match spec_from_hex(s.spec_bytes()) {
            Some(c) => r matches Some(v) && v@ == c,
            None => r is None,
        },
{
    let bytes = s.as_bytes();
    if bytes.len() != 64 {
        return None;
    }
    let mut out: [u8; 32] = [0u8; 32];
    let mut i: usize = 0;
    while i < 32
        invariant
            bytes@ == s.spec_bytes(),
            bytes@.len() == 64,
            i <= 32,
            pairs_ok(bytes@, i as int),
            forall|k: int| 0 <= k < i ==> #[trigger] out@[k] == pair_value(bytes@[2 * k], bytes@[2 * k + 1])->0,
        decreases 32 - i,
    {
        match pair_value_exec(bytes[2 * i], bytes[2 * i + 1]) {
            Some(v) => {
                out[i] = v;
            },
            None => {
                assert(!pairs_ok(bytes@, 32));
                return None;
            },
        }
        i = i + 1;
    }
    assert(out@ =~= Seq::new(32, |k: int| pair_value(bytes@[2 * k], bytes@[2 * k + 1])->0));
    Some(out)
}

pub(crate) proof fn lemma_hex_chars_index(bytes: Seq<u8>)
    ensures
        hex_chars(bytes).len() == 2 * bytes.len(),
        forall|i: int|
            0 <= i < bytes.len() ==> hex_chars(bytes)[2 * i] == hex_char(#[trigger] bytes[i] / 16)
                && hex_chars(bytes)[2 * i + 1] == hex_char(bytes[i] % 16),
    decreases bytes.len(),
{
    if bytes.len() > 0 {
        let p = bytes.drop_last();
        lemma_hex_chars_index(p);
        assert forall|i: int| 0 <= i < bytes.len() implies hex_chars(bytes)[2 * i] == hex_char(
            #[trigger] bytes[i] / 16,
        ) && hex_chars(bytes)[2 * i + 1] == hex_char(bytes[i] % 16) by {
            if i < p.len() {
                assert(p[i] == bytes[i]);
            }
        }
    }
}

pub(crate) proof fn lemma_hex_char_value(n: u8)
    requires
        n < 16,
    ensures
        '\0' <= hex_char(n) <= '\u{7f}',
        hex_val(hex_char(n) as u8) == Some(n),
{
}

/// Decoding the hex encoding of a commitment gives the commitment back.
pub proof fn lemma_from_hex_to_hex(c: Seq<u8>)
    requires
        c.len() == 32,
    ensures
        spec_from_hex(vstd::utf8::encode_utf8(hex_chars(c))) == Some(c),
{
    let chars = hex_chars(c);
    lemma_hex_chars_index(c);
    assert forall|i: int| 0 <= i < chars.len() implies '\0' <= #[trigger] chars[i] <= '\u{7f}' by {
        let k = i / 2;
        assert(0 <= k < 32);
        lemma_hex_char_value(c[k] / 16);
        lemma_hex_char_value(c[k] % 16);
        if i % 2 == 0 {
            assert(i == 2 * k);
        } else {
            assert(i == 2 * k + 1);
        }
    }
    vstd::utf8::is_ascii_chars_encode_utf8(chars);
    let bytes = vstd::utf8::encode_utf8(chars);
    assert forall|i: int| 0 <= i < 32 implies #[trigger] pair_value(bytes[2 * i], bytes[2 * i + 1]) == Some(c[i]) by {
        lemma_hex_char_value(c[i] / 16);
        lemma_hex_char_value(c[i] % 16);
        assert(bytes[2 * i] == chars[2 * i] as u8);
        assert(bytes[2 * i + 1] == chars[2 * i + 1] as u8);
        assert((c[i] / 16) * 16 + c[i] % 16 == c[i]);
    }
    assert(Seq::new(32, |i: int| pair_value(bytes[2 * i], bytes[2 * i + 1])->0) =~= c);
}

} // verus!
