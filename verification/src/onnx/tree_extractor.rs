//! `TreeEnsembleClassifier` extraction: converts the attributes of a single
//! ONNX tree node into the flat [`DecisionTree`] representation, then checks
//! that the result is a proper tree.
use vstd::prelude::*;

use super::proto::{AttributeProto, NodeProto};
use super::{push_decimal, push_signed, OnnxImportError};
use crate::bundle::string_from_utf8_lossy;
use crate::bundle::lossy_text;
use crate::error::{decimal, signed_decimal};
use crate::fixed_point::FixedPoint;
use crate::models::{
    children_in_range, dfs_inv, lemma_dfs_finished, lemma_dfs_start, lemma_dfs_step, lemma_dfs_top,
    reached, walk, walks_cover, walks_injective, DecisionTree, TreeNode,
};
use crate::prover::str_eq;
use vstd::set_lib::{lemma_int_range, lemma_len_subset, set_int_range};

verus! {

// ---------------------------------------------------------------------------
// Attribute lookup
// ---------------------------------------------------------------------------

/// Index of the first attribute from position `i` on whose name is `name`.
pub open spec fn attr_from(attrs: Seq<AttributeProto>, name: Seq<char>, i: int) -> Option<int>
    decreases attrs.len() - i,
{
    if i >= attrs.len() {
        None
    } else if attrs[i].name@ == name {
        Some(i)
    } else {
        attr_from(attrs, name, i + 1)
    }
}

/// The first attribute of `node` named `name`.
pub open spec fn attr_named(node: NodeProto, name: Seq<char>) -> Option<AttributeProto> {
    match attr_from(node.attribute@, name, 0) {
        Some(k) => Some(node.attribute@[k]),
        None => None,
    }
}

/// The integer values of the attribute named `name`, when there is one.
pub open spec fn ints_named(node: NodeProto, name: Seq<char>) -> Option<Seq<i64>> {
    match attr_named(node, name) {
        Some(a) => Some(a.ints@),
        None => None,
    }
}

/// The quantized float values of the attribute named `name`.
pub open spec fn floats_named(node: NodeProto, name: Seq<char>) -> Option<Seq<FixedPoint>> {
    match attr_named(node, name) {
        Some(a) => Some(a.floats@),
        None => None,
    }
}

/// The string values, as bytes, of the attribute named `name`.
pub open spec fn strings_named(node: NodeProto, name: Seq<char>) -> Option<Seq<Seq<u8>>> {
    match attr_named(node, name) {
        Some(a) => Some(a.strings@.map_values(|b: Vec<u8>| b@)),
        None => None,
    }
}

/// Position in `node.attribute` of the first attribute named `name`.
pub(crate) fn attribute_index(node: &NodeProto, name: &str) -> (r: Option<usize>)
    ensures
        match r {
            Some(k) => attr_from(node.attribute@, name@, 0) == Some(k as int) && k < node.attribute@.len(),
            None => attr_from(node.attribute@, name@, 0) is None,
        },
{
    let mut i: usize = 0;
    while i < node.attribute.len()
        invariant
            i <= node.attribute@.len(),
            attr_from(node.attribute@, name@, 0) == attr_from(node.attribute@, name@, i as int),
        decreases node.attribute@.len() - i,
    {
        if str_eq(node.attribute[i].name.as_str(), name) {
            return Some(i);
        }
        i = i + 1;
    }
    None
}

// ---------------------------------------------------------------------------
// What a tree node holds
// ---------------------------------------------------------------------------

/// The attributes that describe one tree, as read from the node.
pub ghost struct TreeAttrs {
    /// `nodes_treeids`: the tree of each node.
    pub treeids: Seq<i64>,
    /// `nodes_nodeids`: the id of each node.
    pub nodeids: Seq<i64>,
    /// `nodes_featureids`: the feature a split reads.
    pub featureids: Seq<i64>,
    /// `nodes_values`: the split thresholds.
    pub values: Seq<FixedPoint>,
    /// `nodes_modes`: `BRANCH_LEQ` or `LEAF`, as bytes.
    pub modes: Seq<Seq<u8>>,
    /// `nodes_truenodeids`: the child id taken when the test holds.
    pub trueids: Seq<i64>,
    /// `nodes_falsenodeids`: the child id taken otherwise.
    pub falseids: Seq<i64>,
    /// `class_ids`: the class of each weight entry.
    pub class_ids: Seq<i64>,
    /// `class_weights`: the leaf values.
    pub class_weights: Seq<FixedPoint>,
    /// `class_nodeids`: the leaf id each weight belongs to.
    pub class_nodeids: Seq<i64>,
    /// `class_treeids`: the tree of each weight entry.
    pub class_treeids: Seq<i64>,
}

/// The tree attributes of `node`, when every one of them is present.
pub open spec fn tree_attrs(node: NodeProto) -> Option<TreeAttrs> {
    if ints_named(node, "nodes_treeids"@) is Some && ints_named(node, "nodes_nodeids"@) is Some
        && ints_named(node, "nodes_featureids"@) is Some && floats_named(node, "nodes_values"@) is Some
        && strings_named(node, "nodes_modes"@) is Some && ints_named(node, "nodes_truenodeids"@) is Some
        && ints_named(node, "nodes_falsenodeids"@) is Some && ints_named(node, "class_ids"@) is Some
        && floats_named(node, "class_weights"@) is Some && ints_named(node, "class_nodeids"@) is Some
        && ints_named(node, "class_treeids"@) is Some {
        Some(
            TreeAttrs {
                treeids: ints_named(node, "nodes_treeids"@)->0,
                nodeids: ints_named(node, "nodes_nodeids"@)->0,
                featureids: ints_named(node, "nodes_featureids"@)->0,
                values: floats_named(node, "nodes_values"@)->0,
                modes: strings_named(node, "nodes_modes"@)->0,
                trueids: ints_named(node, "nodes_truenodeids"@)->0,
                falseids: ints_named(node, "nodes_falsenodeids"@)->0,
                class_ids: ints_named(node, "class_ids"@)->0,
                class_weights: floats_named(node, "class_weights"@)->0,
                class_nodeids: ints_named(node, "class_nodeids"@)->0,
                class_treeids: ints_named(node, "class_treeids"@)->0,
            },
        )
    } else {
        None
    }
}

/// Every entry of `ids` names the same tree.
pub open spec fn single_tree(ids: Seq<i64>) -> bool {
    forall|a: int, b: int| 0 <= a < ids.len() && 0 <= b < ids.len() ==> #[trigger] ids[a] == #[trigger] ids[b]
}

/// The per-node attributes all have one entry per node.
pub open spec fn lengths_agree(t: TreeAttrs) -> bool {
    let n = t.featureids.len();
    &&& t.nodeids.len() == n
    &&& t.values.len() == n
    &&& t.modes.len() == n
    &&& t.trueids.len() == n
    &&& t.falseids.len() == n
}

/// The checks made before the class table is read: a single tree, and
/// per-node attributes of one length.
pub open spec fn header_ok(t: TreeAttrs) -> bool {
    single_tree(t.treeids) && lengths_agree(t)
}

/// The first `k` entries of the class tree ids exist and are all tree 0.
pub open spec fn zero_prefix(ids: Seq<i64>, k: int) -> bool {
    &&& k <= ids.len()
    &&& forall|p: int| 0 <= p < k ==> #[trigger] ids[p] == 0
}

proof fn lemma_zero_prefix_shorter(ids: Seq<i64>, k: int, j: int)
    requires
        zero_prefix(ids, k),
        0 <= j <= k,
    ensures
        zero_prefix(ids, j),
{
}

/// The class table is read in bounds: walking the class node ids in order,
/// each entry whose tree id is read has one, and each entry that passes the
/// tree check has a weight.
pub open spec fn class_table_in_bounds(t: TreeAttrs) -> bool {
    forall|k: int|
        #![trigger zero_prefix(t.class_treeids, k)]
        0 <= k < t.class_nodeids.len() && zero_prefix(t.class_treeids, k) ==> k < t.class_treeids.len() && (
        t.class_treeids[k] == 0 ==> k < t.class_weights.len())
}

/// Extraction of `node` reads its class table in bounds: this is what
/// [`extract_tree`] needs of its input.
pub open spec fn tree_node_in_bounds(node: NodeProto) -> bool {
    match tree_attrs(node) {
        Some(t) => header_ok(t) ==> class_table_in_bounds(t),
        None => true,
    }
}

/// Position of the last entry equal to `id` among the first `end` of `ids`.
pub open spec fn last_index_of(ids: Seq<i64>, id: i64, end: int) -> Option<int>
    decreases end,
{
    if end <= 0 {
        None
    } else if ids[end - 1] == id {
        Some(end - 1)
    } else {
        last_index_of(ids, id, end - 1)
    }
}

/// The bytes of `BRANCH_LEQ`.
pub open spec fn branch_leq() -> Seq<u8> {
    seq![66u8, 82u8, 65u8, 78u8, 67u8, 72u8, 95u8, 76u8, 69u8, 81u8]
}

/// The bytes of `LEAF`.
pub open spec fn leaf_mode() -> Seq<u8> {
    seq![76u8, 69u8, 65u8, 70u8]
}

/// The tree node built for position `i`, `None` when that position is
/// rejected: a split whose feature is out of range or whose child ids are
/// unknown, a leaf without a class weight, or another mode.
pub open spec fn node_at(t: TreeAttrs, num_features: usize, i: int) -> Option<TreeNode> {
    let n = t.featureids.len() as int;
    if t.modes[i] == branch_leq() {
        let f = t.featureids[i] as usize;
        if f >= num_features {
            None
        } else {
            match (last_index_of(t.nodeids, t.trueids[i], n), last_index_of(t.nodeids, t.falseids[i], n)) {
                (Some(l), Some(r)) => Some(
                    TreeNode::Split { feature_index: f, threshold: t.values[i], left: l as usize, right: r as usize },
                ),
                _ => None,
            }
        }
    } else if t.modes[i] == leaf_mode() {
        match last_index_of(t.class_nodeids, t.nodeids[i], t.class_nodeids.len() as int) {
            Some(k) => Some(TreeNode::Leaf { value: t.class_weights[k] }),
            None => None,
        }
    } else {
        None
    }
}

/// The flat node list built from the attributes.
pub open spec fn tree_nodes(t: TreeAttrs, num_features: usize) -> Seq<TreeNode> {
    Seq::new(t.featureids.len(), |i: int| node_at(t, num_features, i)->0)
}

/// The structure checks of [`validate_tree_structure`]: a non-empty node
/// list whose children are in range, in which the root reaches every node
/// by exactly one path.
pub open spec fn tree_structure_ok(nodes: Seq<TreeNode>) -> bool {
    &&& children_in_range(nodes)
    &&& nodes.len() > 0
    &&& walks_injective(nodes)
    &&& walks_cover(nodes)
}

/// Extraction of `node` succeeds: every attribute is present, there is a
/// single tree, the per-node attributes agree in length, every class entry
/// is in tree 0, every position yields a node, and the result is a tree.
pub open spec fn tree_extracts(node: NodeProto, num_features: usize) -> bool {
    match tree_attrs(node) {
        None => false,
        Some(t) => {
            &&& header_ok(t)
            &&& zero_prefix(t.class_treeids, t.class_nodeids.len() as int)
            &&& forall|i: int| 0 <= i < t.featureids.len() ==> (#[trigger] node_at(t, num_features, i)) is Some
            &&& tree_structure_ok(tree_nodes(t, num_features))
        },
    }
}

// ---------------------------------------------------------------------------
// Executable helpers
// ---------------------------------------------------------------------------

/// Whether two byte strings are equal.
fn bytes_eq(a: &[u8], b: &[u8]) -> (r: bool)
    ensures
        r == (a@ == b@),
{
    if a.len() != b.len() {
        return false;
    }
    let mut i: usize = 0;
    while i < a.len()
        invariant
            a@.len() == b@.len(),
            i <= a@.len(),
            forall|k: int| 0 <= k < i ==> a@[k] == b@[k],
        decreases a@.len() - i,
    {
        if a[i] != b[i] {
            assert(a@[i as int] != b@[i as int]);
            return false;
        }
        i = i + 1;
    }
    assert(a@ =~= b@);
    true
}

/// Position of the last entry of `ids` equal to `id`.
fn last_index(ids: &[i64], id: i64) -> (r: Option<usize>)
    ensures
        match r {
            Some(k) => last_index_of(ids@, id, ids@.len() as int) == Some(k as int) && k < ids@.len(),
            None => last_index_of(ids@, id, ids@.len() as int) is None,
        },
{
    let mut j: usize = ids.len();
    while j > 0
        invariant
            j <= ids@.len(),
            last_index_of(ids@, id, ids@.len() as int) == last_index_of(ids@, id, j as int),
        decreases j,
    {
        if ids[j - 1] == id {
            return Some(j - 1);
        }
        j = j - 1;
    }
    None
}

/// The number of distinct values in `ids`; at most one exactly when all
/// entries name the same tree.
fn count_distinct(ids: &[i64]) -> (r: usize)
    ensures
        r <= ids@.len(),
        r <= 1 <==> single_tree(ids@),
        r == ids@.to_set().len(),
{
    let mut count: usize = 0;
    let mut i: usize = 0;
    assert(ids@.take(0).to_set() =~= Set::<i64>::empty());
    while i < ids.len()
        invariant
            i <= ids@.len(),
            count <= i,
            count == 0 <==> i == 0,
            count <= 1 <==> forall|a: int, b: int| 0 <= a < i && 0 <= b < i ==> #[trigger] ids@[a] == #[trigger] ids@[b],
            count == ids@.take(i as int).to_set().len(),
        decreases ids@.len() - i,
    {
        let mut seen = false;
        let mut j: usize = 0;
        while j < i
            invariant
                i < ids@.len(),
                j <= i,
                seen <==> exists|a: int| 0 <= a < j && ids@[a] == ids@[i as int],
            decreases i - j,
        {
            if ids[j] == ids[i] {
                seen = true;
            }
            j = j + 1;
        }
        proof {
            let before = ids@.take(i as int);
            assert(ids@.take(i + 1) =~= before.push(ids@[i as int]));
            before.lemma_push_to_set_commute(ids@[i as int]);
            vstd::seq_lib::seq_to_set_is_finite(before);
            vstd::set::axiom_set_insert_len(before.to_set(), ids@[i as int]);
            if seen {
                let a = choose|a: int| 0 <= a < i && ids@[a] == ids@[i as int];
                assert(before[a] == ids@[i as int]);
                assert(before.contains(ids@[i as int]));
            } else {
                assert(!before.contains(ids@[i as int])) by {
                    if before.contains(ids@[i as int]) {
                        let a = choose|a: int| 0 <= a < before.len() && before[a] == ids@[i as int];
                        assert(ids@[a] == ids@[i as int]);
                    }
                }
            }
        }
        if !seen {
            proof {
                if i > 0 {
                    assert(ids@[0] != ids@[i as int]);
                }
            }
            count = count + 1;
        } else {
            proof {
                let a0 = choose|a: int| 0 <= a < i && ids@[a] == ids@[i as int];
                if count <= 1 {
                    assert forall|a: int, b: int| 0 <= a < i + 1 && 0 <= b < i + 1 implies #[trigger] ids@[a]
                        == #[trigger] ids@[b] by {
                        assert(ids@[a0] == ids@[0]);
                        assert(ids@[a] == ids@[0] || a == i);
                        assert(ids@[b] == ids@[0] || b == i);
                    }
                }
            }
        }
        i = i + 1;
    }
    assert(ids@.take(ids@.len() as int) =~= ids@);
    count
}

/// A malformed-model error with a fixed message.
fn malformed(text: &str) -> (e: OnnxImportError)
    ensures
        e matches OnnxImportError::MalformedModel(m) && m@ == text@,
{
    OnnxImportError::MalformedModel(text.to_owned())
}

/// The integer values of the attribute named `name`, or the "missing"
/// error naming it.
fn required_ints<'a>(node: &'a NodeProto, name: &str, missing: &str) -> (r: Result<&'a Vec<i64>, OnnxImportError>)
    ensures
        match ints_named(*node, name@) {
            Some(v) => r matches Ok(w) && w@ == v,
            None => r matches Err(OnnxImportError::MalformedModel(m)) && m@ == missing@,
        },
{
    match attribute_index(node, name) {
        Some(k) => Ok(&node.attribute[k].ints),
        None => Err(malformed(missing)),
    }
}

/// The error for a float or string attribute that is absent.
fn missing_attribute(name: &str) -> (e: OnnxImportError)
    ensures
        e matches OnnxImportError::MalformedModel(m) && m@ == "missing attribute '"@ + name@ + "'"@,
{
    let mut msg = String::new();
    msg.append("missing attribute '");
    msg.append(name);
    msg.append("'");
    proof {
        assert(Seq::<char>::empty() + "missing attribute '"@ + name@ + "'"@ =~= "missing attribute '"@ + name@
            + "'"@);
    }
    OnnxImportError::MalformedModel(msg)
}

/// The quantized float values of the attribute named `name`.
fn required_floats<'a>(node: &'a NodeProto, name: &str) -> (r: Result<&'a Vec<FixedPoint>, OnnxImportError>)
    ensures
        match floats_named(*node, name@) {
            Some(v) => r matches Ok(w) && w@ == v,
            None => r matches Err(OnnxImportError::MalformedModel(m)) && m@ == "missing attribute '"@ + name@ + "'"@,
        },
{
    match attribute_index(node, name) {
        Some(k) => Ok(&node.attribute[k].floats),
        None => Err(missing_attribute(name)),
    }
}

/// The byte-string values of the attribute named `name`.
fn required_strings<'a>(node: &'a NodeProto, name: &str) -> (r: Result<&'a Vec<Vec<u8>>, OnnxImportError>)
    ensures
        match strings_named(*node, name@) {
            Some(v) => r matches Ok(w) && w@.map_values(|b: Vec<u8>| b@) == v,
            None => r matches Err(OnnxImportError::MalformedModel(m)) && m@ == "missing attribute '"@ + name@ + "'"@,
        },
{
    match attribute_index(node, name) {
        Some(k) => Ok(&node.attribute[k].strings),
        None => Err(missing_attribute(name)),
    }
}

/// Whether the class table of `node` would be read in bounds by
/// [`extract_tree`]; callers test this before extracting.
pub fn leaf_table_in_bounds(node: &NodeProto) -> (r: bool)
    ensures
        r == tree_node_in_bounds(*node),
{
    let ghost ot = tree_attrs(*node);
    let treeids = match attribute_index(node, "nodes_treeids") {
        Some(k) => &node.attribute[k].ints,
        None => {
            return true;
        },
    };
    let nodeids = match attribute_index(node, "nodes_nodeids") {
        Some(k) => &node.attribute[k].ints,
        None => {
            return true;
        },
    };
    let featureids = match attribute_index(node, "nodes_featureids") {
        Some(k) => &node.attribute[k].ints,
        None => {
            return true;
        },
    };
    let values = match attribute_index(node, "nodes_values") {
        Some(k) => &node.attribute[k].floats,
        None => {
            return true;
        },
    };
    let modes = match attribute_index(node, "nodes_modes") {
        Some(k) => &node.attribute[k].strings,
        None => {
            return true;
        },
    };
    let trueids = match attribute_index(node, "nodes_truenodeids") {
        Some(k) => &node.attribute[k].ints,
        None => {
            return true;
        },
    };
    let falseids = match attribute_index(node, "nodes_falsenodeids") {
        Some(k) => &node.attribute[k].ints,
        None => {
            return true;
        },
    };
    let _class_ids = match attribute_index(node, "class_ids") {
        Some(k) => &node.attribute[k].ints,
        None => {
            return true;
        },
    };
    let class_weights = match attribute_index(node, "class_weights") {
        Some(k) => &node.attribute[k].floats,
        None => {
            return true;
        },
    };
    let class_nodeids = match attribute_index(node, "class_nodeids") {
        Some(k) => &node.attribute[k].ints,
        None => {
            return true;
        },
    };
    let class_treeids = match attribute_index(node, "class_treeids") {
        Some(k) => &node.attribute[k].ints,
        None => {
            return true;
        },
    };
    let ghost t = ot->0;
    assert(t.modes.len() == modes@.len());
    if count_distinct(treeids.as_slice()) > 1 {
        return true;
    }
    let n = featureids.len();
    if nodeids.len() != n || values.len() != n || modes.len() != n || trueids.len() != n || falseids.len() != n {
        return true;
    }
    assert(header_ok(t));
    let mut k: usize = 0;
    while k < class_nodeids.len()
        invariant
            tree_attrs(*node) == Some(t),
            header_ok(t),
            t.class_nodeids == class_nodeids@,
            t.class_treeids == class_treeids@,
            t.class_weights == class_weights@,
            k <= class_nodeids@.len(),
            zero_prefix(class_treeids@, k as int),
            forall|j: int|
                #![trigger zero_prefix(t.class_treeids, j)]
                0 <= j < k && zero_prefix(t.class_treeids, j) ==> j < t.class_treeids.len() && (t.class_treeids[j]
                    == 0 ==> j < t.class_weights.len()),
        decreases class_nodeids@.len() - k,
    {
        if k >= class_treeids.len() {
            assert(t.class_nodeids[k as int] == class_nodeids@[k as int]);
            assert(!class_table_in_bounds(t));
            return false;
        }
        if class_treeids[k] != 0 {
            assert forall|j: int|
                #![trigger zero_prefix(t.class_treeids, j)]
                0 <= j < t.class_nodeids.len() && zero_prefix(t.class_treeids, j) implies j < t.class_treeids.len()
                    && (t.class_treeids[j] == 0 ==> j < t.class_weights.len()) by {
                assert(t.class_nodeids[j] == class_nodeids@[j]);
                if j > k {
                    assert(t.class_treeids[k as int] == 0);
                }
            }
            assert(class_table_in_bounds(t));
            return true;
        }
        if k >= class_weights.len() {
            assert(t.class_nodeids[k as int] == class_nodeids@[k as int]);
            assert(!class_table_in_bounds(t));
            return false;
        }
        k = k + 1;
    }
    assert(class_table_in_bounds(t));
    true
}

// ---------------------------------------------------------------------------
// Extraction
// ---------------------------------------------------------------------------

/// The message for the first attribute after `nodes_treeids` that is
/// missing, in the order extraction reads them.
pub open spec fn missing_attribute_text(node: NodeProto) -> Option<Seq<char>> {
    if ints_named(node, "nodes_nodeids"@) is None {
        Some("missing nodes_nodeids"@)
    } else if ints_named(node, "nodes_featureids"@) is None {
        Some("missing nodes_featureids"@)
    } else if floats_named(node, "nodes_values"@) is None {
        Some("missing attribute '"@ + "nodes_values"@ + "'"@)
    } else if strings_named(node, "nodes_modes"@) is None {
        Some("missing attribute '"@ + "nodes_modes"@ + "'"@)
    } else if ints_named(node, "nodes_truenodeids"@) is None {
        Some("missing nodes_truenodeids"@)
    } else if ints_named(node, "nodes_falsenodeids"@) is None {
        Some("missing nodes_falsenodeids"@)
    } else if ints_named(node, "class_ids"@) is None {
        Some("missing class_ids"@)
    } else if floats_named(node, "class_weights"@) is None {
        Some("missing attribute '"@ + "class_weights"@ + "'"@)
    } else if ints_named(node, "class_nodeids"@) is None {
        Some("missing class_nodeids"@)
    } else if ints_named(node, "class_treeids"@) is None {
        Some("missing class_treeids"@)
    } else {
        None
    }
}

/// The message for position `i` when it yields no node.
pub open spec fn node_error_text(t: TreeAttrs, num_features: usize, i: int) -> Seq<char> {
    let n = t.featureids.len() as int;
    if t.modes[i] == branch_leq() {
        let f = t.featureids[i] as usize;
        if f >= num_features {
            "node "@ + decimal(i as nat) + ": feature index "@ + decimal(f as nat) + " out of range (num_features="@
                + decimal(num_features as nat) + ")"@
        } else if last_index_of(t.nodeids, t.trueids[i], n) is None {
            "node "@ + decimal(i as nat) + ": true child node id "@ + signed_decimal(t.trueids[i] as int)
                + " not found in nodes_nodeids"@
        } else {
            "node "@ + decimal(i as nat) + ": false child node id "@ + signed_decimal(t.falseids[i] as int)
                + " not found in nodes_nodeids"@
        }
    } else if t.modes[i] == leaf_mode() {
        "node "@ + decimal(i as nat) + ": leaf node id "@ + signed_decimal(t.nodeids[i] as int)
            + " not found in class_nodeids"@
    } else {
        "unsupported node mode '"@ + lossy_text(t.modes[i]) + "' (only BRANCH_LEQ and LEAF are supported)"@
    }
}

/// What a failed extraction reports, check by check in the order they run:
/// a missing tree id list; more than one tree (with the number of trees);
/// the next missing attribute; attribute lists of different lengths; a
/// class entry outside tree 0; the first position that yields no node;
/// else what the structure check reports.
pub open spec fn tree_error_text(node: NodeProto, num_features: usize, m: Seq<char>) -> bool {
    match ints_named(node, "nodes_treeids"@) {
        None => m == "missing nodes_treeids"@,
        Some(ids) => if !single_tree(ids) {
            m == "Multi-tree ensembles are not yet supported (found "@ + decimal(ids.to_set().len()) + " trees)"@
        } else {
            match missing_attribute_text(node) {
                Some(text) => m == text,
                None => {
                    let t = tree_attrs(node)->0;
                    if !lengths_agree(t) {
                        m == "inconsistent tree attribute lengths"@
                    } else if !zero_prefix(t.class_treeids, t.class_nodeids.len() as int) {
                        m == "multi-tree class weights not supported"@
                    } else if exists|i: int| 0 <= i < t.featureids.len() && #[trigger] node_at(t, num_features, i) is None {
                        forall|i: int|
                            0 <= i < t.featureids.len() && #[trigger] node_at(t, num_features, i) is None && (forall|
                                j: int,
                            | 0 <= j < i ==> node_at(t, num_features, j) is Some) ==> m == node_error_text(
                                t,
                                num_features,
                                i,
                            )
                    } else {
                        structure_error_text(tree_nodes(t, num_features), m)
                    }
                },
            }
        },
    }
}

/// Extract a [`DecisionTree`] from a `TreeEnsembleClassifier` node.
///
/// Only single trees are supported, and only the `BRANCH_LEQ` and `LEAF`
/// node modes. Child node ids are mapped to positions (the last position
/// listing an id wins), leaf values come from `class_weights` through
/// `class_nodeids` (again the last entry wins), and the resulting tree must
/// pass [`validate_tree_structure`]. Every error is a
/// [`OnnxImportError::MalformedModel`].
pub fn extract_tree(node: &NodeProto, num_features: usize) -> (r: Result<DecisionTree, OnnxImportError>)
    requires
        tree_node_in_bounds(*node),
    ensures
        r is Ok <==> tree_extracts(*node, num_features),
        r matches Ok(tree) ==> tree.nodes@ == tree_nodes(tree_attrs(*node)->0, num_features)
            && tree.num_features == num_features,
        r matches Err(e) ==> e is MalformedModel,
        r matches Err(OnnxImportError::MalformedModel(m)) ==> tree_error_text(*node, num_features, m@),
{
    let ghost ot = tree_attrs(*node);
    let treeids = match required_ints(node, "nodes_treeids", "missing nodes_treeids") {
        Ok(v) => v,
        Err(e) => {
            return Err(e);
        },
    };
    let num_trees = count_distinct(treeids.as_slice());
    if num_trees > 1 {
        let mut msg = String::new();
        msg.append("Multi-tree ensembles are not yet supported (found ");
        push_decimal(&mut msg, num_trees as u64);
        msg.append(" trees)");
        proof {
            assert(!single_tree(treeids@));
        }
        return Err(OnnxImportError::MalformedModel(msg));
    }
    let nodeids = match required_ints(node, "nodes_nodeids", "missing nodes_nodeids") {
        Ok(v) => v,
        Err(e) => {
            return Err(e);
        },
    };
    let featureids = match required_ints(node, "nodes_featureids", "missing nodes_featureids") {
        Ok(v) => v,
        Err(e) => {
            return Err(e);
        },
    };
    let values = match required_floats(node, "nodes_values") {
        Ok(v) => v,
        Err(e) => {
            return Err(e);
        },
    };
    let modes = match required_strings(node, "nodes_modes") {
        Ok(v) => v,
        Err(e) => {
            return Err(e);
        },
    };
    let trueids = match required_ints(node, "nodes_truenodeids", "missing nodes_truenodeids") {
        Ok(v) => v,
        Err(e) => {
            return Err(e);
        },
    };
    let falseids = match required_ints(node, "nodes_falsenodeids", "missing nodes_falsenodeids") {
        Ok(v) => v,
        Err(e) => {
            return Err(e);
        },
    };
    let _class_ids = match required_ints(node, "class_ids", "missing class_ids") {
        Ok(v) => v,
        Err(e) => {
            return Err(e);
        },
    };
    let class_weights = match required_floats(node, "class_weights") {
        Ok(v) => v,
        Err(e) => {
            return Err(e);
        },
    };
    let class_nodeids = match required_ints(node, "class_nodeids", "missing class_nodeids") {
        Ok(v) => v,
        Err(e) => {
            return Err(e);
        },
    };
    let class_treeids = match required_ints(node, "class_treeids", "missing class_treeids") {
        Ok(v) => v,
        Err(e) => {
            return Err(e);
        },
    };
    let ghost t = ot->0;
    proof {
        assert(t.modes.len() == modes@.len());
    }
    let num_nodes = featureids.len();
    if nodeids.len() != num_nodes || values.len() != num_nodes || modes.len() != num_nodes || trueids.len()
        != num_nodes || falseids.len() != num_nodes {
        return Err(malformed("inconsistent tree attribute lengths"));
    }
    assert(header_ok(t));
    // Every class entry must belong to tree 0.
    let mut k: usize = 0;
    while k < class_nodeids.len()
        invariant
            tree_attrs(*node) == Some(t),
            header_ok(t),
            t.class_nodeids == class_nodeids@,
            t.class_treeids == class_treeids@,
            t.class_weights == class_weights@,
            class_table_in_bounds(t),
            k <= class_nodeids@.len(),
            zero_prefix(class_treeids@, k as int),
        decreases class_nodeids@.len() - k,
    {
        assert(t.class_nodeids[k as int] == class_nodeids@[k as int]);
        if class_treeids[k] != 0 {
            assert(t.class_treeids[k as int] != 0);
            assert(!zero_prefix(t.class_treeids, t.class_nodeids.len() as int));
            return Err(malformed("multi-tree class weights not supported"));
        }
        k = k + 1;
    }
    assert(zero_prefix(t.class_treeids, t.class_nodeids.len() as int));
    proof {
        if class_nodeids@.len() > 0 {
            let last = class_nodeids@.len() - 1;
            lemma_zero_prefix_shorter(t.class_treeids, t.class_nodeids.len() as int, last);
            assert(zero_prefix(t.class_treeids, last));
            assert(t.class_treeids[last] == 0);
        }
    }
    assert(class_nodeids@.len() <= class_weights@.len());
    // Build the flat node vector.
    let mut nodes: Vec<TreeNode> = Vec::new();
    let mut i: usize = 0;
    while i < num_nodes
        invariant
            tree_attrs(*node) == Some(t),
            header_ok(t),
            zero_prefix(t.class_treeids, t.class_nodeids.len() as int),
            num_nodes == t.featureids.len(),
            t.featureids == featureids@,
            t.nodeids == nodeids@,
            t.values == values@,
            t.modes == modes@.map_values(|b: Vec<u8>| b@),
            t.trueids == trueids@,
            t.falseids == falseids@,
            t.class_weights == class_weights@,
            t.class_nodeids == class_nodeids@,
            header_ok(t),
            class_nodeids@.len() <= class_weights@.len(),
            i <= num_nodes,
            nodes@.len() == i,
            forall|j: int| 0 <= j < i ==> (#[trigger] node_at(t, num_features, j)) is Some && nodes@[j] == node_at(
                t,
                num_features,
                j,
            )->0,
        decreases num_nodes - i,
    {
        let mode: &Vec<u8> = &modes[i];
        assert(t.modes[i as int] == mode@);
        let branch: [u8; 10] = [66, 82, 65, 78, 67, 72, 95, 76, 69, 81];
        let leaf: [u8; 4] = [76, 69, 65, 70];
        assert(branch@ =~= branch_leq());
        assert(leaf@ =~= leaf_mode());
        if bytes_eq(mode.as_slice(), &branch) {
            let feature_index = featureids[i] as usize;
            if feature_index >= num_features {
                proof {
                    assert(node_at(t, num_features, i as int) is None);
                }
                let mut msg = String::new();
                msg.append("node ");
                push_decimal(&mut msg, i as u64);
                msg.append(": feature index ");
                push_decimal(&mut msg, feature_index as u64);
                msg.append(" out of range (num_features=");
                push_decimal(&mut msg, num_features as u64);
                msg.append(")");
                return Err(OnnxImportError::MalformedModel(msg));
            }
            let threshold = values[i];
            let true_child_id = trueids[i];
            let false_child_id = falseids[i];
            let left = match last_index(nodeids.as_slice(), true_child_id) {
                Some(l) => l,
                None => {
                    proof {
                        assert(node_at(t, num_features, i as int) is None);
                    }
                    let mut msg = String::new();
                    msg.append("node ");
                    push_decimal(&mut msg, i as u64);
                    msg.append(": true child node id ");
                    push_signed(&mut msg, true_child_id);
                    msg.append(" not found in nodes_nodeids");
                    return Err(OnnxImportError::MalformedModel(msg));
                },
            };
            let right = match last_index(nodeids.as_slice(), false_child_id) {
                Some(r) => r,
                None => {
                    proof {
                        assert(node_at(t, num_features, i as int) is None);
                    }
                    let mut msg = String::new();
                    msg.append("node ");
                    push_decimal(&mut msg, i as u64);
                    msg.append(": false child node id ");
                    push_signed(&mut msg, false_child_id);
                    msg.append(" not found in nodes_nodeids");
                    return Err(OnnxImportError::MalformedModel(msg));
                },
            };
            nodes.push(TreeNode::Split { feature_index, threshold, left, right });
        } else if bytes_eq(mode.as_slice(), &leaf) {
            let node_id = nodeids[i];
            let k = match last_index(class_nodeids.as_slice(), node_id) {
                Some(k) => k,
                None => {
                    proof {
                        assert(node_at(t, num_features, i as int) is None);
                    }
                    let mut msg = String::new();
                    msg.append("node ");
                    push_decimal(&mut msg, i as u64);
                    msg.append(": leaf node id ");
                    push_signed(&mut msg, node_id);
                    msg.append(" not found in class_nodeids");
                    return Err(OnnxImportError::MalformedModel(msg));
                },
            };
            nodes.push(TreeNode::Leaf { value: class_weights[k] });
        } else {
            proof {
                assert(node_at(t, num_features, i as int) is None);
            }
            let mut msg = String::new();
            msg.append("unsupported node mode '");
            let text = string_from_utf8_lossy(mode.as_slice());
            msg.append(text.as_str());
            msg.append("' (only BRANCH_LEQ and LEAF are supported)");
            return Err(OnnxImportError::MalformedModel(msg));
        }
        i = i + 1;
    }
    assert(nodes@ =~= tree_nodes(t, num_features));
    let tree = DecisionTree { nodes, num_features };
    match validate_tree_structure(&tree) {
        Ok(()) => Ok(tree),
        Err(e) => Err(e),
    }
}

// ---------------------------------------------------------------------------
// Structural validation
// ---------------------------------------------------------------------------

/// The complaint about the first split from `i` on with a child out of
/// range, if any.
pub open spec fn child_error_from(nodes: Seq<TreeNode>, i: int) -> Option<Seq<char>>
    decreases nodes.len() - i,
{
    if i < 0 || i >= nodes.len() {
        None
    } else {
        match nodes[i] {
            TreeNode::Split { left, right, .. } => if left >= nodes.len() {
                Some(
                    "node "@ + decimal(i as nat) + ": left child index "@ + decimal(left as nat)
                        + " out of bounds (num_nodes="@ + decimal(nodes.len()) + ")"@,
                )
            } else if right >= nodes.len() {
                Some(
                    "node "@ + decimal(i as nat) + ": right child index "@ + decimal(right as nat)
                        + " out of bounds (num_nodes="@ + decimal(nodes.len()) + ")"@,
                )
            } else {
                child_error_from(nodes, i + 1)
            },
            TreeNode::Leaf { .. } => child_error_from(nodes, i + 1),
        }
    }
}

/// What a failed structure check may report: the first split with a child
/// out of range; else an empty tree; else, where no node is reached twice,
/// the first node not reached; else the node at which the depth-first walk
/// meets a node a second time.
pub open spec fn structure_error_text(nodes: Seq<TreeNode>, m: Seq<char>) -> bool {
    match child_error_from(nodes, 0) {
        Some(t) => m == t,
        None => if nodes.len() == 0 {
            m == "invalid node index 0 during traversal"@
        } else if walks_injective(nodes) {
            exists|k: int|
                0 <= k < nodes.len() && !#[trigger] reached(nodes, k) && (forall|j: int|
                    0 <= j < k ==> reached(nodes, j)) && m == "node "@ + decimal(k as nat)
                    + " is not reachable from root"@
        } else {
            exists|k: int| 0 <= k < nodes.len() && m == "cycle detected at node "@ + #[trigger] decimal(k as nat)
        },
    }
}

/// Validate the tree structure: child indices in bounds, no node reached
/// twice from the root (so no cycle), and every node reachable. An empty
/// node list fails at the root. Every error is a
/// [`OnnxImportError::MalformedModel`].
pub fn validate_tree_structure(tree: &DecisionTree) -> (r: Result<(), OnnxImportError>)
    ensures
        r is Ok <==> tree_structure_ok(tree.nodes@),
        r matches Err(e) ==> e is MalformedModel,
        r matches Err(OnnxImportError::MalformedModel(m)) ==> structure_error_text(tree.nodes@, m@),
{
    let ghost nodes = tree.nodes@;
    let num_nodes = tree.nodes.len();
    let mut i: usize = 0;
    while i < num_nodes
        invariant
            num_nodes == nodes.len(),
            nodes == tree.nodes@,
            i <= num_nodes,
            forall|j: int|
                0 <= j < i ==> match #[trigger] nodes[j] {
                    TreeNode::Split { left, right, .. } => left < nodes.len() && right < nodes.len(),
                    TreeNode::Leaf { .. } => true,
                },
            child_error_from(nodes, 0) == child_error_from(nodes, i as int),
        decreases num_nodes - i,
    {
        match &tree.nodes[i] {
            TreeNode::Split { left, right, .. } => {
                if *left >= num_nodes {
                    let mut msg = String::new();
                    msg.append("node ");
                    push_decimal(&mut msg, i as u64);
                    msg.append(": left child index ");
                    push_decimal(&mut msg, *left as u64);
                    msg.append(" out of bounds (num_nodes=");
                    push_decimal(&mut msg, num_nodes as u64);
                    msg.append(")");
                    return Err(OnnxImportError::MalformedModel(msg));
                }
                if *right >= num_nodes {
                    let mut msg = String::new();
                    msg.append("node ");
                    push_decimal(&mut msg, i as u64);
                    msg.append(": right child index ");
                    push_decimal(&mut msg, *right as u64);
                    msg.append(" out of bounds (num_nodes=");
                    push_decimal(&mut msg, num_nodes as u64);
                    msg.append(")");
                    return Err(OnnxImportError::MalformedModel(msg));
                }
            },
            TreeNode::Leaf { .. } => {},
        }
        i = i + 1;
    }
    assert(children_in_range(nodes));
    assert(child_error_from(nodes, 0) is None);
    if num_nodes == 0 {
        return Err(malformed("invalid node index 0 during traversal"));
    }
    let mut visited: Vec<bool> = Vec::new();
    let mut m: usize = 0;
    while m < num_nodes
        invariant
            m <= num_nodes,
            visited@.len() == m,
            forall|j: int| 0 <= j < m ==> !(#[trigger] visited@[j]),
        decreases num_nodes - m,
    {
        visited.push(false);
        m = m + 1;
    }
    // Depth-first walk from the root; each entry is a node and its depth.
    let mut stack: Vec<(usize, usize)> = Vec::new();
    stack.push((0, 0));
    let ghost bound = num_nodes as int;
    let ghost mut paths: Seq<Seq<bool>> = seq![Seq::<bool>::empty()];
    let ghost mut done: Set<Seq<bool>> = Set::empty();
    let ghost mut vis: Set<int> = Set::empty();
    proof {
        lemma_dfs_start(nodes, visited@, bound);
        assert(stack@ =~= seq![(0usize, 0usize)]);
    }
    while stack.len() > 0
        invariant
            num_nodes == nodes.len(),
            nodes == tree.nodes@,
            num_nodes > 0,
            bound == num_nodes as int,
            children_in_range(nodes),
            child_error_from(nodes, 0) is None,
            dfs_inv(nodes, visited@, stack@, paths, done, bound),
            visited@.len() == num_nodes,
            vis.finite(),
            vis.subset_of(set_int_range(0, num_nodes as int)),
            forall|j: int| #[trigger] vis.contains(j) <==> 0 <= j < num_nodes && visited@[j],
            forall|j: int| 0 <= j < paths.len() ==> (#[trigger] paths[j]).len() <= vis.len(),
        decreases 3 * (num_nodes - vis.len()) + stack@.len(),
    {
        proof {
            lemma_int_range(0, num_nodes as int);
            lemma_len_subset(vis, set_int_range(0, num_nodes as int));
            lemma_dfs_top(nodes, visited@, stack@, paths, done, bound);
        }
        let ghost old_stack = stack@;
        let ghost old_paths = paths;
        let ghost old_done = done;
        let ghost old_visited = visited@;
        let ghost old_vis = vis;
        let ghost q = paths.last();
        let (node_idx, depth) = stack.pop().unwrap();
        proof {
            assert(old_stack.last() == (node_idx, depth));
            assert(q.len() == depth);
            paths = paths.drop_last();
        }
        if visited[node_idx] {
            let mut msg = String::new();
            msg.append("cycle detected at node ");
            push_decimal(&mut msg, node_idx as u64);
            assert(msg@ == "cycle detected at node "@ + decimal(node_idx as nat));
            assert(!walks_injective(nodes));
            assert(0 <= node_idx < nodes.len());
            proof {
                let k = node_idx as int;
                assert(decimal(k as nat) == decimal(node_idx as nat));
                assert(0 <= k < nodes.len() && msg@ == "cycle detected at node "@ + decimal(k as nat));
            }
            assert(structure_error_text(nodes, msg@));
            return Err(OnnxImportError::MalformedModel(msg));
        }
        visited.set(node_idx, true);
        proof {
            done = done.insert(q);
            assert(!vis.contains(node_idx as int));
            vis = vis.insert(node_idx as int);
            assert(vis.subset_of(set_int_range(0, num_nodes as int)));
            lemma_len_subset(vis, set_int_range(0, num_nodes as int));
            assert(vis.len() == old_vis.len() + 1);
            assert(depth <= old_vis.len());
        }
        match &tree.nodes[node_idx] {
            TreeNode::Split { left, right, .. } => {
                stack.push((*left, depth + 1));
                stack.push((*right, depth + 1));
                proof {
                    paths = paths.push(q.push(false)).push(q.push(true));
                }
            },
            TreeNode::Leaf { .. } => {},
        }
        proof {
            lemma_dfs_step(nodes, bound, visited@, stack@, paths, done,
                old_visited, old_stack, old_paths, old_done, q, node_idx);
            assert forall|j: int| 0 <= j < paths.len() implies (#[trigger] paths[j]).len() <= vis.len() by {
                if j < old_paths.len() - 1 {
                    assert(paths[j] == old_paths[j]);
                }
            }
            assert(stack@.len() <= old_stack.len() + 1);
        }
    }
    proof {
        lemma_dfs_finished(nodes, visited@, stack@, paths, done, bound);
    }
    let mut m: usize = 0;
    while m < num_nodes
        invariant
            num_nodes == nodes.len(),
            nodes == tree.nodes@,
            num_nodes > 0,
            m <= num_nodes,
            visited@.len() == num_nodes,
            children_in_range(nodes),
            child_error_from(nodes, 0) is None,
            walks_injective(nodes),
            forall|k: int| 0 <= k < num_nodes ==> (#[trigger] visited@[k] <==> reached(nodes, k)),
            forall|j: int| 0 <= j < m ==> #[trigger] reached(nodes, j),
        decreases num_nodes - m,
    {
        if !visited[m] {
            proof {
                assert(!reached(nodes, m as int));
                assert(!walks_cover(nodes));
            }
            let mut msg = String::new();
            msg.append("node ");
            push_decimal(&mut msg, m as u64);
            msg.append(" is not reachable from root");
            assert(msg@ == "node "@ + decimal(m as nat) + " is not reachable from root"@);
            return Err(OnnxImportError::MalformedModel(msg));
        }
        m = m + 1;
    }
    Ok(())
}

proof fn lemma_last_index_of(ids: Seq<i64>, id: i64, end: int)
    requires
        0 <= end <= ids.len(),
    ensures
        last_index_of(ids, id, end) matches Some(l) ==> 0 <= l < end && ids[l] == id && forall|m: int|
            l < m < end ==> ids[m] != id,
        last_index_of(ids, id, end) is None ==> forall|m: int| 0 <= m < end ==> ids[m] != id,
    decreases end,
{
    if end > 0 {
        lemma_last_index_of(ids, id, end - 1);
    }
}

/// The last position below `end` that lists `id` is `l`.
pub open spec fn last_listed_at(ids: Seq<i64>, id: i64, end: int, l: int) -> bool {
    &&& 0 <= l < end
    &&& ids[l] == id
    &&& forall|m: int| l < m < end ==> ids[m] != id
}

/// The node at position `i` splits on the feature the attributes name at
/// `i`, at the threshold they give, with the children whose node ids they
/// name (the last position listing each id).
pub open spec fn split_as_listed(t: TreeAttrs, num_features: usize, i: int, n: TreeNode) -> bool {
    match n {
        TreeNode::Split { feature_index, threshold, left, right } => {
            &&& feature_index == t.featureids[i] as usize
            &&& feature_index < num_features
            &&& threshold == t.values[i]
            &&& last_listed_at(t.nodeids, t.trueids[i], t.featureids.len() as int, left as int)
            &&& last_listed_at(t.nodeids, t.falseids[i], t.featureids.len() as int, right as int)
        },
        TreeNode::Leaf { .. } => false,
    }
}

/// The node at position `i` is a leaf holding the class weight that the
/// last class entry for its node id gives.
pub open spec fn leaf_as_listed(t: TreeAttrs, i: int, n: TreeNode) -> bool {
    match n {
        TreeNode::Leaf { value } => exists|k: int|
            #[trigger] last_listed_at(t.class_nodeids, t.nodeids[i], t.class_nodeids.len() as int, k) && value
                == t.class_weights[k],
        TreeNode::Split { .. } => false,
    }
}

/// Every position of an extracted tree is what the node's attributes say at
/// that position: a `BRANCH_LEQ` position is a split on exactly the feature
/// `nodes_featureids` names, at the threshold `nodes_values` gives, towards
/// the positions listing its true and false node ids; a `LEAF` position
/// holds the class weight listed for its node id.
pub proof fn lemma_extracted_nodes_follow_attributes(node: NodeProto, num_features: usize, i: int)
    requires
        tree_extracts(node, num_features),
        0 <= i < tree_attrs(node)->0.featureids.len(),
        tree_attrs(node)->0.featureids.len() <= usize::MAX,
    ensures
        tree_attrs(node)->0.modes[i] == branch_leq() ==> split_as_listed(
            tree_attrs(node)->0,
            num_features,
            i,
            tree_nodes(tree_attrs(node)->0, num_features)[i],
        ),
        tree_attrs(node)->0.modes[i] == leaf_mode() ==> leaf_as_listed(
            tree_attrs(node)->0,
            i,
            tree_nodes(tree_attrs(node)->0, num_features)[i],
        ),
{
    let t = tree_attrs(node)->0;
    let n = t.featureids.len() as int;
    assert(node_at(t, num_features, i) is Some);
    assert(lengths_agree(t));
    lemma_last_index_of(t.nodeids, t.trueids[i], n);
    lemma_last_index_of(t.nodeids, t.falseids[i], n);
    lemma_last_index_of(t.class_nodeids, t.nodeids[i], t.class_nodeids.len() as int);
    if t.modes[i] == branch_leq() {
        let l = last_index_of(t.nodeids, t.trueids[i], n)->0;
        let r = last_index_of(t.nodeids, t.falseids[i], n)->0;
        assert((l as usize) as int == l);
        assert((r as usize) as int == r);
    }
    if t.modes[i] == leaf_mode() && t.modes[i] != branch_leq() {
        let k = last_index_of(t.class_nodeids, t.nodeids[i], t.class_nodeids.len() as int)->0;
        assert(last_listed_at(t.class_nodeids, t.nodeids[i], t.class_nodeids.len() as int, k));
    }
}

} // verus!
