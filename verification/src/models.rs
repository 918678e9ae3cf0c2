//! Model representation types: decision trees, logistic regression and tiny
//! multi-layer perceptrons over fixed-point parameters, with their structural
//! validation.
use vstd::prelude::*;

use crate::error::{decimal, push_decimal, ZkmlError};
use crate::fixed_point::FixedPoint;
use vstd::set_lib::{lemma_int_range, lemma_len_subset, set_int_range};

verus! {

/// A single node in a binary decision tree.
#[derive(Debug, Clone, PartialEq, Eq)]
pub enum TreeNode {
    /// Internal split node.
    Split {
        /// Index of the feature to evaluate.
        feature_index: usize,
        /// Threshold value (fixed-point).
        threshold: FixedPoint,
        /// Index of the left child node.
        left: usize,
        /// Index of the right child node.
        right: usize,
    },
    /// Terminal leaf node.
    Leaf {
        /// The predicted class label or regression value.
        value: FixedPoint,
    },
}

/// A complete decision tree represented as a flat node vector.
#[derive(Debug, Clone)]
pub struct DecisionTree {
    /// Flat array of tree nodes; index 0 is the root.
    pub nodes: Vec<TreeNode>,
    /// Number of input features expected.
    pub num_features: usize,
}

/// A binary logistic regression model.
#[derive(Debug, Clone)]
pub struct LogisticRegression {
    /// Weight vector (one per feature), in fixed-point.
    pub weights: Vec<FixedPoint>,
    /// Bias term, in fixed-point.
    pub bias: FixedPoint,
}

/// A single dense (fully connected) layer.
#[derive(Debug, Clone)]
pub struct DenseLayer {
    /// Weight matrix stored in row-major order: `weights[j * input_size + i]`.
    pub weights: Vec<FixedPoint>,
    /// Bias vector, one entry per output neuron.
    pub biases: Vec<FixedPoint>,
    /// Number of input neurons.
    pub input_size: usize,
    /// Number of output neurons.
    pub output_size: usize,
}

/// A small multi-layer perceptron with quantized ReLU activations after every
/// layer but the last.
#[derive(Debug, Clone)]
pub struct TinyMLP {
    /// Ordered list of dense layers.
    pub layers: Vec<DenseLayer>,
}

/// Enum over supported model architectures.
#[derive(Debug, Clone)]
pub enum Model {
    DecisionTree(DecisionTree),
    LogisticRegression(LogisticRegression),
    TinyMLP(TinyMLP),
}

/// Maximum depth accepted by [`DecisionTree::validate`].
pub const MAX_TREE_DEPTH: usize = 1000;

// ---------------------------------------------------------------------------
// TinyMLP validation
// ---------------------------------------------------------------------------

/// `a * b`, saturating at `usize::MAX`.
pub open spec fn sat_mul(a: usize, b: usize) -> int {
    if a * b > usize::MAX { usize::MAX as int } else { a * b }
}

/// The shape of one layer is self-consistent.
pub open spec fn layer_shape_ok(l: DenseLayer) -> bool {
    &&& l.weights@.len() == sat_mul(l.input_size, l.output_size)
    &&& l.biases@.len() == l.output_size
}

/// The layer list is non-empty, every layer is self-consistent and
/// consecutive layers chain.
pub open spec fn mlp_valid(layers: Seq<DenseLayer>) -> bool {
    &&& layers.len() > 0
    &&& forall|i: int| 0 <= i < layers.len() ==> #[trigger] layer_shape_ok(layers[i])
    &&& forall|i: int|
        0 <= i < layers.len() - 1 ==> (#[trigger] layers[i]).output_size == layers[i + 1].input_size
}

/// The complaint about the first layer from `i` on whose weight or bias
/// count is wrong, if any.
pub open spec fn shape_error_from(layers: Seq<DenseLayer>, i: int) -> Option<Seq<char>>
    decreases layers.len() - i,
{
    if i < 0 || i >= layers.len() {
        None
    } else if layers[i].weights@.len() != sat_mul(layers[i].input_size, layers[i].output_size) {
        Some(
            "expected "@ + decimal(sat_mul(layers[i].input_size, layers[i].output_size) as nat) + " weights, got "@
                + decimal(layers[i].weights@.len()),
        )
    } else if layers[i].biases@.len() != layers[i].output_size {
        Some(
            "expected "@ + decimal(layers[i].output_size as nat) + " biases, got "@ + decimal(layers[i].biases@.len()),
        )
    } else {
        shape_error_from(layers, i + 1)
    }
}

/// The complaint about the first pair of consecutive layers from `j` on
/// that do not chain, if any.
pub open spec fn chain_error_from(layers: Seq<DenseLayer>, j: int) -> Option<Seq<char>>
    decreases layers.len() - j,
{
    if j < 0 || j + 1 >= layers.len() {
        None
    } else if layers[j].output_size != layers[j + 1].input_size {
        Some(
            "layer "@ + decimal(j as nat) + " output_size "@ + decimal(layers[j].output_size as nat)
                + " does not match layer "@ + decimal((j + 1) as nat) + " input_size "@ + decimal(
                layers[j + 1].input_size as nat,
            ),
        )
    } else {
        chain_error_from(layers, j + 1)
    }
}

/// The message of a failed network validation: no layers, then the first
/// layer with a wrong weight or bias count, then the first break in the
/// chain.
pub open spec fn mlp_error_text(layers: Seq<DenseLayer>) -> Seq<char> {
    if layers.len() == 0 {
        "TinyMLP must have at least one layer"@
    } else {
        match shape_error_from(layers, 0) {
            Some(t) => t,
            None => chain_error_from(layers, 0)->0,
        }
    }
}

impl TinyMLP {
    /// Validate layer weight/bias lengths and that consecutive layers chain.
    pub fn validate(&self) -> (r: Result<(), ZkmlError>)
        ensures
            r is Ok <==> mlp_valid(self.layers@),
            r matches Err(e) ==> e is InvalidModel,
            r matches Err(ZkmlError::InvalidModel(m)) ==> m@ == mlp_error_text(self.layers@),
    {
        if self.layers.len() == 0 {
            return Err(ZkmlError::InvalidModel("TinyMLP must have at least one layer".to_string()));
        }
        let mut i: usize = 0;
        while i < self.layers.len()
            invariant
                i <= self.layers@.len(),
                self.layers@.len() > 0,
                forall|k: int| 0 <= k < i ==> #[trigger] layer_shape_ok(self.layers@[k]),
                shape_error_from(self.layers@, 0) == shape_error_from(self.layers@, i as int),
            decreases self.layers@.len() - i,
        {
            let layer = &self.layers[i];
            let expected_weights: usize = match layer.input_size.checked_mul(layer.output_size) {
                Some(v) => v,
                None => usize::MAX,
            };
            proof {
                assert(expected_weights == sat_mul(layer.input_size, layer.output_size));
            }
            if layer.weights.len() != expected_weights {
                proof { assert(!layer_shape_ok(self.layers@[i as int])); }
                let mut msg = String::new();
                msg.append("expected ");
                push_decimal(&mut msg, expected_weights as u64);
                msg.append(" weights, got ");
                push_decimal(&mut msg, layer.weights.len() as u64);
                return Err(ZkmlError::InvalidModel(msg));
            }
            if layer.biases.len() != layer.output_size {
                proof { assert(!layer_shape_ok(self.layers@[i as int])); }
                let mut msg = String::new();
                msg.append("expected ");
                push_decimal(&mut msg, layer.output_size as u64);
                msg.append(" biases, got ");
                push_decimal(&mut msg, layer.biases.len() as u64);
                return Err(ZkmlError::InvalidModel(msg));
            }
            i = i + 1;
        }
        let mut j: usize = 0;
        while j < self.layers.len() - 1
            invariant
                self.layers@.len() > 0,
                shape_error_from(self.layers@, 0) is None,
                chain_error_from(self.layers@, 0) == chain_error_from(self.layers@, j as int),
                j <= self.layers@.len() - 1,
                forall|k: int| 0 <= k < self.layers@.len() ==> #[trigger] layer_shape_ok(self.layers@[k]),
                forall|k: int| 0 <= k < j ==> (#[trigger] self.layers@[k]).output_size == self.layers@[k + 1].input_size,
            decreases self.layers@.len() - j,
        {
            if self.layers[j].output_size != self.layers[j + 1].input_size {
                proof { assert(!mlp_valid(self.layers@)); }
                let mut msg = String::new();
                msg.append("layer ");
                push_decimal(&mut msg, j as u64);
                msg.append(" output_size ");
                push_decimal(&mut msg, self.layers[j].output_size as u64);
                msg.append(" does not match layer ");
                push_decimal(&mut msg, (j + 1) as u64);
                msg.append(" input_size ");
                push_decimal(&mut msg, self.layers[j + 1].input_size as u64);
                return Err(ZkmlError::InvalidModel(msg));
            }
            j = j + 1;
        }
        Ok(())
    }
}

// ---------------------------------------------------------------------------
// Decision tree validation
// ---------------------------------------------------------------------------

/// The node reached from the root by following `dirs` (`false` = left,
/// `true` = right), if every node passed on the way is an in-range split.
pub open spec fn walk(nodes: Seq<TreeNode>, dirs: Seq<bool>) -> Option<int>
    decreases dirs.len(),
{
    if dirs.len() == 0 {
        Some(0)
    } else {
        match walk(nodes, dirs.drop_last()) {
            Some(k) => if 0 <= k < nodes.len() {
                match nodes[k] {
                    TreeNode::Split { left, right, .. } => Some(
                        if dirs.last() { right as int } else { left as int },
                    ),
                    TreeNode::Leaf { .. } => None,
                }
            } else {
                None
            },
            None => None,
        }
    }
}

/// The local checks on node `i`: in-range feature and children, and no
/// split that points at itself.
pub open spec fn node_local_ok(nodes: Seq<TreeNode>, num_features: usize, i: int) -> bool {
    match nodes[i] {
        TreeNode::Split { feature_index, left, right, .. } => {
            &&& feature_index < num_features
            &&& left < nodes.len()
            &&& right < nodes.len()
            &&& left != i
            &&& right != i
        },
        TreeNode::Leaf { .. } => true,
    }
}

/// Every node passes its local checks.
pub open spec fn all_nodes_local_ok(nodes: Seq<TreeNode>, num_features: usize) -> bool {
    forall|i: int| 0 <= i < nodes.len() ==> #[trigger] node_local_ok(nodes, num_features, i)
}

/// No node is reached by two different paths from the root (in particular
/// there is no cycle).
pub open spec fn walks_injective(nodes: Seq<TreeNode>) -> bool {
    forall|d1: Seq<bool>, d2: Seq<bool>|
        #![trigger walk(nodes, d1), walk(nodes, d2)]
        walk(nodes, d1) is Some && walk(nodes, d2) is Some && d1 != d2 ==> walk(nodes, d1) != walk(
            nodes,
            d2,
        )
}

/// Every path from the root has at most `MAX_TREE_DEPTH` steps.
pub open spec fn walks_bounded(nodes: Seq<TreeNode>) -> bool {
    walks_within(nodes, MAX_TREE_DEPTH as int)
}

/// Every path from the root has at most `bound` steps.
pub open spec fn walks_within(nodes: Seq<TreeNode>, bound: int) -> bool {
    forall|d: Seq<bool>| #[trigger] walk(nodes, d) is Some ==> d.len() <= bound
}

/// Every split names children inside the node list.
pub open spec fn children_in_range(nodes: Seq<TreeNode>) -> bool {
    forall|i: int|
        0 <= i < nodes.len() ==> match #[trigger] nodes[i] {
            TreeNode::Split { left, right, .. } => left < nodes.len() && right < nodes.len(),
            TreeNode::Leaf { .. } => true,
        }
}

/// Node `k` is reached from the root by some path.
pub open spec fn reached(nodes: Seq<TreeNode>, k: int) -> bool {
    exists|d: Seq<bool>| #[trigger] walk(nodes, d) == Some(k)
}

/// Every node is reached from the root.
pub open spec fn walks_cover(nodes: Seq<TreeNode>) -> bool {
    forall|k: int| 0 <= k < nodes.len() ==> #[trigger] reached(nodes, k)
}

/// A well-formed decision tree: non-empty, locally consistent, and the
/// nodes reachable from the root form a tree of depth at most
/// `MAX_TREE_DEPTH` that covers every node.
pub open spec fn tree_well_formed(nodes: Seq<TreeNode>, num_features: usize) -> bool {
    &&& nodes.len() > 0
    &&& all_nodes_local_ok(nodes, num_features)
    &&& walks_injective(nodes)
    &&& walks_bounded(nodes)
    &&& walks_cover(nodes)
}

/// `p` is a prefix of `d`.
pub open spec fn is_prefix(p: Seq<bool>, d: Seq<bool>) -> bool {
    p.len() <= d.len() && d.take(p.len() as int) == p
}

proof fn lemma_walk_prefix(nodes: Seq<TreeNode>, d: Seq<bool>, k: int)
    requires
        walk(nodes, d) is Some,
        0 <= k <= d.len(),
    ensures
        walk(nodes, d.take(k)) is Some,
        k < d.len() ==> {
            let n = walk(nodes, d.take(k))->0;
            &&& 0 <= n < nodes.len()
            &&& nodes[n] is Split
            &&& walk(nodes, d.take(k + 1)) == Some(
                match nodes[n] {
                    TreeNode::Split { left, right, .. } => if d[k] { right as int } else { left as int },
                    TreeNode::Leaf { .. } => 0int,
                },
            )
        },
    decreases d.len() - k,
{
    if k < d.len() {
        lemma_walk_prefix(nodes, d, k + 1);
        assert(d.take(k + 1).drop_last() =~= d.take(k));
    } else {
        assert(d.take(k) =~= d);
    }
}

pub(crate) proof fn lemma_walk_push(nodes: Seq<TreeNode>, q: Seq<bool>, b: bool)
    ensures
        q.push(b).drop_last() =~= q,
        q.push(b).last() == b,
        walk(nodes, q.push(b)) == (match walk(nodes, q) {
            Some(k) => if 0 <= k < nodes.len() {
                match nodes[k] {
                    TreeNode::Split { left, right, .. } => Some(if b { right as int } else { left as int }),
                    TreeNode::Leaf { .. } => None,
                }
            } else {
                None
            },
            None => None,
        }),
{
    assert(q.push(b).drop_last() =~= q);
}

/// Stack entries of the depth-first walk: valid walks tagged with their
/// length, not yet done, pairwise distinct, whose parents are done.
pub open spec fn dfs_stack_ok(
    nodes: Seq<TreeNode>,
    stack: Seq<(usize, usize)>,
    paths: Seq<Seq<bool>>,
    done: Set<Seq<bool>>,
) -> bool {
    &&& paths.len() == stack.len()
    &&& forall|i: int| 0 <= i < stack.len() ==> walk(nodes, #[trigger] paths[i]) == Some(stack[i].0 as int)
    &&& forall|i: int| 0 <= i < stack.len() ==> (#[trigger] stack[i]).1 == paths[i].len()
    &&& forall|i: int| 0 <= i < stack.len() ==> !done.contains(#[trigger] paths[i])
    &&& forall|i: int, j: int| 0 <= i < j < stack.len() ==> #[trigger] paths[i] != #[trigger] paths[j]
    &&& forall|i: int| 0 <= i < stack.len() && (#[trigger] paths[i]).len() > 0 ==> done.contains(paths[i].drop_last())
}

/// Done walks of the depth-first walk: valid, bounded, with distinct end
/// points, and closed under taking prefixes.
pub open spec fn dfs_done_ok(nodes: Seq<TreeNode>, done: Set<Seq<bool>>, bound: int) -> bool {
    &&& done.finite()
    &&& forall|d: Seq<bool>| #[trigger] done.contains(d) ==> walk(nodes, d) is Some && d.len() <= bound
    &&& forall|d1: Seq<bool>, d2: Seq<bool>|
        #![trigger done.contains(d1), done.contains(d2)]
        done.contains(d1) && done.contains(d2) && d1 != d2 ==> walk(nodes, d1) != walk(nodes, d2)
    &&& forall|d: Seq<bool>| #[trigger] done.contains(d) && d.len() > 0 ==> done.contains(d.drop_last())
}

/// Node `k` is the end point of a done walk.
pub open spec fn done_reaches(nodes: Seq<TreeNode>, done: Set<Seq<bool>>, k: int) -> bool {
    exists|d: Seq<bool>| #[trigger] done.contains(d) && walk(nodes, d) == Some(k)
}

/// `visited` marks exactly the end points of done walks.
pub open spec fn dfs_visited_ok(nodes: Seq<TreeNode>, visited: Seq<bool>, done: Set<Seq<bool>>) -> bool {
    &&& visited.len() == nodes.len()
    &&& forall|k: int| 0 <= k < visited.len() ==> (#[trigger] visited[k] <==> done_reaches(nodes, done, k))
}

/// Every valid walk is done or extends a stack entry.
pub open spec fn dfs_frontier_ok(nodes: Seq<TreeNode>, paths: Seq<Seq<bool>>, done: Set<Seq<bool>>) -> bool {
    forall|d: Seq<bool>| #[trigger] walk(nodes, d) is Some ==> done.contains(d) || exists|i: int|
        0 <= i < paths.len() && #[trigger] is_prefix(paths[i], d)
}

/// Ghost state of the depth-first walk in `validate`.
#[verifier::opaque]
pub open spec fn dfs_inv(
    nodes: Seq<TreeNode>,
    visited: Seq<bool>,
    stack: Seq<(usize, usize)>,
    paths: Seq<Seq<bool>>,
    done: Set<Seq<bool>>,
    bound: int,
) -> bool {
    &&& dfs_stack_ok(nodes, stack, paths, done)
    &&& dfs_done_ok(nodes, done, bound)
    &&& dfs_visited_ok(nodes, visited, done)
    &&& dfs_frontier_ok(nodes, paths, done)
}

pub(crate) proof fn lemma_walk_in_range(nodes: Seq<TreeNode>, num_features: usize, d: Seq<bool>)
    requires
        nodes.len() > 0,
        all_nodes_local_ok(nodes, num_features),
        walk(nodes, d) is Some,
    ensures
        0 <= walk(nodes, d)->0 < nodes.len(),
{
    lemma_local_ok_children(nodes, num_features);
    lemma_walk_in_bounds(nodes, d);
}

proof fn lemma_local_ok_children(nodes: Seq<TreeNode>, num_features: usize)
    requires
        all_nodes_local_ok(nodes, num_features),
    ensures
        children_in_range(nodes),
{
    assert forall|i: int| 0 <= i < nodes.len() implies match #[trigger] nodes[i] {
        TreeNode::Split { left, right, .. } => left < nodes.len() && right < nodes.len(),
        TreeNode::Leaf { .. } => true,
    } by {
        assert(node_local_ok(nodes, num_features, i));
    }
}

pub(crate) proof fn lemma_walk_in_bounds(nodes: Seq<TreeNode>, d: Seq<bool>)
    requires
        nodes.len() > 0,
        children_in_range(nodes),
        walk(nodes, d) is Some,
    ensures
        0 <= walk(nodes, d)->0 < nodes.len(),
    decreases d.len(),
{
    if d.len() > 0 {
        lemma_walk_in_bounds(nodes, d.drop_last());
        let k = walk(nodes, d.drop_last())->0;
        assert(match nodes[k] {
            TreeNode::Split { left, right, .. } => left < nodes.len() && right < nodes.len(),
            TreeNode::Leaf { .. } => true,
        });
    }
}

pub(crate) proof fn lemma_dfs_start(nodes: Seq<TreeNode>, visited: Seq<bool>, bound: int)
    requires
        nodes.len() > 0,
        visited.len() == nodes.len(),
        forall|j: int| 0 <= j < visited.len() ==> !(#[trigger] visited[j]),
    ensures
        dfs_inv(nodes, visited, seq![(0usize, 0usize)], seq![Seq::<bool>::empty()], Set::empty(), bound),
{
    reveal(dfs_inv);
    let paths = seq![Seq::<bool>::empty()];
    let done = Set::<Seq<bool>>::empty();
    assert(walk(nodes, paths[0]) == Some(0int));
    assert forall|k: int| 0 <= k < visited.len() implies (#[trigger] visited[k] <==> done_reaches(nodes, done, k)) by {
        if done_reaches(nodes, done, k) {
            let d = choose|d: Seq<bool>| #[trigger] done.contains(d) && walk(nodes, d) == Some(k);
        }
    }
    assert forall|d: Seq<bool>| #[trigger] walk(nodes, d) is Some implies done.contains(d) || exists|i: int|
        0 <= i < paths.len() && #[trigger] is_prefix(paths[i], d) by {
        assert(d.take(0) =~= Seq::<bool>::empty());
        assert(is_prefix(paths[0], d));
    }
}

pub(crate) proof fn lemma_dfs_top(
    nodes: Seq<TreeNode>,
    visited: Seq<bool>,
    stack: Seq<(usize, usize)>,
    paths: Seq<Seq<bool>>,
    done: Set<Seq<bool>>,
    bound: int,
)
    requires
        nodes.len() > 0,
        children_in_range(nodes),
        dfs_inv(nodes, visited, stack, paths, done, bound),
        stack.len() > 0,
    ensures
        paths.len() == stack.len(),
        visited.len() == nodes.len(),
        walk(nodes, paths.last()) == Some(stack.last().0 as int),
        stack.last().1 == paths.last().len(),
        0 <= stack.last().0 < nodes.len(),
        !done.contains(paths.last()),
        visited[stack.last().0 as int] ==> !walks_injective(nodes),
        stack.last().1 > bound ==> !walks_within(nodes, bound),
        forall|i: int| 0 <= i < paths.len() ==> #[trigger] paths[i].len() == stack[i].1,
{
    reveal(dfs_inv);
    let L = stack.len() - 1;
    let q = paths[L];
    let k = stack[L].0 as int;
    assert(walk(nodes, q) == Some(k));
    lemma_walk_in_bounds(nodes, q);
    if visited[k] {
        assert(done_reaches(nodes, done, k));
        let d = choose|d: Seq<bool>| #[trigger] done.contains(d) && walk(nodes, d) == Some(k);
        assert(d != q);
        assert(walk(nodes, d) is Some && walk(nodes, q) is Some && d != q && walk(nodes, d) == walk(nodes, q));
    }
    if stack[L].1 > bound {
        assert(walk(nodes, q) is Some);
    }
    assert forall|i: int| 0 <= i < paths.len() implies #[trigger] paths[i].len() == stack[i].1 by {
        assert(stack[i].1 == paths[i].len());
    }
}

pub(crate) proof fn lemma_dfs_finished(
    nodes: Seq<TreeNode>,
    visited: Seq<bool>,
    stack: Seq<(usize, usize)>,
    paths: Seq<Seq<bool>>,
    done: Set<Seq<bool>>,
    bound: int,
)
    requires
        dfs_inv(nodes, visited, stack, paths, done, bound),
        stack.len() == 0,
    ensures
        walks_injective(nodes),
        walks_within(nodes, bound),
        visited.len() == nodes.len(),
        forall|k: int| 0 <= k < nodes.len() ==> (#[trigger] visited[k] <==> reached(nodes, k)),
{
    reveal(dfs_inv);
    assert forall|d1: Seq<bool>, d2: Seq<bool>|
        walk(nodes, d1) is Some && walk(nodes, d2) is Some && d1 != d2 implies
        #[trigger] walk(nodes, d1) != #[trigger] walk(nodes, d2) by {
        assert(done.contains(d1));
        assert(done.contains(d2));
    }
    assert forall|d: Seq<bool>| #[trigger] walk(nodes, d) is Some implies d.len() <= bound by {
        assert(done.contains(d));
    }
    assert forall|k: int| 0 <= k < nodes.len() implies (#[trigger] visited[k] <==> reached(nodes, k)) by {
        if reached(nodes, k) {
            let d = choose|d: Seq<bool>| #[trigger] walk(nodes, d) == Some(k);
            assert(walk(nodes, d) is Some);
            assert(done.contains(d));
            assert(done_reaches(nodes, done, k));
        }
        if visited[k] {
            assert(done_reaches(nodes, done, k));
            let d = choose|d: Seq<bool>| #[trigger] done.contains(d) && walk(nodes, d) == Some(k);
            assert(walk(nodes, d) == Some(k));
        }
    }
}

/// The complaint about the first node from `i` on that fails its local
/// checks, if any.
pub open spec fn local_error_from(nodes: Seq<TreeNode>, num_features: usize, i: int) -> Option<Seq<char>>
    decreases nodes.len() - i,
{
    if i < 0 || i >= nodes.len() {
        None
    } else {
        match nodes[i] {
            TreeNode::Split { feature_index, left, right, .. } => if feature_index >= num_features {
                Some("node "@ + decimal(i as nat) + ": feature index "@ + decimal(feature_index as nat) + " out of range"@)
            } else if left >= nodes.len() || right >= nodes.len() {
                Some("node "@ + decimal(i as nat) + ": child index out of range"@)
            } else if left == i || right == i {
                Some("node "@ + decimal(i as nat) + ": split points to itself"@)
            } else {
                local_error_from(nodes, num_features, i + 1)
            },
            TreeNode::Leaf { .. } => local_error_from(nodes, num_features, i + 1),
        }
    }
}

/// What a failed tree validation may report: the first node that fails its
/// local checks; else an empty tree; else, where the walks from the root are
/// distinct and bounded, an orphan; else a walk that is too deep or a node
/// reached twice, whichever the depth-first search meets first.
pub open spec fn tree_error_text(nodes: Seq<TreeNode>, num_features: usize, m: Seq<char>) -> bool {
    match local_error_from(nodes, num_features, 0) {
        Some(t) => m == t,
        None => if nodes.len() == 0 {
            m == "decision tree has no nodes"@
        } else if walks_injective(nodes) && walks_bounded(nodes) {
            m == "orphan node detected"@
        } else {
            ||| m == "tree depth exceeds maximum of 1000"@
            ||| exists|k: int|
                0 <= k < nodes.len() && m == "node "@ + #[trigger] decimal(k as nat)
                    + ": cycle detected (node visited twice)"@
        },
    }
}

impl DecisionTree {
    /// Validate the tree: every split references in-bounds children and
    /// feature indices and not itself, the tree is non-empty, the nodes
    /// reachable from the root form a tree (no node reached twice, so no
    /// cycle) of depth at most `MAX_TREE_DEPTH`, and no node is an orphan.
    pub fn validate(&self) -> (r: Result<(), ZkmlError>)
        ensures
            r is Ok <==> tree_well_formed(self.nodes@, self.num_features),
            r matches Err(e) ==> e is InvalidModel,
            r matches Err(ZkmlError::InvalidModel(m)) ==> tree_error_text(self.nodes@, self.num_features, m@),
    {
        let ghost nodes = self.nodes@;
        let n = self.nodes.len();
        let mut i: usize = 0;
        while i < n
            invariant
                n == nodes.len(),
                nodes == self.nodes@,
                i <= n,
                forall|k: int| 0 <= k < i ==> #[trigger] node_local_ok(nodes, self.num_features, k),
                local_error_from(nodes, self.num_features, 0) == local_error_from(nodes, self.num_features, i as int),
            decreases n - i,
        {
            match &self.nodes[i] {
                TreeNode::Split { feature_index, left, right, .. } => {
                    if *feature_index >= self.num_features {
                        proof { assert(!node_local_ok(nodes, self.num_features, i as int)); }
                        let mut msg = String::new();
                        msg.append("node ");
                        push_decimal(&mut msg, i as u64);
                        msg.append(": feature index ");
                        push_decimal(&mut msg, *feature_index as u64);
                        msg.append(" out of range");
                        return Err(ZkmlError::InvalidModel(msg));
                    }
                    if *left >= n || *right >= n {
                        proof { assert(!node_local_ok(nodes, self.num_features, i as int)); }
                        let mut msg = String::new();
                        msg.append("node ");
                        push_decimal(&mut msg, i as u64);
                        msg.append(": child index out of range");
                        return Err(ZkmlError::InvalidModel(msg));
                    }
                    if *left == i || *right == i {
                        proof { assert(!node_local_ok(nodes, self.num_features, i as int)); }
                        let mut msg = String::new();
                        msg.append("node ");
                        push_decimal(&mut msg, i as u64);
                        msg.append(": split points to itself");
                        return Err(ZkmlError::InvalidModel(msg));
                    }
                },
                TreeNode::Leaf { .. } => {},
            }
            i = i + 1;
        }
        if n == 0 {
            return Err(ZkmlError::InvalidModel("decision tree has no nodes".to_string()));
        }
        assert(all_nodes_local_ok(nodes, self.num_features));
        assert(local_error_from(nodes, self.num_features, 0) is None);
        let mut visited: Vec<bool> = Vec::new();
        let mut k: usize = 0;
        while k < n
            invariant
                k <= n,
                visited@.len() == k,
                forall|j: int| 0 <= j < k ==> !(#[trigger] visited@[j]),
            decreases n - k,
        {
            visited.push(false);
            k = k + 1;
        }
        let mut stack: Vec<(usize, usize)> = Vec::new();
        stack.push((0, 0));
        let ghost mut paths: Seq<Seq<bool>> = seq![Seq::<bool>::empty()];
        let ghost mut done: Set<Seq<bool>> = Set::empty();
        let ghost mut vis: Set<int> = Set::empty();
        proof {
            lemma_dfs_start(nodes, visited@, MAX_TREE_DEPTH as int);
            lemma_local_ok_children(nodes, self.num_features);
            assert(stack@ =~= seq![(0usize, 0usize)]);
        }
        while stack.len() > 0
            invariant
                n == nodes.len(),
                nodes == self.nodes@,
                n > 0,
                all_nodes_local_ok(nodes, self.num_features),
                local_error_from(nodes, self.num_features, 0) is None,
                children_in_range(nodes),
                dfs_inv(nodes, visited@, stack@, paths, done, MAX_TREE_DEPTH as int),
                visited@.len() == n,
                vis.finite(),
                vis.subset_of(set_int_range(0, n as int)),
                forall|j: int| #[trigger] vis.contains(j) <==> 0 <= j < n && visited@[j],
            decreases 3 * (n - vis.len()) + stack@.len(),
        {
            proof {
                lemma_int_range(0, n as int);
                lemma_len_subset(vis, set_int_range(0, n as int));
                lemma_dfs_top(nodes, visited@, stack@, paths, done, MAX_TREE_DEPTH as int);
            }
            let ghost old_stack = stack@;
            let ghost old_paths = paths;
            let ghost old_done = done;
            let ghost old_visited = visited@;
            let ghost old_vis = vis;
            let ghost q = paths.last();
            let (node_idx, depth) = stack.pop().unwrap();
            proof {
                assert(old_stack.last() == (node_idx, depth));
                paths = paths.drop_last();
            }
            if depth > MAX_TREE_DEPTH {
                return Err(ZkmlError::InvalidModel("tree depth exceeds maximum of 1000".to_string()));
            }
            if visited[node_idx] {
                let mut msg = String::new();
                msg.append("node ");
                push_decimal(&mut msg, node_idx as u64);
                msg.append(": cycle detected (node visited twice)");
                proof {
                    let k = node_idx as int;
                    assert(decimal(k as nat) == decimal(node_idx as nat));
                    assert(0 <= k < nodes.len());
                }
                return Err(ZkmlError::InvalidModel(msg));
            }
            visited.set(node_idx, true);
            proof {
                done = done.insert(q);
                assert(!vis.contains(node_idx as int));
                vis = vis.insert(node_idx as int);
            }
            match &self.nodes[node_idx] {
                TreeNode::Split { left, right, .. } => {
                    stack.push((*left, depth + 1));
                    stack.push((*right, depth + 1));
                    proof {
                        paths = paths.push(q.push(false)).push(q.push(true));
                    }
                },
                TreeNode::Leaf { .. } => {},
            }
            proof {
                lemma_dfs_step(nodes, MAX_TREE_DEPTH as int, visited@, stack@, paths, done,
                    old_visited, old_stack, old_paths, old_done, q, node_idx);
                assert(vis.len() == old_vis.len() + 1);
                assert(vis.subset_of(set_int_range(0, n as int)));
                lemma_len_subset(vis, set_int_range(0, n as int));
                assert(stack@.len() <= old_stack.len() + 1);
            }
        }
        proof {
            lemma_dfs_finished(nodes, visited@, stack@, paths, done, MAX_TREE_DEPTH as int);
        }
        let mut m: usize = 0;
        while m < n
            invariant
                n == nodes.len(),
                nodes == self.nodes@,
                n > 0,
                m <= n,
                visited@.len() == n,
                all_nodes_local_ok(nodes, self.num_features),
                local_error_from(nodes, self.num_features, 0) is None,
                walks_injective(nodes),
                walks_bounded(nodes),
                forall|k: int| 0 <= k < n ==> (#[trigger] visited@[k] <==> reached(nodes, k)),
                forall|j: int| 0 <= j < m ==> #[trigger] reached(nodes, j),
            decreases n - m,
        {
            if !visited[m] {
                proof {
                    assert(!reached(nodes, m as int));
                    assert(!walks_cover(nodes));
                }
                return Err(ZkmlError::InvalidModel("orphan node detected".to_string()));
            }
            m = m + 1;
        }
        Ok(())
    }
}

pub(crate) proof fn lemma_dfs_step(
    nodes: Seq<TreeNode>,
    bound: int,
    visited: Seq<bool>,
    stack: Seq<(usize, usize)>,
    paths: Seq<Seq<bool>>,
    done: Set<Seq<bool>>,
    old_visited: Seq<bool>,
    old_stack: Seq<(usize, usize)>,
    old_paths: Seq<Seq<bool>>,
    old_done: Set<Seq<bool>>,
    q: Seq<bool>,
    node_idx: usize,
)
    requires
        nodes.len() > 0,
        children_in_range(nodes),
        dfs_inv(nodes, old_visited, old_stack, old_paths, old_done, bound),
        old_stack.len() > 0,
        q == old_paths.last(),
        old_stack.last().0 == node_idx,
        old_stack.last().1 <= bound,
        old_stack.last().1 < usize::MAX,
        0 <= node_idx < nodes.len(),
        !old_visited[node_idx as int],
        visited == old_visited.update(node_idx as int, true),
        done == old_done.insert(q),
        match nodes[node_idx as int] {
            TreeNode::Split { left, right, .. } => {
                &&& stack == old_stack.drop_last().push((left, (old_stack.last().1 + 1) as usize)).push(
                    (right, (old_stack.last().1 + 1) as usize),
                )
                &&& paths == old_paths.drop_last().push(q.push(false)).push(q.push(true))
            },
            TreeNode::Leaf { .. } => {
                &&& stack == old_stack.drop_last()
                &&& paths == old_paths.drop_last()
            },
        },
    ensures
        dfs_inv(nodes, visited, stack, paths, done, bound),
{
    reveal(dfs_inv);
    lemma_dfs_step_stack(nodes, stack, paths, done, old_stack, old_paths, old_done, q, node_idx);
    lemma_dfs_step_done(nodes, bound, old_visited, done, old_done, q, node_idx);
    lemma_dfs_step_visited(nodes, visited, done, old_visited, old_done, q, node_idx);
    lemma_dfs_step_frontier(nodes, stack, paths, done, old_stack, old_paths, old_done, q, node_idx);
}

proof fn lemma_dfs_step_stack(
    nodes: Seq<TreeNode>,
    stack: Seq<(usize, usize)>,
    paths: Seq<Seq<bool>>,
    done: Set<Seq<bool>>,
    old_stack: Seq<(usize, usize)>,
    old_paths: Seq<Seq<bool>>,
    old_done: Set<Seq<bool>>,
    q: Seq<bool>,
    node_idx: usize,
)
    requires
        dfs_stack_ok(nodes, old_stack, old_paths, old_done),
        forall|d: Seq<bool>| #[trigger] old_done.contains(d) && d.len() > 0 ==> old_done.contains(d.drop_last()),
        old_stack.len() > 0,
        q == old_paths.last(),
        old_stack.last().0 == node_idx,
        0 <= node_idx < nodes.len(),
        done == old_done.insert(q),
        match nodes[node_idx as int] {
            TreeNode::Split { left, right, .. } => {
                &&& stack == old_stack.drop_last().push((left, (old_stack.last().1 + 1) as usize)).push(
                    (right, (old_stack.last().1 + 1) as usize),
                )
                &&& paths == old_paths.drop_last().push(q.push(false)).push(q.push(true))
            },
            TreeNode::Leaf { .. } => {
                &&& stack == old_stack.drop_last()
                &&& paths == old_paths.drop_last()
            },
        },
        old_stack.last().1 < usize::MAX,
    ensures
        dfs_stack_ok(nodes, stack, paths, done),
{
    let L = old_stack.len() - 1;
    assert(old_paths[L] == q);
    assert(walk(nodes, q) == Some(node_idx as int));
    assert(!old_done.contains(q));
    lemma_walk_push(nodes, q, false);
    lemma_walk_push(nodes, q, true);
    assert forall|i: int| 0 <= i < stack.len() implies walk(nodes, #[trigger] paths[i]) == Some(stack[i].0 as int)
        && stack[i].1 == paths[i].len() && !done.contains(paths[i])
        && (paths[i].len() > 0 ==> done.contains(paths[i].drop_last())) by {
        if i < L {
            assert(paths[i] == old_paths[i]);
            assert(stack[i] == old_stack[i]);
            assert(walk(nodes, old_paths[i]) == Some(old_stack[i].0 as int));
            assert(old_stack[i].1 == old_paths[i].len());
            assert(old_paths[i] != old_paths[L]);
            assert(!old_done.contains(old_paths[i]));
        } else {
            let b = i != L;
            assert(paths[i] == q.push(b));
            if old_done.contains(q.push(b)) {
                assert(old_done.contains(q.push(b).drop_last()));
            }
        }
    }
    assert forall|i: int, j: int| 0 <= i < j < stack.len() implies #[trigger] paths[i] != #[trigger] paths[j] by {
        if j < L {
            assert(paths[i] == old_paths[i] && paths[j] == old_paths[j]);
        } else if i < L {
            assert(paths[i] == old_paths[i]);
            if paths[i] == paths[j] {
                assert(paths[j].drop_last() =~= q);
                assert(old_paths[i].len() > 0);
                assert(old_done.contains(old_paths[i].drop_last()));
            }
        } else {
            assert(paths[i].last() != paths[j].last());
        }
    }
}

proof fn lemma_dfs_step_done(
    nodes: Seq<TreeNode>,
    bound: int,
    old_visited: Seq<bool>,
    done: Set<Seq<bool>>,
    old_done: Set<Seq<bool>>,
    q: Seq<bool>,
    node_idx: usize,
)
    requires
        dfs_done_ok(nodes, old_done, bound),
        dfs_visited_ok(nodes, old_visited, old_done),
        0 <= node_idx < nodes.len(),
        !old_visited[node_idx as int],
        walk(nodes, q) == Some(node_idx as int),
        q.len() <= bound,
        q.len() > 0 ==> old_done.contains(q.drop_last()),
        done == old_done.insert(q),
    ensures
        dfs_done_ok(nodes, done, bound),
{
    assert forall|d: Seq<bool>| #[trigger] done.contains(d) implies walk(nodes, d) is Some && d.len() <= bound by {
        if d != q {
            assert(old_done.contains(d));
        }
    }
    assert forall|d1: Seq<bool>, d2: Seq<bool>|
        done.contains(d1) && done.contains(d2) && d1 != d2 implies
        walk(nodes, d1) != walk(nodes, d2) by {
        if d1 == q {
            assert(old_done.contains(d2));
            if walk(nodes, d2) == Some(node_idx as int) {
                assert(done_reaches(nodes, old_done, node_idx as int));
            }
        } else if d2 == q {
            assert(old_done.contains(d1));
            if walk(nodes, d1) == Some(node_idx as int) {
                assert(done_reaches(nodes, old_done, node_idx as int));
            }
        } else {
            assert(old_done.contains(d1) && old_done.contains(d2));
        }
    }
    assert forall|d: Seq<bool>| #[trigger] done.contains(d) && d.len() > 0 implies done.contains(d.drop_last()) by {
        if d != q {
            assert(old_done.contains(d));
        }
    }
}

proof fn lemma_dfs_step_visited(
    nodes: Seq<TreeNode>,
    visited: Seq<bool>,
    done: Set<Seq<bool>>,
    old_visited: Seq<bool>,
    old_done: Set<Seq<bool>>,
    q: Seq<bool>,
    node_idx: usize,
)
    requires
        dfs_visited_ok(nodes, old_visited, old_done),
        0 <= node_idx < nodes.len(),
        walk(nodes, q) == Some(node_idx as int),
        visited == old_visited.update(node_idx as int, true),
        done == old_done.insert(q),
    ensures
        dfs_visited_ok(nodes, visited, done),
{
    assert forall|k: int| 0 <= k < visited.len() implies (#[trigger] visited[k] <==> done_reaches(nodes, done, k)) by {
        if k == node_idx {
            assert(done.contains(q));
        } else {
            assert(visited[k] == old_visited[k]);
            if old_visited[k] {
                assert(done_reaches(nodes, old_done, k));
                let d = choose|d: Seq<bool>| #[trigger] old_done.contains(d) && walk(nodes, d) == Some(k);
                assert(done.contains(d));
            }
            if done_reaches(nodes, done, k) {
                let d = choose|d: Seq<bool>| #[trigger] done.contains(d) && walk(nodes, d) == Some(k);
                assert(d != q);
                assert(old_done.contains(d));
                assert(done_reaches(nodes, old_done, k));
            }
        }
    }
}

proof fn lemma_dfs_step_frontier(
    nodes: Seq<TreeNode>,
    stack: Seq<(usize, usize)>,
    paths: Seq<Seq<bool>>,
    done: Set<Seq<bool>>,
    old_stack: Seq<(usize, usize)>,
    old_paths: Seq<Seq<bool>>,
    old_done: Set<Seq<bool>>,
    q: Seq<bool>,
    node_idx: usize,
)
    requires
        dfs_frontier_ok(nodes, old_paths, old_done),
        old_paths.len() == old_stack.len(),
        old_stack.len() > 0,
        q == old_paths.last(),
        walk(nodes, q) == Some(node_idx as int),
        0 <= node_idx < nodes.len(),
        done == old_done.insert(q),
        match nodes[node_idx as int] {
            TreeNode::Split { left, right, .. } => {
                &&& paths == old_paths.drop_last().push(q.push(false)).push(q.push(true))
            },
            TreeNode::Leaf { .. } => {
                &&& paths == old_paths.drop_last()
            },
        },
    ensures
        dfs_frontier_ok(nodes, paths, done),
{
    let L = old_paths.len() - 1;
    assert forall|d: Seq<bool>| #[trigger] walk(nodes, d) is Some implies done.contains(d)
        || exists|i: int| 0 <= i < paths.len() && #[trigger] is_prefix(paths[i], d) by {
        if !old_done.contains(d) {
            let i = choose|i: int| 0 <= i < old_paths.len() && #[trigger] is_prefix(old_paths[i], d);
            if i < L {
                assert(paths[i] == old_paths[i]);
                assert(is_prefix(paths[i], d));
            } else {
                assert(is_prefix(q, d));
                if d.len() == q.len() {
                    assert(d =~= q);
                } else {
                    lemma_walk_prefix(nodes, d, q.len() as int);
                    assert(d.take(q.len() as int) == q);
                    let b = d[q.len() as int];
                    assert(d.take(q.len() + 1int) =~= q.push(b));
                    let c = if b { L + 1 } else { L };
                    assert(paths[c] == q.push(b));
                    assert(is_prefix(paths[c], d));
                }
            }
        }
    }
}

impl LogisticRegression {
    /// Number of input features this model expects.
    pub fn num_features(&self) -> (r: usize)
        ensures
            r == self.weights@.len(),
    {
        self.weights.len()
    }
}

/// The feature count a model expects: the tree's declared count, the
/// logistic weight count, or the first MLP layer's input size (0 without
/// layers).
pub open spec fn spec_num_features(model: Model) -> usize {
    match model {
        Model::DecisionTree(t) => t.num_features,
        Model::LogisticRegression(lr) => lr.weights@.len() as usize,
        Model::TinyMLP(m) => if m.layers@.len() > 0 { m.layers@[0].input_size } else { 0 },
    }
}

impl Model {
    /// Number of input features this model expects.
    pub fn num_features(&self) -> (r: usize)
        ensures
            r == spec_num_features(*self),
    {
        match self {
            Model::DecisionTree(t) => t.num_features,
            Model::LogisticRegression(lr) => lr.weights.len(),
            Model::TinyMLP(m) => if m.layers.len() > 0 { m.layers[0].input_size } else { 0 },
        }
    }
}

} // verus!
