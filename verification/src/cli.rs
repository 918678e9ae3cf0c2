//! What the command-line commands compute about a model, apart from reading
//! files and printing.
use vstd::prelude::*;

use crate::error::{result_kind, ErrorKind, ZkmlError};
use crate::models::{mlp_valid, tree_well_formed, Model, TreeNode};

verus! {

/// Human-readable model kind, matching the JSON `kind` tags.
pub fn kind_of(model: &Model) -> (r: &'static str)
    ensures
        r@ == match *model {
            Model::DecisionTree(_) => "decision_tree"@,
            Model::LogisticRegression(_) => "logistic_regression"@,
            Model::TinyMLP(_) => "tiny_mlp"@,
        },
{
    match model {
        Model::DecisionTree(_) => "decision_tree",
        Model::LogisticRegression(_) => "logistic_regression",
        Model::TinyMLP(_) => "tiny_mlp",
    }
}

/// The number of split nodes among the first `n` nodes.
pub open spec fn splits_in(nodes: Seq<TreeNode>, n: int) -> int
    decreases n,
{
    if n <= 0 {
        0
    } else {
        splits_in(nodes, n - 1) + if nodes[n - 1] is Split { 1int } else { 0int }
    }
}

/// The number of split nodes in a tree's node list.
pub fn count_splits(nodes: &[TreeNode]) -> (r: usize)
    ensures
        r == splits_in(nodes@, nodes@.len() as int),
        r <= nodes@.len(),
{
    let mut count: usize = 0;
    let mut i: usize = 0;
    while i < nodes.len()
        invariant
            i <= nodes@.len(),
            count == splits_in(nodes@, i as int),
            count <= i,
        decreases nodes@.len() - i,
    {
        if let TreeNode::Split { .. } = &nodes[i] {
            count = count + 1;
        }
        i = i + 1;
    }
    count
}

/// Outcome of the structural validation that inference does not perform:
/// a tree must be well formed, an MLP's layers must chain, a logistic
/// regression has nothing to check.
pub open spec fn spec_check_structure(model: Model) -> Result<(), ErrorKind> {
    match model {
        Model::DecisionTree(t) => if tree_well_formed(t.nodes@, t.num_features) {
            Ok(())
        } else {
            Err(ErrorKind::InvalidModel)
        },
        Model::TinyMLP(m) => if mlp_valid(m.layers@) {
            Ok(())
        } else {
            Err(ErrorKind::InvalidModel)
        },
        Model::LogisticRegression(_) => Ok(()),
    }
}

/// Run the structural validation of a model.
pub fn check_structure(model: &Model) -> (r: Result<(), ZkmlError>)
    ensures
        result_kind(r) == spec_check_structure(*model),
{
    match model {
        Model::DecisionTree(tree) => tree.validate(),
        Model::TinyMLP(mlp) => mlp.validate(),
        Model::LogisticRegression(_) => Ok(()),
    }
}

} // verus!
