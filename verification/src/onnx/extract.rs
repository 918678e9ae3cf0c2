//! Parameter extraction from a `LinearClassifier` node into a binary
//! [`LogisticRegression`].
use vstd::prelude::*;

use super::proto::NodeProto;
use super::tree_extractor::{attr_named, attribute_index};
use super::{push_decimal, OnnxImportError};
use crate::error::decimal;
use crate::fixed_point::FixedPoint;
use crate::models::LogisticRegression;
use crate::prover::str_eq;
use vstd::utf8::{decode_utf8, valid_utf8};

verus! {

/// `String::from_utf8` on a copy of `bytes`.
///
/// Trusted: std documents that it succeeds exactly on valid UTF-8 and then
/// holds the decoded text; the contract states both over vstd's model of
/// UTF-8.
#[verifier::external_body]
fn utf8_to_string(bytes: &[u8]) -> (r: Option<String>)
    ensures
        r is Some <==> valid_utf8(bytes@),
        r matches Some(s) ==> s@ == decode_utf8(bytes@),
{
    String::from_utf8(bytes.to_vec()).ok()
}

/// The quantized floats of the attribute named `name`, when it exists and
/// holds at least one.
pub open spec fn nonempty_floats(node: NodeProto, name: Seq<char>) -> Option<Seq<FixedPoint>> {
    match attr_named(node, name) {
        Some(a) => if a.floats@.len() > 0 { Some(a.floats@) } else { None },
        None => None,
    }
}

/// The integers of the attribute named `name`, when it exists and holds at
/// least one.
pub open spec fn nonempty_ints(node: NodeProto, name: Seq<char>) -> Option<Seq<i64>> {
    match attr_named(node, name) {
        Some(a) => if a.ints@.len() > 0 { Some(a.ints@) } else { None },
        None => None,
    }
}

/// Every byte string of `values` is valid UTF-8.
pub open spec fn all_utf8(values: Seq<Vec<u8>>) -> bool {
    forall|k: int| 0 <= k < values.len() ==> valid_utf8(#[trigger] values[k]@)
}

/// The text values of the attribute named `name`: `None` when one of them
/// is not valid UTF-8, `Some(None)` when there are none, and otherwise the
/// decoded list (the repeated values, or else the single value).
pub open spec fn text_values(node: NodeProto, name: Seq<char>) -> Option<Option<Seq<Seq<char>>>> {
    match attr_named(node, name) {
        None => Some(None),
        Some(a) => if a.strings@.len() > 0 {
            if all_utf8(a.strings@) {
                Some(Some(Seq::new(a.strings@.len(), |k: int| decode_utf8(a.strings@[k]@))))
            } else {
                None
            }
        } else if a.s@.len() > 0 {
            if valid_utf8(a.s@) {
                Some(Some(seq![decode_utf8(a.s@)]))
            } else {
                None
            }
        } else {
            Some(None)
        },
    }
}

/// The message for an attribute string that is not valid UTF-8.
pub open spec fn not_utf8_message(attribute: Seq<char>) -> Seq<char> {
    "attribute '"@ + attribute + "' holds a string that is not valid UTF-8"@
}

/// The floats of the attribute named `name`, when it holds any.
fn get_floats_attribute<'a>(node: &'a NodeProto, name: &str) -> (r: Option<&'a Vec<FixedPoint>>)
    ensures
        match nonempty_floats(*node, name@) {
            Some(v) => r matches Some(w) && w@ == v,
            None => r is None,
        },
{
    match attribute_index(node, name) {
        Some(k) => if node.attribute[k].floats.len() > 0 {
            Some(&node.attribute[k].floats)
        } else {
            None
        },
        None => None,
    }
}

/// The integers of the attribute named `name`, when it holds any.
fn get_ints_attribute<'a>(node: &'a NodeProto, name: &str) -> (r: Option<&'a Vec<i64>>)
    ensures
        match nonempty_ints(*node, name@) {
            Some(v) => r matches Some(w) && w@ == v,
            None => r is None,
        },
{
    match attribute_index(node, name) {
        Some(k) => if node.attribute[k].ints.len() > 0 {
            Some(&node.attribute[k].ints)
        } else {
            None
        },
        None => None,
    }
}

/// Decode one attribute string; invalid UTF-8 is an error naming the
/// attribute rather than a skipped entry.
fn decode_attribute_string(bytes: &[u8], attribute: &str) -> (r: Result<String, OnnxImportError>)
    ensures
        valid_utf8(bytes@) ==> (r matches Ok(s) && s@ == decode_utf8(bytes@)),
        !valid_utf8(bytes@) ==> (r matches Err(OnnxImportError::MalformedModel(m)) && m@ == not_utf8_message(
            attribute@,
        )),
{
    match utf8_to_string(bytes) {
        Some(s) => Ok(s),
        None => {
            let mut msg = String::new();
            msg.append("attribute '");
            msg.append(attribute);
            msg.append("' holds a string that is not valid UTF-8");
            proof {
                assert(Seq::<char>::empty() + "attribute '"@ + attribute@
                    + "' holds a string that is not valid UTF-8"@ =~= not_utf8_message(attribute@));
            }
            Err(OnnxImportError::MalformedModel(msg))
        },
    }
}

/// The text values of the attribute named `name`; see [`text_values`].
fn get_strings_attribute(node: &NodeProto, name: &str) -> (r: Result<Option<Vec<String>>, OnnxImportError>)
    ensures
        match text_values(*node, name@) {
            None => r matches Err(OnnxImportError::MalformedModel(m)) && m@ == not_utf8_message(name@),
            Some(None) => r matches Ok(None),
            Some(Some(v)) => r matches Ok(Some(w)) && w@.map_values(|s: String| s@) == v,
        },
{
    let k = match attribute_index(node, name) {
        Some(k) => k,
        None => {
            return Ok(None);
        },
    };
    let attr = &node.attribute[k];
    if attr.strings.len() > 0 {
        let mut decoded: Vec<String> = Vec::new();
        let mut j: usize = 0;
        assert(attr_named(*node, name@) == Some(*attr));
        while j < attr.strings.len()
            invariant
                attr_named(*node, name@) == Some(*attr),
                attr.strings@.len() > 0,
                j <= attr.strings@.len(),
                decoded@.len() == j,
                forall|m: int| 0 <= m < j ==> valid_utf8(#[trigger] attr.strings@[m]@) && decoded@[m]@ == decode_utf8(
                    attr.strings@[m]@,
                ),
            decreases attr.strings@.len() - j,
        {
            match decode_attribute_string(attr.strings[j].as_slice(), name) {
                Ok(s) => decoded.push(s),
                Err(e) => {
                    assert(!all_utf8(attr.strings@));
                    return Err(e);
                },
            }
            j = j + 1;
        }
        assert(all_utf8(attr.strings@));
        assert(decoded@.map_values(|s: String| s@) =~= Seq::new(
            attr.strings@.len(),
            |m: int| decode_utf8(attr.strings@[m]@),
        ));
        return Ok(Some(decoded));
    }
    if attr.s.len() > 0 {
        match decode_attribute_string(attr.s.as_slice(), name) {
            Ok(s) => {
                let mut one: Vec<String> = Vec::new();
                one.push(s);
                assert(one@.map_values(|s: String| s@) =~= seq![decode_utf8(attr.s@)]);
                return Ok(Some(one));
            },
            Err(e) => {
                return Err(e);
            },
        }
    }
    Ok(None)
}

/// The first text value of the attribute named `name`.
fn get_string_attribute(node: &NodeProto, name: &str) -> (r: Result<Option<String>, OnnxImportError>)
    ensures
        match text_values(*node, name@) {
            None => r matches Err(OnnxImportError::MalformedModel(m)) && m@ == not_utf8_message(name@),
            Some(None) => r matches Ok(None),
            Some(Some(v)) => if v.len() > 0 {
                r matches Ok(Some(s)) && s@ == v[0]
            } else {
                r matches Ok(None)
            },
        },
{
    match get_strings_attribute(node, name) {
        Ok(Some(mut values)) => if values.len() > 0 {
            let ghost w = values@;
            let first = values.remove(0);
            assert(first@ == w.map_values(|s: String| s@)[0]);
            Ok(Some(first))
        } else {
            Ok(None)
        },
        Ok(None) => Ok(None),
        Err(e) => Err(e),
    }
}

/// The number of classes a `LinearClassifier` declares: the integer labels
/// when present, else the text labels, else one per intercept.
pub open spec fn class_count(node: NodeProto, labels: Option<Seq<Seq<char>>>, intercepts: Seq<FixedPoint>) -> int {
    match nonempty_ints(node, "classlabels_ints"@) {
        Some(l) => l.len() as int,
        None => match labels {
            Some(l) => l.len() as int,
            None => intercepts.len() as int,
        },
    }
}

/// The post-transform is absent or one of `NONE` and `LOGISTIC`.
pub open spec fn post_transform_ok(values: Option<Seq<Seq<char>>>) -> bool {
    match values {
        Some(v) => v.len() > 0 ==> (v[0] == "NONE"@ || v[0] == "LOGISTIC"@),
        None => true,
    }
}

/// What extraction yields: the weights and the bias, or `None` when the
/// node is rejected. It is rejected when the coefficients or intercepts are
/// missing or empty, when a class label or the post-transform is not valid
/// UTF-8, when it declares more than two classes, when it has other than
/// one intercept, or when its post-transform is neither `NONE` nor
/// `LOGISTIC` (the logistic link is dropped: thresholding the raw score
/// decides the same class).
pub open spec fn linear_parameters(node: NodeProto) -> Option<(Seq<FixedPoint>, FixedPoint)> {
    match (
        nonempty_floats(node, "coefficients"@),
        nonempty_floats(node, "intercepts"@),
        text_values(node, "classlabels_strings"@),
        text_values(node, "post_transform"@),
    ) {
        (Some(w), Some(b), Some(labels), Some(post)) => {
            if class_count(node, labels, b) > 2 || b.len() != 1 || !post_transform_ok(post) {
                None
            } else {
                Some((w, b[0]))
            }
        },
        _ => None,
    }
}

/// The message a rejected node is reported with: the first check it fails,
/// in the order of [`linear_parameters`].
pub open spec fn linear_error_text(node: NodeProto) -> Seq<char> {
    match nonempty_floats(node, "coefficients"@) {
        None => "LinearClassifier missing 'coefficients' attribute"@,
        Some(_) => match nonempty_floats(node, "intercepts"@) {
            None => "LinearClassifier missing 'intercepts' attribute"@,
            Some(b) => match text_values(node, "classlabels_strings"@) {
                None => not_utf8_message("classlabels_strings"@),
                Some(labels) => if class_count(node, labels, b) > 2 {
                    "Multi-class LinearClassifier ("@ + decimal(class_count(node, labels, b) as nat)
                        + " classes) is not supported yet. Binary classification only. See issue #6 for multi-class support."@
                } else if b.len() != 1 {
                    "Binary LinearClassifier should have exactly 1 intercept, found "@ + decimal(b.len())
                } else {
                    match text_values(node, "post_transform"@) {
                        None => not_utf8_message("post_transform"@),
                        Some(post) => "Unsupported post_transform '"@ + post->0[0]
                            + "'. Only NONE and LOGISTIC are supported (LOGISTIC is dropped in favor of thresholding the raw score)."@,
                    }
                },
            },
        },
    }
}

/// Extract a binary logistic regression model from a `LinearClassifier`
/// node; see [`linear_parameters`] for when it is rejected. Every error is a
/// [`OnnxImportError::MalformedModel`].
pub fn extract_linear_classifier(node: &NodeProto) -> (r: Result<LogisticRegression, OnnxImportError>)
    ensures
        match linear_parameters(*node) {
            Some((w, b)) => r matches Ok(lr) && lr.weights@ == w && lr.bias == b,
            None => r matches Err(e) && e is MalformedModel,
        },
        nonempty_floats(*node, "coefficients"@) is Some && nonempty_floats(*node, "intercepts"@) is Some
            && text_values(*node, "classlabels_strings"@) is None ==> (r matches Err(
            OnnxImportError::MalformedModel(m),
        ) && m@ == not_utf8_message("classlabels_strings"@)),
        r matches Err(OnnxImportError::MalformedModel(m)) ==> m@ == linear_error_text(*node),
{
    let coefficients = match get_floats_attribute(node, "coefficients") {
        Some(c) => c,
        None => {
            return Err(
                OnnxImportError::MalformedModel("LinearClassifier missing 'coefficients' attribute".to_owned()),
            );
        },
    };
    let intercepts = match get_floats_attribute(node, "intercepts") {
        Some(c) => c,
        None => {
            return Err(OnnxImportError::MalformedModel("LinearClassifier missing 'intercepts' attribute".to_owned()));
        },
    };
    let classlabels_ints = get_ints_attribute(node, "classlabels_ints");
    let classlabels_strings = match get_strings_attribute(node, "classlabels_strings") {
        Ok(v) => v,
        Err(e) => {
            return Err(e);
        },
    };
    let num_classes = match classlabels_ints {
        Some(labels) => labels.len(),
        None => match &classlabels_strings {
            Some(labels) => labels.len(),
            None => intercepts.len(),
        },
    };
    if num_classes > 2 {
        let mut msg = String::new();
        msg.append("Multi-class LinearClassifier (");
        push_decimal(&mut msg, num_classes as u64);
        msg.append(" classes) is not supported yet. Binary classification only. See issue #6 for multi-class support.");
        return Err(OnnxImportError::MalformedModel(msg));
    }
    if intercepts.len() != 1 {
        let mut msg = String::new();
        msg.append("Binary LinearClassifier should have exactly 1 intercept, found ");
        push_decimal(&mut msg, intercepts.len() as u64);
        return Err(OnnxImportError::MalformedModel(msg));
    }
    match get_string_attribute(node, "post_transform") {
        Ok(Some(post_transform)) => {
            if !str_eq(post_transform.as_str(), "NONE") && !str_eq(post_transform.as_str(), "LOGISTIC") {
                let mut msg = String::new();
                msg.append("Unsupported post_transform '");
                msg.append(post_transform.as_str());
                msg.append(
                    "'. Only NONE and LOGISTIC are supported (LOGISTIC is dropped in favor of thresholding the raw score).",
                );
                return Err(OnnxImportError::MalformedModel(msg));
            }
        },
        Ok(None) => {},
        Err(e) => {
            return Err(e);
        },
    }
    let mut weights: Vec<FixedPoint> = Vec::new();
    let mut i: usize = 0;
    while i < coefficients.len()
        invariant
            i <= coefficients@.len(),
            weights@ == coefficients@.take(i as int),
        decreases coefficients@.len() - i,
    {
        weights.push(coefficients[i]);
        i = i + 1;
        assert(weights@ =~= coefficients@.take(i as int));
    }
    assert(coefficients@.take(coefficients@.len() as int) =~= coefficients@);
    Ok(LogisticRegression { weights, bias: intercepts[0] })
}

} // verus!
