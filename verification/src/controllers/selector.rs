//! Choosing objects by their labels.
use vstd::prelude::*;
use crate::protocol::labels::LabelMap;
use crate::protocol::workload::{
    LabelSelector, LabelSelectorOperator, LabelSelectorRequirement, LabelSelectorRequirementView,
    LabelSelectorView,
};
use crate::text;
use crate::text::holds_text;

verus! {

/// Whether the labels meet a requirement.
pub open spec fn met(req: LabelSelectorRequirementView, labels: Map<Seq<char>, Seq<char>>) -> bool {
    match req.operator {
        LabelSelectorOperator::In => labels.contains_key(req.key) && req.values.contains(
            labels[req.key],
        ),
        LabelSelectorOperator::NotIn => !(labels.contains_key(req.key) && req.values.contains(
            labels[req.key],
        )),
        LabelSelectorOperator::Exists => labels.contains_key(req.key),
        LabelSelectorOperator::DoesNotExist => !labels.contains_key(req.key),
    }
}

/// Whether the selector chooses an object with the labels: all its pairs are among them and
/// all its requirements are met.
pub open spec fn selects(sel: LabelSelectorView, labels: Map<Seq<char>, Seq<char>>) -> bool {
    &&& sel.match_labels.submap_of(labels)
    &&& forall|i: int|
        0 <= i < sel.match_expressions.len() ==> met(#[trigger] sel.match_expressions[i], labels)
}

/// Whether the selector asks for nothing.
pub open spec fn asks_nothing(sel: LabelSelectorView) -> bool {
    sel.match_labels == Map::<Seq<char>, Seq<char>>::empty() && sel.match_expressions.len() == 0
}

fn meets(req: &LabelSelectorRequirement, labels: &LabelMap) -> (r: bool)
    ensures
        r == met(req.deep_view(), labels@),
{
    assert(text::texts(req.values@) =~= req.values.deep_view());
    match req.operator {
        LabelSelectorOperator::In => match labels.get(req.key.as_str()) {
            Some(v) => holds_text(&req.values, v.as_str()),
            None => false,
        },
        LabelSelectorOperator::NotIn => match labels.get(req.key.as_str()) {
            Some(v) => !holds_text(&req.values, v.as_str()),
            None => true,
        },
        LabelSelectorOperator::Exists => labels.contains_key(req.key.as_str()),
        LabelSelectorOperator::DoesNotExist => !labels.contains_key(req.key.as_str()),
    }
}

/// Whether the selector chooses an object with the labels.
pub fn labels_match(sel: &LabelSelector, labels: &LabelMap) -> (r: bool)
    ensures
        r == selects(sel.deep_view(), labels@),
{
    if !sel.match_labels.within(labels) {
        return false;
    }
    let ghost exprs = sel.deep_view().match_expressions;
    for i in 0..sel.match_expressions.len()
        invariant
            exprs == sel.deep_view().match_expressions,
            exprs.len() == sel.match_expressions@.len(),
            forall|j: int| 0 <= j < i ==> met(#[trigger] exprs[j], labels@),
    {
        assert(exprs[i as int] == sel.match_expressions@[i as int].deep_view());
        if !meets(&sel.match_expressions[i], labels) {
            return false;
        }
    }
    true
}

/// Whether the selector asks for nothing.
pub fn is_empty_selector(sel: &LabelSelector) -> (r: bool)
    ensures
        r == asks_nothing(sel.deep_view()),
{
    let none = LabelMap::new();
    let a = sel.match_labels.within(&none);
    proof {
        let m = sel.match_labels@;
        if a {
            assert forall|k: Seq<char>| !m.contains_key(k) by {
                if m.dom().contains(k) {
                    assert(none@.dom().contains(k));
                }
            }
            assert(m =~= Map::<Seq<char>, Seq<char>>::empty());
        }
    }
    a && sel.match_expressions.len() == 0
}

/// A selector that asks for nothing chooses every object.
pub proof fn law_empty_selector_chooses_all(
    sel: LabelSelectorView,
    labels: Map<Seq<char>, Seq<char>>,
)
    requires
        asks_nothing(sel),
    ensures
        selects(sel, labels),
{
}

/// An object that carries the selector's pairs and meets its requirements keeps being chosen
/// when its other labels change.
pub proof fn law_selection_depends_on_named_labels_only(
    sel: LabelSelectorView,
    a: Map<Seq<char>, Seq<char>>,
    b: Map<Seq<char>, Seq<char>>,
)
    requires
        forall|k: Seq<char>|
            sel.match_labels.contains_key(k) ==> (a.contains_key(k) == b.contains_key(k) && (
            a.contains_key(k) ==> a[k] == b[k])),
        forall|i: int|
            0 <= i < sel.match_expressions.len() ==> {
                let k = (#[trigger] sel.match_expressions[i]).key;
                a.contains_key(k) == b.contains_key(k) && (a.contains_key(k) ==> a[k] == b[k])
            },
    ensures
        selects(sel, a) == selects(sel, b),
{
    assert forall|x: Map<Seq<char>, Seq<char>>, y: Map<Seq<char>, Seq<char>>|
        (x == a && y == b || x == b && y == a) && #[trigger] selects(sel, x) implies #[trigger] selects(sel, y) by {
        assert forall|i: int| 0 <= i < sel.match_expressions.len() implies met(
            #[trigger] sel.match_expressions[i],
            y,
        ) by {
            assert(met(sel.match_expressions[i], x));
        }
        assert(sel.match_labels.submap_of(y)) by {
            assert forall|k: Seq<char>| #[trigger] sel.match_labels.contains_key(k) implies y.contains_key(k)
                && sel.match_labels[k] == y[k] by {
                assert(x.contains_key(k));
            }
        }
    }
    if selects(sel, a) {
        assert(selects(sel, b));
    }
    if selects(sel, b) {
        assert(selects(sel, a));
    }
}

/// What a choice by labels comes to: each pair that the selector names stands among the labels,
/// with that value; a value that has to be one of several is one of them; one that must not be is
/// missing or another; a label that has to be there, or must not be, is there or is not.
pub proof fn law_selection_is_by_pairs_and_requirements(
    sel: LabelSelector,
    labels: LabelMap,
    r: bool,
)
    requires
        call_ensures(labels_match, (&sel, &labels), r),
    ensures
        r <==> {
            &&& forall|k: Seq<char>| #[trigger]
                sel.match_labels@.contains_key(k) ==> labels@.contains_key(k) && labels@[k]
                    == sel.match_labels@[k]
            &&& forall|i: int|
                0 <= i < sel.match_expressions@.len() ==> {
                    let q = #[trigger] sel.match_expressions@[i];
                    let there = labels@.contains_key(q.key@);
                    let listed = there && exists|j: int|
                        0 <= j < q.values@.len() && (#[trigger] q.values@[j])@ == labels@[q.key@];
                    &&& q.operator == LabelSelectorOperator::In ==> listed
                    &&& q.operator == LabelSelectorOperator::NotIn ==> !listed
                    &&& q.operator == LabelSelectorOperator::Exists ==> there
                    &&& q.operator == LabelSelectorOperator::DoesNotExist ==> !there
                }
        },
{
    let v = sel.deep_view();
    assert(v.match_expressions.len() == sel.match_expressions@.len());
    assert forall|i: int| 0 <= i < sel.match_expressions@.len() implies (met(
        v.match_expressions[i],
        labels@,
    ) <==> {
        let q = #[trigger] sel.match_expressions@[i];
        let there = labels@.contains_key(q.key@);
        let listed = there && exists|j: int|
            0 <= j < q.values@.len() && (#[trigger] q.values@[j])@ == labels@[q.key@];
        &&& q.operator == LabelSelectorOperator::In ==> listed
        &&& q.operator == LabelSelectorOperator::NotIn ==> !listed
        &&& q.operator == LabelSelectorOperator::Exists ==> there
        &&& q.operator == LabelSelectorOperator::DoesNotExist ==> !there
    }) by {
        let q = sel.match_expressions@[i];
        assert(v.match_expressions[i] == q.deep_view());
        let vs = q.values.deep_view();
        assert(vs.len() == q.values@.len());
        assert forall|j: int| 0 <= j < vs.len() implies #[trigger] vs[j] == q.values@[j]@ by {}
        if labels@.contains_key(q.key@) {
            let t = labels@[q.key@];
            if vs.contains(t) {
                let j = choose|j: int| 0 <= j < vs.len() && vs[j] == t;
                assert(q.values@[j]@ == t);
            }
            if exists|j: int| 0 <= j < q.values@.len() && (#[trigger] q.values@[j])@ == t {
                let j = choose|j: int| 0 <= j < q.values@.len() && (#[trigger] q.values@[j])@ == t;
                assert(vs[j] == t);
            }
        }
    }
    if r {
        assert forall|i: int| 0 <= i < sel.match_expressions@.len() implies met(
            v.match_expressions[i],
            labels@,
        ) by {}
        assert forall|k: Seq<char>| #[trigger] sel.match_labels@.contains_key(k) implies labels@.contains_key(
        k) && labels@[k] == sel.match_labels@[k] by {
            assert(sel.match_labels@.dom().contains(k));
        }
    } else {
        if forall|k: Seq<char>| #[trigger]
            sel.match_labels@.contains_key(k) ==> labels@.contains_key(k) && labels@[k]
                == sel.match_labels@[k] {
            assert(sel.match_labels@.submap_of(labels@));
            let i = choose|i: int|
                0 <= i < v.match_expressions.len() && !met(#[trigger] v.match_expressions[i], labels@);
            assert(!met(v.match_expressions[i], labels@));
            let q = sel.match_expressions@[i];
        }
    }
}

/// A selector asks for nothing exactly when it names no pair and no requirement.
pub proof fn law_empty_selector_names_nothing(sel: LabelSelector, r: bool)
    requires
        call_ensures(is_empty_selector, (&sel,), r),
    ensures
        r <==> sel.match_expressions@.len() == 0 && forall|k: Seq<char>|
            !#[trigger] sel.match_labels@.contains_key(k),
{
    assert(sel.deep_view().match_expressions.len() == sel.match_expressions@.len());
    if forall|k: Seq<char>| !#[trigger] sel.match_labels@.contains_key(k) {
        assert(sel.match_labels@ =~= Map::<Seq<char>, Seq<char>>::empty());
    }
}

} // verus!
