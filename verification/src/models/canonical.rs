//! The canonical identity of a filter: its desired outcome together with its
//! rules in canonical order. Two filters are the same filter exactly when
//! their keys are equal, whatever their identifiers, names and statistics.

use vstd::prelude::*;
use vstd::relations::sorted_by;
use vstd::seq_lib::{lemma_sorted_unique, to_multiset_build, to_multiset_insert};
use super::filter::{Filter, FilterView};
use super::rule::{clone_optional_text, lemma_rule_order_total, rule_less, rule_order};
use super::rule::{Rule, RuleView};
use crate::text::{compare_optional_text, Comparison};
use crate::views::lemma_deep_view_insert;

verus! {

/// The mathematical value of a `CanonicalKey`.
pub struct CanonicalKeyView {
    pub desired_outcome: Option<Seq<char>>,
    pub rules: Seq<RuleView>,
}

/// The rules in canonical order: the one sorted arrangement of them.
pub open spec fn canonical_rules(rules: Seq<RuleView>) -> Seq<RuleView> {
    rules.sort_by(rule_order())
}

/// The canonical key of a filter.
pub open spec fn canonical_key(f: FilterView) -> CanonicalKeyView {
    CanonicalKeyView { desired_outcome: f.desired_outcome, rules: canonical_rules(f.rules) }
}

/// Two records describe the same filter.
pub open spec fn same_filter(a: FilterView, b: FilterView) -> bool {
    canonical_key(a) == canonical_key(b)
}

/// The canonical arrangement holds exactly the given rules, each as often as
/// it was given, in ascending order.
pub proof fn lemma_canonical_rules(rules: Seq<RuleView>)
    ensures
        canonical_rules(rules).to_multiset() == rules.to_multiset(),
        canonical_rules(rules).len() == rules.len(),
        sorted_by(canonical_rules(rules), rule_order()),
{
    lemma_rule_order_total();
    rules.lemma_sort_by_ensures(rule_order());
    vstd::seq_lib::to_multiset_len(rules);
    vstd::seq_lib::to_multiset_len(canonical_rules(rules));
}

/// A sorted sequence with the same rules is the canonical arrangement.
pub proof fn lemma_sorted_is_canonical(sorted: Seq<RuleView>, rules: Seq<RuleView>)
    requires
        sorted_by(sorted, rule_order()),
        sorted.to_multiset() == rules.to_multiset(),
    ensures
        sorted == canonical_rules(rules),
{
    lemma_rule_order_total();
    lemma_canonical_rules(rules);
    lemma_sorted_unique(sorted, canonical_rules(rules), rule_order());
}

/// The canonical key does not depend on the order in which the rules were
/// supplied: a filter whose rules are a rearrangement of another's, with the
/// same desired outcome, has the same key.
pub proof fn lemma_canonical_key_order_independent(f: FilterView, rearranged: Seq<RuleView>)
    requires
        rearranged.to_multiset() == f.rules.to_multiset(),
    ensures
        canonical_key(FilterView { rules: rearranged, ..f }) == canonical_key(f),
{
    lemma_canonical_rules(rearranged);
    lemma_sorted_is_canonical(canonical_rules(rearranged), f.rules);
}

/// Two filters have the same canonical key exactly when they aim at the same
/// outcome and hold the same rules, each as often; nothing else takes part.
pub proof fn lemma_same_filter_characterised(a: FilterView, b: FilterView)
    ensures
        same_filter(a, b) <==> (a.desired_outcome == b.desired_outcome && a.rules.to_multiset()
            == b.rules.to_multiset()),
{
    lemma_canonical_rules(a.rules);
    lemma_canonical_rules(b.rules);
    if a.rules.to_multiset() == b.rules.to_multiset() {
        lemma_sorted_is_canonical(canonical_rules(a.rules), b.rules);
    }
}

/// Being the same filter is an equivalence.
pub proof fn lemma_same_filter_equivalence(a: FilterView, b: FilterView, c: FilterView)
    ensures
        same_filter(a, a),
        same_filter(a, b) ==> same_filter(b, a),
        same_filter(a, b) && same_filter(b, c) ==> same_filter(a, c),
{
}

/// The rules in canonical order.
pub fn sort_rules(rules: &Vec<Rule>) -> (sorted: Vec<Rule>)
    ensures
        sorted.deep_view() == canonical_rules(rules.deep_view()),
{
    let mut sorted: Vec<Rule> = Vec::new();
    let mut i: usize = 0;
    assert(sorted.deep_view() =~= rules.deep_view().take(0));
    while i < rules.len()
        invariant
            i <= rules@.len(),
            sorted@.len() == i,
            sorted_by(sorted.deep_view(), rule_order()),
            sorted.deep_view().to_multiset() == rules.deep_view().take(i as int).to_multiset(),
        decreases rules@.len() - i,
    {
        let rule = rules[i].clone();
        let mut at: usize = sorted.len();
        while at > 0 && sorted[at - 1].compare(&rule) == Comparison::Greater
            invariant
                at <= sorted@.len(),
                forall|k: int| at <= k < sorted@.len() ==> rule_less(rule@, #[trigger] sorted@[k]@),
            decreases at,
        {
            at -= 1;
        }
        let ghost before = sorted;
        sorted.insert(at, rule);
        proof {
            lemma_rule_order_total();
            lemma_deep_view_insert(before, sorted, at as int, rule);
            to_multiset_insert(before.deep_view(), at as int, rule@);
            let taken = rules.deep_view().take(i as int);
            assert(rules.deep_view().take(i + 1) =~= taken.push(rule@));
            to_multiset_build(taken, rule@);
            let old_view = before.deep_view();
            let new_view = sorted.deep_view();
            assert forall|a: int, b: int| 0 <= a < b < new_view.len() implies #[trigger] rule_order()(
                new_view[a],
                new_view[b],
            ) by {
                if b < at {
                    assert(rule_order()(old_view[a], old_view[b]));
                } else if b == at {
                    assert(rule_order()(old_view[a], old_view[at - 1]) || a == at - 1);
                    assert(old_view[at - 1] == before@[at - 1]@);
                    assert(rule_order()(old_view[at - 1], rule@));
                } else if a < at {
                    assert(rule_order()(old_view[a], old_view[b - 1]));
                } else if a == at {
                    assert(old_view[b - 1] == before@[b - 1]@);
                } else {
                    assert(rule_order()(old_view[a - 1], old_view[b - 1]));
                }
            }
        }
        i += 1;
    }
    proof {
        assert(rules.deep_view().take(i as int) =~= rules.deep_view());
        lemma_sorted_is_canonical(sorted.deep_view(), rules.deep_view());
    }
    sorted
}

/// The identity of a filter, ready to be compared or hashed.
#[derive(Debug, Hash)]
pub struct CanonicalKey {
    desired_outcome: Option<String>,
    rules: Vec<Rule>,
}

impl DeepView for CanonicalKey {
    type V = CanonicalKeyView;

    closed spec fn deep_view(&self) -> CanonicalKeyView {
        CanonicalKeyView {
            desired_outcome: self.desired_outcome.deep_view(),
            rules: self.rules.deep_view(),
        }
    }
}

impl View for CanonicalKey {
    type V = CanonicalKeyView;

    open spec fn view(&self) -> CanonicalKeyView {
        self.deep_view()
    }
}

impl CanonicalKey {
    /// A key holds its rules in canonical order.
    #[verifier::type_invariant]
    spec fn is_canonical(self) -> bool {
        sorted_by(self.rules.deep_view(), rule_order())
    }

    /// The outcome the filter aims at.
    pub fn desired_outcome(&self) -> (outcome: &Option<String>)
        ensures
            outcome.deep_view() == self@.desired_outcome,
    {
        &self.desired_outcome
    }

    /// The rules, in canonical order.
    pub fn rules(&self) -> (rules: &Vec<Rule>)
        ensures
            rules.deep_view() == self@.rules,
            sorted_by(rules.deep_view(), rule_order()),
    {
        proof {
            use_type_invariant(self);
        }
        &self.rules
    }
}

impl Clone for CanonicalKey {
    fn clone(&self) -> (r: CanonicalKey)
        ensures
            r@ == self@,
    {
        let mut rules: Vec<Rule> = Vec::new();
        let mut i: usize = 0;
        while i < self.rules.len()
            invariant
                i <= self.rules@.len(),
                rules.deep_view() == self.rules.deep_view().take(i as int),
            decreases self.rules@.len() - i,
        {
            let ghost before = rules;
            let rule = self.rules[i].clone();
            rules.push(rule);
            proof {
                crate::views::lemma_deep_view_push(before, rules, rule);
                assert(rules.deep_view() =~= self.rules.deep_view().take(i + 1));
            }
            i += 1;
        }
        proof {
            use_type_invariant(self);
            assert(rules.deep_view() =~= self.rules.deep_view());
        }
        CanonicalKey { desired_outcome: clone_optional_text(&self.desired_outcome), rules }
    }
}

impl PartialEq for CanonicalKey {
    fn eq(&self, other: &CanonicalKey) -> (r: bool) {
        if compare_optional_text(&self.desired_outcome, &other.desired_outcome)
            != Comparison::Equal {
            return false;
        }
        if self.rules.len() != other.rules.len() {
            assert(self.rules.deep_view().len() != other.rules.deep_view().len());
            return false;
        }
        let mut i: usize = 0;
        while i < self.rules.len()
            invariant
                self.rules@.len() == other.rules@.len(),
                i <= self.rules@.len(),
                forall|k: int| 0 <= k < i ==> self.rules@[k]@ == other.rules@[k]@,
            decreases self.rules@.len() - i,
        {
            if self.rules[i].compare(&other.rules[i]) != Comparison::Equal {
                assert(self.rules.deep_view()[i as int] != other.rules.deep_view()[i as int]);
                return false;
            }
            i += 1;
        }
        assert(self.rules.deep_view() =~= other.rules.deep_view());
        true
    }
}

impl vstd::std_specs::cmp::PartialEqSpecImpl for CanonicalKey {
    open spec fn obeys_eq_spec() -> bool {
        true
    }

    open spec fn eq_spec(&self, other: &CanonicalKey) -> bool {
        self@ == other@
    }
}

impl Eq for CanonicalKey {

}

impl Filter {
    /// The canonical key of this filter.
    pub fn canonical_key(&self) -> (key: CanonicalKey)
        ensures
            key@ == canonical_key(self@),
    {
        let rules = sort_rules(&self.rules);
        proof {
            lemma_canonical_rules(self.rules.deep_view());
        }
        CanonicalKey { desired_outcome: clone_optional_text(&self.desired_outcome), rules }
    }
}

impl PartialEq for Filter {
    /// Two filters are equal when they are the same filter: same desired
    /// outcome, same rules in any order.
    fn eq(&self, other: &Filter) -> (r: bool) {
        self.canonical_key() == other.canonical_key()
    }
}

impl vstd::std_specs::cmp::PartialEqSpecImpl for Filter {
    open spec fn obeys_eq_spec() -> bool {
        true
    }

    open spec fn eq_spec(&self, other: &Filter) -> bool {
        same_filter(self@, other@)
    }
}

impl Eq for Filter {

}

} // verus!
