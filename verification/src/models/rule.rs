//! A rule is one atomic comparison condition of a filter. Rules have no
//! behaviour beyond equality and a total order, which puts any collection of
//! them into one canonical sequence.

use vstd::prelude::*;
use crate::text::{compare_optional_text, optional_text_less, Comparison};
use crate::text::lemma_optional_text_less_total_order;

verus! {

/// One comparison condition. `value_to_compare` holds the bit pattern of the
/// single-precision threshold, so that every threshold (a NaN, a negative
/// zero) is equal to itself and has one place in the order.
#[derive(Debug, Hash)]
pub struct Rule {
    pub target: Option<String>,
    pub probability: Option<String>,
    pub time: Option<String>,
    pub value_to_compare: Option<u32>,
    pub trend_stats: Option<String>,
    pub comparator_type: Option<String>,
    pub rule_type: Option<String>,
}

/// The mathematical value of a `Rule`.
pub struct RuleView {
    pub target: Option<Seq<char>>,
    pub probability: Option<Seq<char>>,
    pub time: Option<Seq<char>>,
    pub value_to_compare: Option<u32>,
    pub trend_stats: Option<Seq<char>>,
    pub comparator_type: Option<Seq<char>>,
    pub rule_type: Option<Seq<char>>,
}

impl DeepView for Rule {
    type V = RuleView;

    open spec fn deep_view(&self) -> RuleView {
        RuleView {
            target: self.target.deep_view(),
            probability: self.probability.deep_view(),
            time: self.time.deep_view(),
            value_to_compare: self.value_to_compare,
            trend_stats: self.trend_stats.deep_view(),
            comparator_type: self.comparator_type.deep_view(),
            rule_type: self.rule_type.deep_view(),
        }
    }
}

impl View for Rule {
    type V = RuleView;

    open spec fn view(&self) -> RuleView {
        self.deep_view()
    }
}

/// Strict order on optional bit patterns: absent first, then by the pattern
/// read as an unsigned number.
pub open spec fn optional_bits_less(a: Option<u32>, b: Option<u32>) -> bool {
    match (a, b) {
        (None, Some(_)) => true,
        (Some(x), Some(y)) => x < y,
        _ => false,
    }
}

/// The canonical strict order on rules: lexicographic over comparator type,
/// target, rule type, probability, time, trend stats and threshold bits.
pub open spec fn rule_less(a: RuleView, b: RuleView) -> bool {
    if a.comparator_type != b.comparator_type {
        optional_text_less(a.comparator_type, b.comparator_type)
    } else if a.target != b.target {
        optional_text_less(a.target, b.target)
    } else if a.rule_type != b.rule_type {
        optional_text_less(a.rule_type, b.rule_type)
    } else if a.probability != b.probability {
        optional_text_less(a.probability, b.probability)
    } else if a.time != b.time {
        optional_text_less(a.time, b.time)
    } else if a.trend_stats != b.trend_stats {
        optional_text_less(a.trend_stats, b.trend_stats)
    } else {
        optional_bits_less(a.value_to_compare, b.value_to_compare)
    }
}

/// `a` is `b` or comes before it.
pub open spec fn rule_leq(a: RuleView, b: RuleView) -> bool {
    a == b || rule_less(a, b)
}

/// `rule_leq` as a relation, for sorting.
pub open spec fn rule_order() -> spec_fn(RuleView, RuleView) -> bool {
    |a: RuleView, b: RuleView| rule_leq(a, b)
}

/// `rule_less` is a strict total order: no rule precedes itself, two
/// different rules are ordered one way and not the other, and the order is
/// transitive.
pub proof fn lemma_rule_less_total_order(a: RuleView, b: RuleView, c: RuleView)
    ensures
        !rule_less(a, a),
        rule_less(a, b) ==> !rule_less(b, a),
        rule_less(a, b) && rule_less(b, c) ==> rule_less(a, c),
        a != b ==> rule_less(a, b) || rule_less(b, a),
{
    lemma_optional_text_less_total_order(a.comparator_type, b.comparator_type, c.comparator_type);
    lemma_optional_text_less_total_order(a.target, b.target, c.target);
    lemma_optional_text_less_total_order(a.rule_type, b.rule_type, c.rule_type);
    lemma_optional_text_less_total_order(a.probability, b.probability, c.probability);
    lemma_optional_text_less_total_order(a.time, b.time, c.time);
    lemma_optional_text_less_total_order(a.trend_stats, b.trend_stats, c.trend_stats);
}

/// `rule_order` is a total ordering, so a collection of rules has exactly one
/// sorted arrangement.
pub proof fn lemma_rule_order_total()
    ensures
        vstd::relations::total_ordering(rule_order()),
{
    let r = rule_order();
    assert forall|x: RuleView, y: RuleView| #[trigger] r(x, y) && #[trigger] r(y, x) implies x
        == y by {
        lemma_rule_less_total_order(x, y, x);
    }
    assert forall|x: RuleView, y: RuleView, z: RuleView| #[trigger] r(x, y) && #[trigger] r(
        y,
        z,
    ) implies r(x, z) by {
        lemma_rule_less_total_order(x, y, z);
    }
    assert forall|x: RuleView, y: RuleView| #[trigger] r(x, y) || #[trigger] r(y, x) by {
        lemma_rule_less_total_order(x, y, x);
    }
}

impl Rule {
    /// Compares two rules in the canonical order.
    pub fn compare(&self, other: &Rule) -> (c: Comparison)
        ensures
            c is Less <==> rule_less(self@, other@),
            c is Equal <==> self@ == other@,
            c is Greater <==> rule_less(other@, self@),
    {
        proof {
            lemma_rule_less_total_order(self@, other@, self@);
            lemma_rule_less_total_order(other@, self@, other@);
        }
        let c = compare_optional_text(&self.comparator_type, &other.comparator_type);
        if c != Comparison::Equal {
            return c;
        }
        let c = compare_optional_text(&self.target, &other.target);
        if c != Comparison::Equal {
            return c;
        }
        let c = compare_optional_text(&self.rule_type, &other.rule_type);
        if c != Comparison::Equal {
            return c;
        }
        let c = compare_optional_text(&self.probability, &other.probability);
        if c != Comparison::Equal {
            return c;
        }
        let c = compare_optional_text(&self.time, &other.time);
        if c != Comparison::Equal {
            return c;
        }
        let c = compare_optional_text(&self.trend_stats, &other.trend_stats);
        if c != Comparison::Equal {
            return c;
        }
        match (self.value_to_compare, other.value_to_compare) {
            (None, None) => Comparison::Equal,
            (None, Some(_)) => Comparison::Less,
            (Some(_), None) => Comparison::Greater,
            (Some(x), Some(y)) => if x < y {
                Comparison::Less
            } else if y < x {
                Comparison::Greater
            } else {
                Comparison::Equal
            },
        }
    }
}

/// Copies an optional string.
pub fn clone_optional_text(s: &Option<String>) -> (r: Option<String>)
    ensures
        r.deep_view() == s.deep_view(),
{
    match s {
        Some(x) => Some(x.clone()),
        None => None,
    }
}

impl Clone for Rule {
    fn clone(&self) -> (r: Rule)
        ensures
            r@ == self@,
    {
        Rule {
            target: clone_optional_text(&self.target),
            probability: clone_optional_text(&self.probability),
            time: clone_optional_text(&self.time),
            value_to_compare: self.value_to_compare,
            trend_stats: clone_optional_text(&self.trend_stats),
            comparator_type: clone_optional_text(&self.comparator_type),
            rule_type: clone_optional_text(&self.rule_type),
        }
    }
}

impl PartialEq for Rule {
    /// Two rules are equal when every field is equal, thresholds by their bits.
    fn eq(&self, other: &Rule) -> (r: bool) {
        self.compare(other) == Comparison::Equal
    }
}

impl vstd::std_specs::cmp::PartialEqSpecImpl for Rule {
    open spec fn obeys_eq_spec() -> bool {
        true
    }

    open spec fn eq_spec(&self, other: &Rule) -> bool {
        self@ == other@
    }
}

impl Eq for Rule {

}

} // verus!
