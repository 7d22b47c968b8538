//! A filter is a named set of rules with the statistics of its past picks.
//!
//! The two percentages of a filter are held as the single-precision numbers
//! of the snapshot, by their bit patterns. Thresholds and scores read them in
//! thousandths of a percent; scores are in ten-thousandths of a point. All of
//! it is exact integer arithmetic.

use vstd::prelude::*;
use super::filter_traits::{FilterScoring, FilterValidation};
use super::percent::{at_least, below, not_a_number, units, units_of, UNITS_PER_PERCENT};
use super::rule::{clone_optional_text, Rule, RuleView};
use crate::text::starts_with;
use crate::views::lemma_deep_view_push;

verus! {

/// A return on investment of at least this many units (40 %) is asked of a
/// valid filter.
pub const VALID_MIN_ROI: i32 = 40 * UNITS_PER_PERCENT;

/// At least this many picks are asked of a valid filter.
pub const VALID_MIN_PICKS: u32 = 15;

/// A low performer returns less than this many units (10 %).
pub const LOW_ROI_LIMIT: i32 = 10 * UNITS_PER_PERCENT;

/// A low performer has more than this many picks.
pub const LOW_PICKS_FLOOR: u32 = 30;

/// A named rule set with its statistics.
#[derive(Debug)]
pub struct Filter {
    /// Identifier in the source system; no part of a filter's identity.
    pub id: i32,
    /// Return on investment in percent: the bit pattern of the number.
    pub roi: u32,
    pub name: String,
    /// The rules, in the order supplied; only which rules they are matters.
    pub rules: Vec<Rule>,
    pub total_picks: u32,
    /// Share of successful picks in percent: the bit pattern of the number.
    pub success_rate: u32,
    pub desired_outcome: Option<String>,
    /// Ranking value in ten-thousandths of a point; zero until the scorer
    /// sets it.
    pub score: i64,
}

/// The mathematical value of a `Filter`.
pub struct FilterView {
    pub id: int,
    pub roi: u32,
    pub name: Seq<char>,
    pub rules: Seq<RuleView>,
    pub total_picks: nat,
    pub success_rate: u32,
    pub desired_outcome: Option<Seq<char>>,
    pub score: int,
}

impl DeepView for Filter {
    type V = FilterView;

    open spec fn deep_view(&self) -> FilterView {
        FilterView {
            id: self.id as int,
            roi: self.roi,
            name: self.name@,
            rules: self.rules.deep_view(),
            total_picks: self.total_picks as nat,
            success_rate: self.success_rate,
            desired_outcome: self.desired_outcome.deep_view(),
            score: self.score as int,
        }
    }
}

impl View for Filter {
    type V = FilterView;

    open spec fn view(&self) -> FilterView {
        self.deep_view()
    }
}

/// The weights of the ranking formula, in tenths.
#[derive(Clone, Copy, Debug, PartialEq, Eq, Structural)]
pub struct ScoreWeights {
    pub roi: u16,
    pub success_rate: u16,
    pub picks: u16,
}

/// The weighting in use: 0.8 for the return, 0.3 for the success rate and
/// 0.1 for the number of picks.
pub open spec fn reference_weights_spec() -> ScoreWeights {
    ScoreWeights { roi: 8, success_rate: 3, picks: 1 }
}

/// The weighting in use.
#[verifier::when_used_as_spec(reference_weights_spec)]
pub fn reference_weights() -> (w: ScoreWeights)
    ensures
        w == reference_weights_spec(),
{
    ScoreWeights { roi: 8, success_rate: 3, picks: 1 }
}

/// The filter lost money: its return is a number below zero.
pub open spec fn is_losing(f: FilterView) -> bool {
    below(f.roi, 0)
}

/// The weighted sum of return, success rate and picks, in ten-thousandths of
/// a point: a percent counts as a thousand units and so does a pick. It is
/// zero for a filter that lost money.
pub open spec fn weighted_score(f: FilterView, w: ScoreWeights) -> int {
    if is_losing(f) {
        0
    } else {
        w.roi * units_of(f.roi) + w.success_rate * units_of(f.success_rate) + w.picks * (
        UNITS_PER_PERCENT * f.total_picks)
    }
}

/// The score of a filter under the weighting in use.
pub open spec fn filter_score(f: FilterView) -> int {
    weighted_score(f, reference_weights_spec())
}

/// The outcome codes that no valid filter may aim at: those that begin with
/// `CO` or `CU`.
pub open spec fn is_excluded_outcome(code: Seq<char>) -> bool {
    seq!['C', 'O'].is_prefix_of(code) || seq!['C', 'U'].is_prefix_of(code)
}

/// A candidate for promotion: a high return over enough picks, aimed at an
/// outcome that is not excluded.
pub open spec fn filter_is_valid(f: FilterView) -> bool {
    &&& at_least(f.roi, VALID_MIN_ROI as int)
    &&& f.total_picks >= VALID_MIN_PICKS
    &&& f.desired_outcome matches Some(code) && !is_excluded_outcome(code)
}

/// A candidate for removal: a low return over a sample that is large enough.
pub open spec fn filter_is_low_performing(f: FilterView) -> bool {
    below(f.roi, LOW_ROI_LIMIT as int) && f.total_picks > LOW_PICKS_FLOOR
}

/// The filter with its score computed.
pub open spec fn scored(f: FilterView) -> FilterView {
    FilterView { score: filter_score(f), ..f }
}

impl Filter {
    /// The ranking value under the given weights.
    pub fn score_with(&self, weights: &ScoreWeights) -> (s: i64)
        ensures
            s == weighted_score(self@, *weights),
            is_losing(self@) ==> s == 0,
    {
        let roi = units(self.roi) as i64;
        if roi < 0 && !not_a_number(self.roi) {
            return 0;
        }
        let rate = units(self.success_rate) as i64;
        let picks = (UNITS_PER_PERCENT as i64) * (self.total_picks as i64);
        let w_roi = weights.roi as i64;
        let w_rate = weights.success_rate as i64;
        let w_picks = weights.picks as i64;
        assert(-0x1_0000 * 0x8000_0000 <= w_roi * roi <= 0x1_0000 * 0x8000_0000)
            by (nonlinear_arith)
            requires
                0 <= w_roi < 0x1_0000,
                -0x8000_0000 <= roi < 0x8000_0000,
        ;
        assert(-0x1_0000 * 0x8000_0000 <= w_rate * rate <= 0x1_0000 * 0x8000_0000)
            by (nonlinear_arith)
            requires
                0 <= w_rate < 0x1_0000,
                -0x8000_0000 <= rate < 0x8000_0000,
        ;
        assert(0 <= w_picks * picks <= 0x1_0000 * 0x400_0000_0000) by (nonlinear_arith)
            requires
                0 <= w_picks < 0x1_0000,
                0 <= picks < 0x400_0000_0000,
        ;
        w_roi * roi + w_rate * rate + w_picks * picks
    }
}

impl FilterScoring for Filter {
    /// The ranking value under the weighting in use. It is zero whenever the
    /// return is negative, whatever the other statistics are.
    fn get_score(&self) -> (s: i64)
        ensures
            s == filter_score(self@),
            is_losing(self@) ==> s == 0,
    {
        self.score_with(&reference_weights())
    }
}

impl FilterValidation for Filter {
    fn is_low_performing(&self) -> (r: bool)
        ensures
            r == filter_is_low_performing(self@),
    {
        !not_a_number(self.roi) && units(self.roi) < LOW_ROI_LIMIT && self.total_picks
            > LOW_PICKS_FLOOR
    }

    fn is_valid(&self) -> (r: bool)
        ensures
            r == filter_is_valid(self@),
    {
        if not_a_number(self.roi) || units(self.roi) < VALID_MIN_ROI || self.total_picks
            < VALID_MIN_PICKS {
            return false;
        }
        match &self.desired_outcome {
            None => false,
            Some(code) => {
                proof {
                    reveal_strlit("CO");
                    reveal_strlit("CU");
                    assert("CO"@ =~= seq!['C', 'O']);
                    assert("CU"@ =~= seq!['C', 'U']);
                }
                !starts_with(code.as_str(), "CO") && !starts_with(code.as_str(), "CU")
            },
        }
    }
}

impl Clone for Filter {
    fn clone(&self) -> (r: Filter)
        ensures
            r@ == self@,
    {
        let mut rules: Vec<Rule> = Vec::new();
        let mut i: usize = 0;
        while i < self.rules.len()
            invariant
                i <= self.rules@.len(),
                rules.deep_view() == self.rules.deep_view().take(i as int),
            decreases self.rules@.len() - i,
        {
            let ghost before = rules;
            let rule = self.rules[i].clone();
            rules.push(rule);
            proof {
                lemma_deep_view_push(before, rules, rule);
                assert(rules.deep_view() =~= self.rules.deep_view().take(i + 1));
            }
            i += 1;
        }
        assert(rules.deep_view() =~= self.rules.deep_view());
        Filter {
            id: self.id,
            roi: self.roi,
            name: self.name.clone(),
            rules,
            total_picks: self.total_picks,
            success_rate: self.success_rate,
            desired_outcome: clone_optional_text(&self.desired_outcome),
            score: self.score,
        }
    }
}

impl Default for Filter {
    /// The empty filter: no rules, no name, all statistics zero.
    fn default() -> (r: Filter)
        ensures
            r@ == (FilterView {
                id: 0,
                roi: 0,
                name: Seq::empty(),
                rules: Seq::empty(),
                total_picks: 0,
                success_rate: 0,
                desired_outcome: None,
                score: 0,
            }),
    {
        let r = Filter {
            id: 0,
            roi: 0,
            name: String::new(),
            rules: Vec::new(),
            total_picks: 0,
            success_rate: 0,
            desired_outcome: None,
            score: 0,
        };
        assert(r.rules.deep_view() =~= Seq::empty());
        r
    }
}

} // verus!
