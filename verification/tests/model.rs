use std::collections::hash_map::DefaultHasher;
use std::hash::{Hash, Hasher};

use filter_analyzer::models::filter::{reference_weights, Filter, ScoreWeights};
use filter_analyzer::models::filter::{LOW_PICKS_FLOOR, LOW_ROI_LIMIT};
use filter_analyzer::models::filter::{VALID_MIN_PICKS, VALID_MIN_ROI};
use filter_analyzer::models::filter_traits::{FilterScoring, FilterValidation};
use filter_analyzer::models::percent::{not_a_number, units, UNITS_PER_PERCENT};
use filter_analyzer::models::rule::Rule;
use filter_analyzer::text::Comparison;

fn text(s: &str) -> Option<String> {
    Some(s.to_string())
}

fn rule(comparator: &str, target: &str, value: f32) -> Rule {
    Rule {
        target: text(target),
        probability: None,
        time: None,
        value_to_compare: Some(value.to_bits()),
        trend_stats: None,
        comparator_type: text(comparator),
        rule_type: text("STAT"),
    }
}

fn blank_rule() -> Rule {
    Rule {
        target: None,
        probability: None,
        time: None,
        value_to_compare: None,
        trend_stats: None,
        comparator_type: None,
        rule_type: None,
    }
}

fn filter(id: i32, roi: f32, picks: u32, rate: f32, outcome: Option<&str>, rules: Vec<Rule>) -> Filter {
    Filter {
        id,
        roi: roi.to_bits(),
        name: format!("filter {}", id),
        rules,
        total_picks: picks,
        success_rate: rate.to_bits(),
        desired_outcome: outcome.map(|s| s.to_string()),
        score: 0,
    }
}

fn hash_of<T: Hash>(value: &T) -> u64 {
    let mut hasher = DefaultHasher::new();
    value.hash(&mut hasher);
    hasher.finish()
}

#[test]
fn rules_are_equal_when_every_field_is_equal() {
    assert!(rule("GT", "HOME_GOALS", 1.5) == rule("GT", "HOME_GOALS", 1.5));
    assert!(rule("GT", "HOME_GOALS", 1.5) != rule("GT", "HOME_GOALS", 2.5));
    assert!(rule("GT", "HOME_GOALS", 1.5) != rule("LT", "HOME_GOALS", 1.5));
    assert!(rule("GT", "HOME_GOALS", 1.5) != rule("GT", "AWAY_GOALS", 1.5));
    let mut other = rule("GT", "HOME_GOALS", 1.5);
    other.probability = text("0.5");
    assert!(rule("GT", "HOME_GOALS", 1.5) != other);
    let mut other = rule("GT", "HOME_GOALS", 1.5);
    other.time = text("45");
    assert!(rule("GT", "HOME_GOALS", 1.5) != other);
    let mut other = rule("GT", "HOME_GOALS", 1.5);
    other.trend_stats = text("UP");
    assert!(rule("GT", "HOME_GOALS", 1.5) != other);
    let mut other = rule("GT", "HOME_GOALS", 1.5);
    other.rule_type = None;
    assert!(rule("GT", "HOME_GOALS", 1.5) != other);
}

#[test]
fn thresholds_are_compared_by_their_bits() {
    assert!(rule("GT", "X", f32::NAN) == rule("GT", "X", f32::NAN));
    assert!(rule("GT", "X", 0.0) != rule("GT", "X", -0.0));
    assert_eq!(rule("GT", "X", f32::NAN).compare(&rule("GT", "X", f32::NAN)), Comparison::Equal);
    assert_eq!(rule("GT", "X", 0.0).compare(&rule("GT", "X", -0.0)), Comparison::Less);
    assert_eq!(rule("GT", "X", -0.0).compare(&rule("GT", "X", 0.0)), Comparison::Greater);
    assert_eq!(rule("GT", "X", 1.0).compare(&rule("GT", "X", 2.0)), Comparison::Less);
}

#[test]
fn rule_order_goes_by_field_priority() {
    // comparator type decides before target
    assert_eq!(rule("A", "Z", 9.0).compare(&rule("B", "A", 1.0)), Comparison::Less);
    // target decides before rule type
    let mut left = rule("A", "A", 1.0);
    left.rule_type = text("Z");
    let mut right = rule("A", "B", 1.0);
    right.rule_type = text("A");
    assert_eq!(left.compare(&right), Comparison::Less);
    // rule type decides before probability
    let mut left = rule("A", "A", 1.0);
    left.rule_type = text("A");
    left.probability = text("9");
    let mut right = rule("A", "A", 1.0);
    right.rule_type = text("B");
    right.probability = text("1");
    assert_eq!(left.compare(&right), Comparison::Less);
    // probability decides before time
    let mut left = rule("A", "A", 1.0);
    left.probability = text("1");
    left.time = text("9");
    let mut right = rule("A", "A", 1.0);
    right.probability = text("2");
    right.time = text("1");
    assert_eq!(left.compare(&right), Comparison::Less);
    // time decides before trend stats
    let mut left = rule("A", "A", 1.0);
    left.time = text("1");
    left.trend_stats = text("9");
    let mut right = rule("A", "A", 1.0);
    right.time = text("2");
    right.trend_stats = text("1");
    assert_eq!(left.compare(&right), Comparison::Less);
    // trend stats decide before the threshold
    let mut left = rule("A", "A", 9.0);
    left.trend_stats = text("1");
    let mut right = rule("A", "A", 1.0);
    right.trend_stats = text("2");
    assert_eq!(left.compare(&right), Comparison::Less);
    assert_eq!(right.compare(&left), Comparison::Greater);
}

#[test]
fn absent_fields_come_before_present_ones() {
    let mut present = blank_rule();
    present.comparator_type = text("");
    assert_eq!(blank_rule().compare(&present), Comparison::Less);
    assert_eq!(present.compare(&blank_rule()), Comparison::Greater);
    let mut with_value = blank_rule();
    with_value.value_to_compare = Some(0);
    assert_eq!(blank_rule().compare(&with_value), Comparison::Less);
    assert_eq!(blank_rule().compare(&blank_rule()), Comparison::Equal);
}

#[test]
fn canonical_key_does_not_depend_on_rule_order() {
    let a = rule("GT", "HOME_GOALS", 1.5);
    let b = rule("LT", "AWAY_GOALS", 0.5);
    let c = rule("EQ", "CORNERS", 7.0);
    let first = filter(1, 5.0, 20, 6.0, Some("1"), vec![a.clone(), b.clone(), c.clone()]);
    let arrangements = vec![
        vec![a.clone(), c.clone(), b.clone()],
        vec![b.clone(), a.clone(), c.clone()],
        vec![b.clone(), c.clone(), a.clone()],
        vec![c.clone(), a.clone(), b.clone()],
        vec![c.clone(), b.clone(), a.clone()],
    ];
    for rules in arrangements {
        let other = filter(1, 5.0, 20, 6.0, Some("1"), rules);
        assert!(first.canonical_key() == other.canonical_key());
        assert!(first == other);
    }
}

#[test]
fn canonical_key_holds_the_rules_in_ascending_order() {
    let a = rule("GT", "HOME_GOALS", 1.5);
    let b = rule("LT", "AWAY_GOALS", 0.5);
    let c = rule("EQ", "CORNERS", 7.0);
    let key = filter(1, 0.0, 0, 0.0, Some("X"), vec![a.clone(), b.clone(), c.clone()]).canonical_key();
    assert_eq!(key.desired_outcome(), &Some("X".to_string()));
    assert_eq!(key.rules().len(), 3);
    assert!(key.rules()[0] == c);
    assert!(key.rules()[1] == a);
    assert!(key.rules()[2] == b);
}

#[test]
fn identity_ignores_id_name_and_statistics() {
    let rules = vec![rule("GT", "HOME_GOALS", 1.5)];
    let one = filter(1, 5.0, 20, 6.0, Some("1"), rules.clone());
    let mut two = filter(2, -0.3, 7, 1.234, Some("1"), rules);
    two.name = "something else".to_string();
    two.score = 99;
    assert!(one == two);
    assert!(one.canonical_key() == two.canonical_key());
}

#[test]
fn identity_depends_on_outcome_and_on_the_rules_with_their_number() {
    let r = rule("GT", "HOME_GOALS", 1.5);
    let base = filter(1, 5.0, 20, 6.0, Some("1"), vec![r.clone()]);
    assert!(base != filter(1, 5.0, 20, 6.0, Some("2"), vec![r.clone()]));
    assert!(base != filter(1, 5.0, 20, 6.0, None, vec![r.clone()]));
    assert!(base != filter(1, 5.0, 20, 6.0, Some("1"), vec![]));
    assert!(base != filter(1, 5.0, 20, 6.0, Some("1"), vec![r.clone(), r.clone()]));
    assert!(base != filter(1, 5.0, 20, 6.0, Some("1"), vec![rule("GT", "HOME_GOALS", 2.5)]));
}

#[test]
fn identity_is_an_equivalence() {
    let a = rule("GT", "HOME_GOALS", 1.5);
    let b = rule("LT", "AWAY_GOALS", 0.5);
    let x = filter(1, 0.001, 1, 0.001, Some("1"), vec![a.clone(), b.clone()]);
    let y = filter(2, 0.002, 2, 0.002, Some("1"), vec![b.clone(), a.clone()]);
    let z = filter(3, 0.003, 3, 0.003, Some("1"), vec![a.clone(), b.clone()]);
    assert!(x == x);
    assert!(x == y && y == x);
    assert!(y == z);
    assert!(x == z);
}

#[test]
fn equal_keys_hash_identically() {
    let a = rule("GT", "HOME_GOALS", 1.5);
    let b = rule("LT", "AWAY_GOALS", f32::NAN);
    let x = filter(1, 0.001, 1, 0.001, Some("GG"), vec![a.clone(), b.clone()]);
    let y = filter(2, 0.002, 2, 0.002, Some("GG"), vec![b, a]);
    assert!(x.canonical_key() == y.canonical_key());
    assert_eq!(hash_of(&x.canonical_key()), hash_of(&y.canonical_key()));
}

#[test]
fn score_is_the_weighted_sum_in_ten_thousandths() {
    // 0.8 * 50 + 0.3 * 60 + 0.1 * 20 = 60
    assert_eq!(filter(1, 50.0, 20, 60.0, Some("1"), vec![]).get_score(), 600_000);
    // 0.8 * 12.345 + 0.3 * 56.789 + 0.1 * 3 = 9.876 + 17.0367 + 0.3 = 27.2127
    assert_eq!(filter(1, 12.345, 3, 56.789, None, vec![]).get_score(), 272_127);
    // a return of zero is not negative: 0.3 * 10 + 0.1 * 1 = 3.1
    assert_eq!(filter(1, 0.0, 1, 10.0, None, vec![]).get_score(), 31_000);
    // a negative success rate still enters the sum: 0.8 * 1 - 0.3 * 1 = 0.5
    assert_eq!(filter(1, 1.0, 0, -1.0, None, vec![]).get_score(), 5_000);
}

#[test]
fn score_is_zero_for_a_negative_return() {
    assert_eq!(filter(1, -0.001, 1_000_000, 100.0, Some("1"), vec![]).get_score(), 0);
    assert_eq!(filter(1, -5.0, 5, 10.0, Some("1"), vec![]).get_score(), 0);
    assert_eq!(filter(1, f32::MIN, u32::MAX, f32::MAX, None, vec![]).get_score(), 0);
    assert_eq!(filter(1, f32::NEG_INFINITY, 1, 1.0, None, vec![]).get_score(), 0);
    // the smallest number below zero still counts as a loss
    assert_eq!(filter(1, -f32::from_bits(1), 7, 70.0, None, vec![]).get_score(), 0);
    // a negative zero is no loss: 0.3 * 70 + 0.1 * 7 = 21.7
    assert_eq!(filter(1, -0.0, 7, 70.0, None, vec![]).get_score(), 217_000);
}

#[test]
fn score_does_not_overflow_at_the_limits() {
    let top = filter(1, f32::MAX, u32::MAX, f32::INFINITY, None, vec![]);
    let expected = 8 * (i32::MAX as i64) + 3 * (i32::MAX as i64) + 1000 * (u32::MAX as i64);
    assert_eq!(top.get_score(), expected);
    let low = filter(1, 0.0, 0, f32::NEG_INFINITY, None, vec![]);
    assert_eq!(low.get_score(), 3 * (i32::MIN as i64));
    // what is no number reads as zero and is no loss
    assert_eq!(filter(1, f32::NAN, 10, f32::NAN, None, vec![]).get_score(), 10_000);
    assert_eq!(filter(1, 10.0, 0, f32::NAN, None, vec![]).get_score(), 80_000);
}

#[test]
fn score_follows_the_weights_given() {
    let f = filter(1, 50.0, 20, 60.0, Some("1"), vec![]);
    // 0.5 * 50 + 0.3 * 60 + 0.2 * 20 = 47
    let other = ScoreWeights { roi: 5, success_rate: 3, picks: 2 };
    assert_eq!(f.score_with(&other), 470_000);
    assert_eq!(f.score_with(&reference_weights()), f.get_score());
    assert_eq!(reference_weights(), ScoreWeights { roi: 8, success_rate: 3, picks: 1 });
    let heavy = ScoreWeights { roi: u16::MAX, success_rate: u16::MAX, picks: u16::MAX };
    let top = filter(1, 3.0e6, u32::MAX, 1.0e9, None, vec![]);
    let expected = 65535 * (i32::MAX as i64) * 2 + 65535 * 1000 * (u32::MAX as i64);
    assert_eq!(top.score_with(&heavy), expected);
    assert_eq!(filter(1, -0.001, 9, 0.009, None, vec![]).score_with(&heavy), 0);
}

#[test]
fn valid_asks_for_return_picks_and_an_allowed_outcome() {
    assert!(filter(1, 40.0, 15, 0.0, Some("1"), vec![]).is_valid());
    assert!(filter(1, 50.0, 20, 60.0, Some("GG"), vec![]).is_valid());
    assert!(!filter(1, 39.999, 15, 0.0, Some("1"), vec![]).is_valid());
    assert!(!filter(1, 40.0, 14, 0.0, Some("1"), vec![]).is_valid());
    assert!(!filter(1, 40.0, 15, 0.0, None, vec![]).is_valid());
    assert!(!filter(1, -5.0, 5, 10.0, Some("1"), vec![]).is_valid());
    // the numbers next to the threshold on either side
    let forty = 40.0f32.to_bits();
    assert!(filter(1, f32::from_bits(forty + 1), 15, 0.0, Some("1"), vec![]).is_valid());
    assert!(!filter(1, f32::from_bits(forty - 1), 15, 0.0, Some("1"), vec![]).is_valid());
    assert!(filter(1, f32::INFINITY, 15, 0.0, Some("1"), vec![]).is_valid());
    assert!(!filter(1, f32::NAN, 15, 0.0, Some("1"), vec![]).is_valid());
    assert!(!filter(1, -40.0, 15, 0.0, Some("1"), vec![]).is_valid());
}

#[test]
fn valid_refuses_outcomes_that_begin_with_co_or_cu() {
    assert!(!filter(1, 40.0, 15, 0.0, Some("CO"), vec![]).is_valid());
    assert!(!filter(1, 40.0, 15, 0.0, Some("CU"), vec![]).is_valid());
    assert!(!filter(1, 40.0, 15, 0.0, Some("CO85"), vec![]).is_valid());
    assert!(!filter(1, 40.0, 15, 0.0, Some("CU105"), vec![]).is_valid());
    assert!(filter(1, 40.0, 15, 0.0, Some("C"), vec![]).is_valid());
    assert!(filter(1, 40.0, 15, 0.0, Some(""), vec![]).is_valid());
    assert!(filter(1, 40.0, 15, 0.0, Some("OC"), vec![]).is_valid());
    assert!(filter(1, 40.0, 15, 0.0, Some("co"), vec![]).is_valid());
    assert!(filter(1, 40.0, 15, 0.0, Some("XCO"), vec![]).is_valid());
    assert!(filter(1, 40.0, 15, 0.0, Some("CX"), vec![]).is_valid());
}

#[test]
fn low_performing_asks_for_a_low_return_over_many_picks() {
    assert!(filter(1, 5.0, 40, 0.0, None, vec![]).is_low_performing());
    assert!(!filter(1, 5.0, 10, 0.0, None, vec![]).is_low_performing());
    assert!(filter(1, 9.999, 31, 0.0, None, vec![]).is_low_performing());
    assert!(!filter(1, 9.999, 30, 0.0, None, vec![]).is_low_performing());
    assert!(!filter(1, 10.0, 31, 0.0, None, vec![]).is_low_performing());
    assert!(filter(1, -20.0, 31, 0.0, None, vec![]).is_low_performing());
    // the numbers next to the limit on either side
    let ten = 10.0f32.to_bits();
    assert!(filter(1, f32::from_bits(ten - 1), 31, 0.0, None, vec![]).is_low_performing());
    assert!(!filter(1, f32::from_bits(ten + 1), 31, 0.0, None, vec![]).is_low_performing());
    assert!(filter(1, f32::NEG_INFINITY, 31, 0.0, None, vec![]).is_low_performing());
    assert!(!filter(1, f32::INFINITY, 31, 0.0, None, vec![]).is_low_performing());
    assert!(!filter(1, f32::NAN, 31, 0.0, None, vec![]).is_low_performing());
}

#[test]
fn a_filter_can_be_neither_valid_nor_low_performing() {
    let f = filter(1, 20.0, 50, 50.0, Some("1"), vec![]);
    assert!(!f.is_valid());
    assert!(!f.is_low_performing());
}

#[test]
fn default_filter_is_empty() {
    let f = Filter::default();
    assert_eq!(f.id, 0);
    assert_eq!(f.roi, 0.0f32.to_bits());
    assert_eq!(f.name, "");
    assert!(f.rules.is_empty());
    assert_eq!(f.total_picks, 0);
    assert_eq!(f.success_rate, 0.0f32.to_bits());
    assert_eq!(f.desired_outcome, None);
    assert_eq!(f.score, 0);
}

#[test]
fn clone_keeps_every_field() {
    let mut f = filter(7, 1.234, 5, 0.678, Some("X2"), vec![rule("GT", "A", 1.0), blank_rule()]);
    f.score = 42;
    let g = f.clone();
    assert_eq!(g.id, 7);
    assert_eq!(g.roi, 1.234f32.to_bits());
    assert_eq!(g.name, "filter 7");
    assert_eq!(g.total_picks, 5);
    assert_eq!(g.success_rate, 0.678f32.to_bits());
    assert_eq!(g.desired_outcome, Some("X2".to_string()));
    assert_eq!(g.score, 42);
    assert_eq!(g.rules.len(), 2);
    assert!(g.rules[0] == f.rules[0]);
    assert!(g.rules[1] == f.rules[1]);
    let key = f.canonical_key();
    assert!(key.clone() == key);
}

#[test]
fn thresholds_are_forty_and_ten_percent() {
    assert_eq!(UNITS_PER_PERCENT, 1000);
    assert_eq!(VALID_MIN_ROI, 40_000);
    assert_eq!(VALID_MIN_PICKS, 15);
    assert_eq!(LOW_ROI_LIMIT, 10_000);
    assert_eq!(LOW_PICKS_FLOOR, 30);
}

fn units_by_arithmetic(value: f32) -> i32 {
    if value.is_nan() {
        0
    } else {
        (f64::from(value) * 1000.0).floor() as i32
    }
}

#[test]
fn units_are_thousandths_rounded_down() {
    assert_eq!(units(0.0f32.to_bits()), 0);
    assert_eq!(units((-0.0f32).to_bits()), 0);
    assert_eq!(units(50.0f32.to_bits()), 50_000);
    assert_eq!(units((-5.0f32).to_bits()), -5_000);
    assert_eq!(units(0.5f32.to_bits()), 500);
    assert_eq!(units(0.001953125f32.to_bits()), 1);
    assert_eq!(units((-0.001953125f32).to_bits()), -2);
    assert_eq!(units(12.125f32.to_bits()), 12_125);
    assert_eq!(units((-12.125f32).to_bits()), -12_125);
    // the single-precision number nearest to 45.67 lies just below it
    assert_eq!(units(45.67f32.to_bits()), 45_669);
    assert_eq!(units((-45.67f32).to_bits()), -45_670);
    assert_eq!(units(2_147_483.5f32.to_bits()), 2_147_483_500);
    assert_eq!(units((-2_147_483.5f32).to_bits()), -2_147_483_500);
}

#[test]
fn units_of_the_smallest_numbers() {
    assert_eq!(units(1), 0);
    assert_eq!(units(0x8000_0001), -1);
    assert_eq!(units(f32::MIN_POSITIVE.to_bits()), 0);
    assert_eq!(units((-f32::MIN_POSITIVE).to_bits()), -1);
    assert_eq!(units(0.000999f32.to_bits()), 0);
    assert_eq!(units(0.001001f32.to_bits()), 1);
    assert_eq!(units((-0.000999f32).to_bits()), -1);
}

#[test]
fn units_stay_within_the_range() {
    assert_eq!(units(f32::MAX.to_bits()), i32::MAX);
    assert_eq!(units(f32::MIN.to_bits()), i32::MIN);
    assert_eq!(units(f32::INFINITY.to_bits()), i32::MAX);
    assert_eq!(units(f32::NEG_INFINITY.to_bits()), i32::MIN);
    assert_eq!(units(2_147_483.75f32.to_bits()), i32::MAX);
    assert_eq!(units((-2_147_483.75f32).to_bits()), i32::MIN);
    assert_eq!(units(8_388_608.0f32.to_bits()), i32::MAX);
    assert_eq!(units((-8_388_608.0f32).to_bits()), i32::MIN);
    assert_eq!(units(2_147_483.0f32.to_bits()), 2_147_483_000);
}

#[test]
fn what_is_no_number_reads_as_zero() {
    assert_eq!(units(f32::NAN.to_bits()), 0);
    assert_eq!(units(0x7f80_0001), 0);
    assert_eq!(units(0xffff_ffff), 0);
    assert!(not_a_number(f32::NAN.to_bits()));
    assert!(not_a_number(0x7f80_0001));
    assert!(not_a_number(0xffc0_0000));
    assert!(!not_a_number(f32::INFINITY.to_bits()));
    assert!(!not_a_number(f32::NEG_INFINITY.to_bits()));
    assert!(!not_a_number(0));
    assert!(!not_a_number(1.5f32.to_bits()));
}

#[test]
fn units_agree_with_the_arithmetic_on_the_numbers() {
    // a walk over all exponents and a spread of fractions, both signs
    let mut bits: u32 = 0;
    let mut checked = 0u32;
    loop {
        for pattern in [bits, bits | 0x8000_0000] {
            assert_eq!(units(pattern), units_by_arithmetic(f32::from_bits(pattern)), "{:#x}", pattern);
            checked += 1;
        }
        match bits.checked_add(0x0001_2345) {
            Some(next) if next < 0x8000_0000 => bits = next,
            _ => break,
        }
    }
    assert!(checked > 50_000);
    for k in -3000i32..3000 {
        let value = k as f32 / 7.0;
        assert_eq!(units(value.to_bits()), units_by_arithmetic(value));
    }
}
