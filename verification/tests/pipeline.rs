use filter_analyzer::commands::analyze;
use filter_analyzer::models::filter::Filter;
use filter_analyzer::models::rule::Rule;
use filter_analyzer::services::filter_service::{dedup_unique, filter_low_performing};
use filter_analyzer::services::filter_service::{filter_valid_entries, find_duplicates};
use filter_analyzer::services::filter_service::{remove_existing_filters, sort_by_score};

fn rule_on(target: &str, value: f32) -> Rule {
    Rule {
        target: Some(target.to_string()),
        probability: None,
        time: None,
        value_to_compare: Some(value.to_bits()),
        trend_stats: None,
        comparator_type: Some("GT".to_string()),
        rule_type: None,
    }
}

fn record(id: i32, roi: f32, picks: u32, rate: f32, outcome: &str, rules: Vec<Rule>) -> Filter {
    Filter {
        id,
        roi: roi.to_bits(),
        name: format!("n{}", id),
        rules,
        total_picks: picks,
        success_rate: rate.to_bits(),
        desired_outcome: Some(outcome.to_string()),
        score: 0,
    }
}

fn ids(filters: &[Filter]) -> Vec<i32> {
    filters.iter().map(|f| f.id).collect()
}

#[test]
fn remove_existing_keeps_what_has_no_match() {
    let a = rule_on("A", 1.0);
    let b = rule_on("B", 2.0);
    let data = vec![
        record(1, 5.0, 20, 6.0, "1", vec![a.clone(), b.clone()]),
        record(2, 5.0, 20, 6.0, "1", vec![a.clone()]),
        record(3, 5.0, 20, 6.0, "2", vec![a.clone(), b.clone()]),
        record(4, 5.0, 20, 6.0, "1", vec![b.clone(), a.clone()]),
    ];
    // the existing filter differs in id, name and statistics, and lists its
    // rules in another order
    let existing = vec![record(99, 0.001, 2, 0.003, "1", vec![b.clone(), a.clone()])];
    let kept = remove_existing_filters(data, &existing);
    assert_eq!(ids(&kept), vec![2, 3]);
    assert_eq!(existing.len(), 1);
    assert_eq!(existing[0].id, 99);
}

#[test]
fn remove_existing_returns_all_when_nothing_exists() {
    let data = vec![
        record(1, 5.0, 20, 6.0, "1", vec![rule_on("A", 1.0)]),
        record(2, 5.0, 20, 6.0, "1", vec![rule_on("A", 1.0)]),
        record(3, 5.0, 20, 6.0, "2", vec![]),
    ];
    let kept = remove_existing_filters(data, &[]);
    assert_eq!(ids(&kept), vec![1, 2, 3]);
    assert_eq!(ids(&remove_existing_filters(Vec::new(), &[])), Vec::<i32>::new());
}

#[test]
fn remove_existing_is_idempotent() {
    let data = vec![
        record(1, 0.0, 0, 0.0, "1", vec![rule_on("A", 1.0)]),
        record(2, 0.0, 0, 0.0, "2", vec![rule_on("A", 1.0)]),
        record(3, 0.0, 0, 0.0, "3", vec![rule_on("A", 1.0)]),
        record(4, 0.0, 0, 0.0, "2", vec![rule_on("A", 1.0)]),
    ];
    let existing = vec![record(50, 0.0, 0, 0.0, "2", vec![rule_on("A", 1.0)])];
    let once = remove_existing_filters(data, &existing);
    assert_eq!(ids(&once), vec![1, 3]);
    let twice = remove_existing_filters(once, &existing);
    assert_eq!(ids(&twice), vec![1, 3]);
}

#[test]
fn dedup_keeps_exactly_one_of_identical_filters() {
    let rules = vec![rule_on("A", 1.0), rule_on("B", 2.0)];
    let mut reversed = rules.clone();
    reversed.reverse();
    let data = vec![record(1, 5.0, 20, 6.0, "1", rules), record(2, 7.0, 90, 0.1, "1", reversed)];
    let kept = dedup_unique(data);
    assert_eq!(kept.len(), 1);
    assert_eq!(kept[0].id, 1);
}

#[test]
fn dedup_keeps_first_occurrences_in_order() {
    let data = vec![
        record(1, 0.0, 0, 0.0, "1", vec![]),
        record(2, 0.0, 0, 0.0, "2", vec![]),
        record(3, 0.0, 0, 0.0, "1", vec![]),
        record(4, 0.0, 0, 0.0, "3", vec![]),
        record(5, 0.0, 0, 0.0, "2", vec![]),
        record(6, 0.0, 0, 0.0, "1", vec![]),
    ];
    assert_eq!(ids(&dedup_unique(data)), vec![1, 2, 4]);
    assert!(dedup_unique(Vec::new()).is_empty());
}

#[test]
fn valid_entries_are_kept_in_order() {
    let data = vec![
        record(1, 50.0, 20, 60.0, "1", vec![]),
        record(2, -5.0, 5, 10.0, "1", vec![]),
        record(3, 40.0, 15, 0.0, "CO85", vec![]),
        record(4, 40.0, 15, 0.0, "X", vec![]),
    ];
    assert_eq!(ids(&filter_valid_entries(data)), vec![1, 4]);
}

#[test]
fn low_performers_are_kept_in_order() {
    let data = vec![
        record(1, 5.0, 40, 0.0, "1", vec![]),
        record(2, 5.0, 10, 0.0, "1", vec![]),
        record(3, 50.0, 400, 0.0, "1", vec![]),
        record(4, -1.0, 31, 0.0, "1", vec![]),
    ];
    assert_eq!(ids(&filter_low_performing(data)), vec![1, 4]);
}

#[test]
fn sort_by_score_ranks_highest_first_and_sets_the_score() {
    let data = vec![
        record(1, 10.0, 0, 0.0, "1", vec![]),
        record(2, 30.0, 0, 0.0, "1", vec![]),
        record(3, -1.0, 900, 90.0, "1", vec![]),
        record(4, 20.0, 0, 0.0, "1", vec![]),
    ];
    let ranked = sort_by_score(data);
    assert_eq!(ids(&ranked), vec![2, 4, 1, 3]);
    let scores: Vec<i64> = ranked.iter().map(|f| f.score).collect();
    assert_eq!(scores, vec![240_000, 160_000, 80_000, 0]);
    assert_eq!(ranked[0].name, "n2");
    assert_eq!(ranked[0].roi, 30.0f32.to_bits());
}

#[test]
fn sort_by_score_is_stable() {
    // 1, 3 and 5 score 8 points; 2 and 4 score 16
    let data = vec![
        record(1, 10.0, 0, 0.0, "1", vec![]),
        record(2, 20.0, 0, 0.0, "1", vec![]),
        record(3, 0.0, 80, 0.0, "1", vec![]),
        record(4, 0.0, 160, 0.0, "1", vec![]),
        record(5, 10.0, 0, 0.0, "1", vec![]),
    ];
    let ranked = sort_by_score(data);
    assert_eq!(ids(&ranked), vec![2, 4, 1, 3, 5]);
    let same: Vec<Filter> = (0..50).map(|i| record(i, 42.0, 15, 3.0, "1", vec![])).collect();
    assert_eq!(ids(&sort_by_score(same)), (0..50).collect::<Vec<i32>>());
}

#[test]
fn sort_by_score_sorts_any_arrangement() {
    let returns: [f32; 9] = [7.0, 1.0, 9.0, 3.0, 3.0, 0.0, 8.0, 1.0, 5.0];
    let data: Vec<Filter> =
        returns.iter().enumerate().map(|(i, r)| record(i as i32, *r, 0, 0.0, "1", vec![])).collect();
    let ranked = sort_by_score(data);
    assert_eq!(ids(&ranked), vec![2, 6, 0, 8, 3, 4, 1, 7, 5]);
    assert!(sort_by_score(Vec::new()).is_empty());
}

#[test]
fn selection_of_the_only_valid_record() {
    let mut first = record(1, 50.0, 20, 60.0, "1", vec![]);
    first.name = "first".to_string();
    let second = record(2, -5.0, 5, 10.0, "1", vec![]);
    // the two records have the same outcome and rules: the second is a
    // duplicate of the first and would not be valid on its own either
    let selected = analyze::run(vec![first, second], &[], 10, 0);
    assert_eq!(selected.len(), 1);
    assert_eq!(selected[0].id, 1);
    assert_eq!(selected[0].score, 600_000);
    let lone = analyze::run(vec![record(2, -5.0, 5, 10.0, "1", vec![])], &[], 10, 0);
    assert!(lone.is_empty());
}

#[test]
fn selection_runs_every_stage_in_order() {
    let a = rule_on("A", 1.0);
    let b = rule_on("B", 1.0);
    let raw = vec![
        record(1, 45.0, 20, 50.0, "1", vec![a.clone()]),
        record(2, 90.0, 20, 50.0, "2", vec![a.clone()]),
        record(3, 60.0, 20, 50.0, "1", vec![b.clone()]),
        record(4, 99.0, 20, 50.0, "1", vec![a.clone()]),
        record(5, 30.0, 20, 50.0, "X", vec![a.clone()]),
        record(6, 70.0, 20, 50.0, "X", vec![a.clone(), b.clone()]),
        record(7, 50.0, 20, 50.0, "CU25", vec![a.clone()]),
    ];
    // 2 is held by the service; 4 repeats 1 (which comes first and stays);
    // 5 and 7 are not valid
    let existing = vec![record(70, 0.0, 0, 0.0, "2", vec![a.clone()])];
    let selected = analyze::run(raw, &existing, 10, 0);
    assert_eq!(ids(&selected), vec![6, 3, 1]);
    let scores: Vec<i64> = selected.iter().map(|f| f.score).collect();
    assert_eq!(scores, vec![730_000, 650_000, 530_000]);
}

#[test]
fn selection_length_follows_offset_and_count() {
    let make = || -> Vec<Filter> {
        (0..7).map(|i| record(i, 40.0 + i as f32, 20, 0.0, "1", vec![rule_on("A", i as f32)])).collect()
    };
    let total: usize = 7;
    for offset in 0..10usize {
        for count in 0..10usize {
            let selected = analyze::run(make(), &[], count, offset);
            let expected = std::cmp::min(count, total.saturating_sub(offset));
            assert_eq!(selected.len(), expected);
            let all: Vec<i32> = vec![6, 5, 4, 3, 2, 1, 0];
            let window: Vec<i32> = all.into_iter().skip(offset).take(count).collect();
            assert_eq!(ids(&selected), window);
        }
    }
    assert!(analyze::run(make(), &[], usize::MAX, usize::MAX).is_empty());
    assert_eq!(analyze::run(make(), &[], usize::MAX, 0).len(), 7);
    assert_eq!(analyze::run(make(), &[], usize::MAX, 6).len(), 1);
    assert!(analyze::run(Vec::new(), &[], 10, 0).is_empty());
}

#[test]
fn duplicates_are_grouped_with_their_ids_in_order() {
    let a = rule_on("A", 1.0);
    let b = rule_on("B", 1.0);
    let data = vec![
        record(10, 0.1, 1, 0.001, "1", vec![a.clone(), b.clone()]),
        record(11, 0.2, 2, 0.002, "2", vec![a.clone()]),
        record(12, 0.3, 3, 0.003, "1", vec![b.clone(), a.clone()]),
        record(13, 0.4, 4, 0.004, "X", vec![]),
        record(14, 0.5, 5, 0.005, "2", vec![a.clone()]),
        record(15, 0.6, 6, 0.006, "1", vec![a.clone(), b.clone()]),
        record(16, 0.7, 7, 0.007, "3", vec![a.clone()]),
    ];
    let groups = find_duplicates(&data);
    assert_eq!(groups.len(), 2);
    assert_eq!(groups[0].filter.id, 10);
    assert_eq!(groups[0].filter.roi, 0.1f32.to_bits());
    assert_eq!(groups[0].ids, vec![10, 12, 15]);
    assert_eq!(groups[1].filter.id, 11);
    assert_eq!(groups[1].ids, vec![11, 14]);
    assert_eq!(data.len(), 7);
}

#[test]
fn nothing_is_reported_without_duplicates() {
    let data = vec![
        record(1, 0.0, 0, 0.0, "1", vec![]),
        record(2, 0.0, 0, 0.0, "2", vec![]),
        record(3, 0.0, 0, 0.0, "1", vec![rule_on("A", 1.0)]),
    ];
    assert!(find_duplicates(&data).is_empty());
    assert!(find_duplicates(&[]).is_empty());
}
