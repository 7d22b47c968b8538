//! Names of filters brought in line with the outcome they aim at.
//!
//! A fixed table gives, for each known outcome code, the fragment that the
//! name of a filter with that outcome should be.

use vstd::prelude::*;
use vstd::string::StringExecFns;
use crate::errors::CliError;
use crate::models::filter::{Filter, FilterView};
use crate::text::{compare_text, decimal, decimal_string, Comparison};
use crate::utils::command::{is_success, tally, ScriptCall, ScriptCallView};
use crate::utils::config::{api_base_url, get_api_base_url};
use crate::utils::paths::{existing_path, get_existing_path};

verus! {

/// The table of outcome codes and the names that go with them.
pub open spec fn outcome_table() -> Seq<(Seq<char>, Seq<char>)> {
    seq![
        ("Favorite wins"@, "(Fav)"@),
        ("Favorite wins at home"@, "(Fav)"@),
        ("Underdog wins"@, "(Underdog)"@),
        ("Underdog wins at home"@, "(Underdog)"@),
        ("X"@, "(X)"@),
        ("1"@, "(1)"@),
        ("2"@, "(2)"@),
        ("12"@, "(12)"@),
        ("1X"@, "(1X)"@),
        ("X2"@, "(X2)"@),
        ("GG"@, "(GG)"@),
        ("NG"@, "(NG)"@),
        ("O15"@, "(+1.5)"@),
        ("O25"@, "(+2.5)"@),
        ("O35"@, "(+3.5)"@),
        ("U15"@, "(-1.5)"@),
        ("U45"@, "(-4.5)"@),
        ("+0.5"@, "(+0.5)"@),
        ("+0.5HT"@, "(+0.5HT)"@),
        ("+1.5HT"@, "(+1.5HT)"@),
        ("-0.5"@, "(-0.5)"@),
        ("-1.5HT"@, "(-1.5HT)"@),
        ("Home_O15"@, "(Home +1.5)"@),
        ("Home_U15"@, "(Home -1.5)"@),
        ("1 HT"@, "(1HT)"@),
        ("2 HT"@, "(2HT)"@),
        ("X HT"@, "(XHT)"@),
        ("GG HT"@, "(+1.5HT)"@),
        ("Over 0.5 Since Picked"@, "(+1G)"@),
        ("Over 1.5 Since Picked"@, "(+2G)"@),
    ]
}

/// The name that the first entry for `key` gives, if there is one.
pub open spec fn lookup(table: Seq<(Seq<char>, Seq<char>)>, key: Seq<char>) -> Option<Seq<char>>
    decreases table.len(),
{
    if table.len() == 0 {
        None
    } else if table[0].0 == key {
        Some(table[0].1)
    } else {
        lookup(table.drop_first(), key)
    }
}

/// The name that goes with an outcome code, if the code is known.
pub open spec fn expected_name(outcome: Seq<char>) -> Option<Seq<char>> {
    lookup(outcome_table(), outcome)
}

/// Outcome codes with the names that go with them.
#[derive(Debug)]
pub struct OutcomeMapping {
    entries: Vec<(String, String)>,
}

impl DeepView for OutcomeMapping {
    type V = Seq<(Seq<char>, Seq<char>)>;

    closed spec fn deep_view(&self) -> Seq<(Seq<char>, Seq<char>)> {
        self.entries.deep_view()
    }
}

impl View for OutcomeMapping {
    type V = Seq<(Seq<char>, Seq<char>)>;

    open spec fn view(&self) -> Seq<(Seq<char>, Seq<char>)> {
        self.deep_view()
    }
}

fn entry(code: &'static str, name: &'static str) -> (e: (String, String))
    ensures
        e.0@ == code@,
        e.1@ == name@,
{
    (String::from_str(code), String::from_str(name))
}

/// Past entries that do not hold the key, the lookup goes on unchanged.
proof fn lemma_lookup_skip(table: Seq<(Seq<char>, Seq<char>)>, key: Seq<char>, n: int)
    requires
        0 <= n <= table.len(),
        forall|k: int| 0 <= k < n ==> table[k].0 != key,
    ensures
        lookup(table, key) == lookup(table.skip(n), key),
    decreases n,
{
    if n == 0 {
        assert(table.skip(0) =~= table);
    } else {
        lemma_lookup_skip(table.drop_first(), key, n - 1);
        assert(table.drop_first().skip(n - 1) =~= table.skip(n));
    }
}

impl OutcomeMapping {
    /// The name that goes with `outcome`, if the code is in the mapping.
    pub fn get(&self, outcome: &str) -> (name: Option<&String>)
        ensures
            match name {
                Some(found) => lookup(self@, outcome@) == Some(found@),
                None => lookup(self@, outcome@) is None,
            },
    {
        let mut i: usize = 0;
        while i < self.entries.len()
            invariant
                i <= self.entries@.len(),
                forall|k: int| 0 <= k < i ==> self@[k].0 != outcome@,
            decreases self.entries@.len() - i,
        {
            proof {
                lemma_lookup_skip(self@, outcome@, i as int);
                assert(self@.skip(i as int)[0] == self@[i as int]);
            }
            if compare_text(self.entries[i].0.as_str(), outcome) == Comparison::Equal {
                return Some(&self.entries[i].1);
            }
            i += 1;
        }
        proof {
            lemma_lookup_skip(self@, outcome@, i as int);
        }
        None
    }
}

/// The mapping in use.
pub fn create_outcome_mapping() -> (mapping: OutcomeMapping)
    ensures
        mapping@ == outcome_table(),
{
    let mut entries: Vec<(String, String)> = Vec::new();
    entries.push(entry("Favorite wins", "(Fav)"));
    entries.push(entry("Favorite wins at home", "(Fav)"));
    entries.push(entry("Underdog wins", "(Underdog)"));
    entries.push(entry("Underdog wins at home", "(Underdog)"));
    entries.push(entry("X", "(X)"));
    entries.push(entry("1", "(1)"));
    entries.push(entry("2", "(2)"));
    entries.push(entry("12", "(12)"));
    entries.push(entry("1X", "(1X)"));
    entries.push(entry("X2", "(X2)"));
    entries.push(entry("GG", "(GG)"));
    entries.push(entry("NG", "(NG)"));
    entries.push(entry("O15", "(+1.5)"));
    entries.push(entry("O25", "(+2.5)"));
    entries.push(entry("O35", "(+3.5)"));
    entries.push(entry("U15", "(-1.5)"));
    entries.push(entry("U45", "(-4.5)"));
    entries.push(entry("+0.5", "(+0.5)"));
    entries.push(entry("+0.5HT", "(+0.5HT)"));
    entries.push(entry("+1.5HT", "(+1.5HT)"));
    entries.push(entry("-0.5", "(-0.5)"));
    entries.push(entry("-1.5HT", "(-1.5HT)"));
    entries.push(entry("Home_O15", "(Home +1.5)"));
    entries.push(entry("Home_U15", "(Home -1.5)"));
    entries.push(entry("1 HT", "(1HT)"));
    entries.push(entry("2 HT", "(2HT)"));
    entries.push(entry("X HT", "(XHT)"));
    entries.push(entry("GG HT", "(+1.5HT)"));
    entries.push(entry("Over 0.5 Since Picked", "(+1G)"));
    entries.push(entry("Over 1.5 Since Picked", "(+2G)"));
    let mapping = OutcomeMapping { entries };
    assert(mapping@ =~= outcome_table());
    mapping
}

/// What is done about the name of one filter.
#[derive(Debug)]
pub enum RenameStep {
    /// The name differs from the one that goes with the outcome: rename.
    Rename { id: i32, new_name: String, call: ScriptCall },
    /// The name is already the one that goes with the outcome.
    AlreadyNamed { id: i32 },
    /// The outcome code is not in the mapping.
    UnknownOutcome { id: i32 },
    /// The filter aims at no outcome.
    NoOutcome { id: i32 },
}

/// The mathematical value of a `RenameStep`.
pub enum RenameStepView {
    Rename { id: int, new_name: Seq<char>, call: ScriptCallView },
    AlreadyNamed { id: int },
    UnknownOutcome { id: int },
    NoOutcome { id: int },
}

impl DeepView for RenameStep {
    type V = RenameStepView;

    open spec fn deep_view(&self) -> RenameStepView {
        match self {
            RenameStep::Rename { id, new_name, call } => RenameStepView::Rename {
                id: *id as int,
                new_name: new_name@,
                call: call.deep_view(),
            },
            RenameStep::AlreadyNamed { id } => RenameStepView::AlreadyNamed { id: *id as int },
            RenameStep::UnknownOutcome { id } => RenameStepView::UnknownOutcome {
                id: *id as int,
            },
            RenameStep::NoOutcome { id } => RenameStepView::NoOutcome { id: *id as int },
        }
    }
}

impl View for RenameStep {
    type V = RenameStepView;

    open spec fn view(&self) -> RenameStepView {
        self.deep_view()
    }
}

/// The call that gives the filter `id` the name `new_name`.
pub open spec fn update_call(id: int, new_name: Seq<char>, live: bool) -> ScriptCallView {
    ScriptCallView {
        script: "requests/update_filter.sh"@,
        args: seq![api_base_url(live), decimal(id), new_name, existing_path(live)],
    }
}

/// What is done about the name of a filter under a mapping: a rename when
/// its outcome is in the mapping and its name is not the one that goes with
/// it; else nothing.
pub open spec fn rename_step_under(
    table: Seq<(Seq<char>, Seq<char>)>,
    f: FilterView,
    live: bool,
) -> RenameStepView {
    match f.desired_outcome {
        None => RenameStepView::NoOutcome { id: f.id },
        Some(outcome) => match lookup(table, outcome) {
            None => RenameStepView::UnknownOutcome { id: f.id },
            Some(name) => if f.name != name {
                RenameStepView::Rename {
                    id: f.id,
                    new_name: name,
                    call: update_call(f.id, name, live),
                }
            } else {
                RenameStepView::AlreadyNamed { id: f.id }
            },
        },
    }
}

/// What is done about the name of a filter under the mapping in use.
pub open spec fn rename_step(f: FilterView, live: bool) -> RenameStepView {
    rename_step_under(outcome_table(), f, live)
}

/// The step for one filter under the given mapping.
pub fn step_for(filter: &Filter, mapping: &OutcomeMapping, live: bool) -> (step: RenameStep)
    ensures
        step@ == rename_step_under(mapping@, filter@, live),
{
    match &filter.desired_outcome {
        None => RenameStep::NoOutcome { id: filter.id },
        Some(outcome) => match mapping.get(outcome.as_str()) {
            None => RenameStep::UnknownOutcome { id: filter.id },
            Some(name) => {
                if compare_text(filter.name.as_str(), name.as_str()) != Comparison::Equal {
                    let mut args: Vec<String> = Vec::new();
                    args.push(String::from_str(get_api_base_url(live)));
                    args.push(decimal_string(filter.id as i64));
                    args.push(name.clone());
                    args.push(String::from_str(get_existing_path(live)));
                    let call = ScriptCall {
                        script: String::from_str("requests/update_filter.sh"),
                        args,
                    };
                    assert(call@.args =~= update_call(filter@.id, name@, live).args);
                    RenameStep::Rename { id: filter.id, new_name: name.clone(), call }
                } else {
                    RenameStep::AlreadyNamed { id: filter.id }
                }
            },
        },
    }
}

/// Plans the renaming: one step for each filter, in their order.
pub fn run(filters: &[Filter], live: bool) -> (plan: Vec<RenameStep>)
    ensures
        plan.deep_view() == Seq::new(filters@.len(), |i: int| rename_step(filters@[i]@, live)),
{
    let mapping = create_outcome_mapping();
    let mut plan: Vec<RenameStep> = Vec::new();
    let mut i: usize = 0;
    while i < filters.len()
        invariant
            mapping@ == outcome_table(),
            i <= filters@.len(),
            plan@.len() == i,
            forall|k: int| 0 <= k < i ==> (#[trigger] plan@[k])@ == rename_step(filters@[k]@, live),
        decreases filters@.len() - i,
    {
        plan.push(step_for(&filters[i], &mapping, live));
        i += 1;
    }
    assert(plan.deep_view() =~= Seq::new(
        filters@.len(),
        |i: int| rename_step(filters@[i]@, live),
    ));
    plan
}

/// The counts that close a renaming.
#[derive(Clone, Copy, Debug, PartialEq, Eq, Structural)]
pub struct RenameSummary {
    pub dry_run: bool,
    pub updated: usize,
    pub skipped: usize,
    pub errors: usize,
}

/// The test "is a rename".
pub open spec fn is_rename() -> spec_fn(RenameStepView) -> bool {
    |step: RenameStepView| step is Rename
}

/// The number of renames in a plan.
pub open spec fn renames(plan: Seq<RenameStepView>) -> nat {
    plan.filter(is_rename()).len()
}

/// Closes a renaming. Every step that is no rename counts as skipped. In a
/// dry run no call is made and every rename counts as updated; else the
/// calls that succeeded count as updated and those that failed as errors.
pub fn summarize(plan: &[RenameStep], dry_run: bool, outcomes: &[Result<String, CliError>]) -> (s:
    RenameSummary)
    ensures
        s.dry_run == dry_run,
        s.skipped == plan@.len() - renames(plan.deep_view()),
        dry_run ==> s.updated == renames(plan.deep_view()) && s.errors == 0,
        !dry_run ==> s.updated == outcomes@.filter(is_success::<String>()).len() && s.updated
            + s.errors == outcomes@.len(),
{
    let ghost steps = plan.deep_view();
    let mut planned: usize = 0;
    let mut i: usize = 0;
    proof {
        reveal(Seq::filter);
        assert(renames(steps.take(0)) == 0);
    }
    while i < plan.len()
        invariant
            steps == plan.deep_view(),
            i <= plan@.len(),
            planned == renames(steps.take(i as int)),
            planned <= i,
        decreases plan@.len() - i,
    {
        proof {
            assert(steps.take(i + 1) =~= steps.take(i as int).push(steps[i as int]));
            steps.take(i as int).lemma_filter_push(steps[i as int], is_rename());
        }
        match &plan[i] {
            RenameStep::Rename { .. } => {
                planned += 1;
            },
            _ => {},
        }
        i += 1;
    }
    proof {
        assert(steps.take(i as int) =~= steps);
    }
    let skipped = plan.len() - planned;
    if dry_run {
        RenameSummary { dry_run, updated: planned, skipped, errors: 0 }
    } else {
        let t = tally(outcomes);
        RenameSummary { dry_run, updated: t.succeeded, skipped, errors: t.failed }
    }
}

/// The word for the way a renaming ran.
pub fn mode_name(dry_run: bool) -> (name: &'static str)
    ensures
        name@ == (if dry_run {
            "Dry run"@
        } else {
            "Renaming"@
        }),
{
    if dry_run {
        "Dry run"
    } else {
        "Renaming"
    }
}

} // verus!
