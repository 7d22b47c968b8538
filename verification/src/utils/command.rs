//! The scripts that talk to the service: which one to run with which
//! arguments, and what a finished run means. Running them is the caller's
//! part.

use vstd::prelude::*;
use vstd::string::StringExecFns;
use crate::errors::{error_message, CliError, CliErrorView};
use crate::text::{decimal, decimal_string};
use crate::utils::config::{copy_endpoint, delete_endpoint, get_copy_endpoint};
use crate::utils::config::get_delete_endpoint;

verus! {

/// A script to run through the shell, with its arguments.
#[derive(Debug)]
pub struct ScriptCall {
    pub script: String,
    pub args: Vec<String>,
}

/// The mathematical value of a `ScriptCall`.
pub struct ScriptCallView {
    pub script: Seq<char>,
    pub args: Seq<Seq<char>>,
}

impl DeepView for ScriptCall {
    type V = ScriptCallView;

    open spec fn deep_view(&self) -> ScriptCallView {
        ScriptCallView { script: self.script@, args: self.args.deep_view() }
    }
}

impl View for ScriptCall {
    type V = ScriptCallView;

    open spec fn view(&self) -> ScriptCallView {
        self.deep_view()
    }
}

/// How the run of a script ended.
#[derive(Debug)]
pub enum ScriptRun {
    /// The script could not be started; holds the reason.
    NotStarted { reason: String },
    /// The script ran to its end.
    Finished { success: bool, stdout: String, stderr: String },
}

/// What the run of a script yields: its output when it succeeded, else the
/// failure with what the script, or the attempt to start it, reported.
pub fn execute_script(script: &str, run: ScriptRun) -> (result: Result<String, CliError>)
    ensures
        match run {
            ScriptRun::NotStarted { reason } => result matches Err(e) && e@
                == CliErrorView::CommandFailed(
                "Failed to execute "@ + script@ + ": "@ + reason@,
            ),
            ScriptRun::Finished { success, stdout, stderr } => if success {
                result matches Ok(out) && out@ == stdout@
            } else {
                result matches Err(e) && e@ == CliErrorView::CommandFailed(
                    "Command failed: "@ + stderr@,
                )
            },
        },
{
    match run {
        ScriptRun::NotStarted { reason } => {
            let text = String::from_str("Failed to execute ").concat(script).concat(": ").concat(
                reason.as_str(),
            );
            Err(CliError::CommandFailed(text))
        },
        ScriptRun::Finished { success, stdout, stderr } => {
            if success {
                Ok(stdout)
            } else {
                Err(
                    CliError::CommandFailed(
                        String::from_str("Command failed: ").concat(stderr.as_str()),
                    ),
                )
            }
        },
    }
}

/// The call that imports a filter into the account.
pub open spec fn import_call(filter_id: int, live: bool) -> ScriptCallView {
    ScriptCallView {
        script: "requests/import_filter.sh"@,
        args: seq![copy_endpoint(live) + "/"@ + decimal(filter_id)],
    }
}

/// The call that deletes a filter from the account.
pub open spec fn delete_call(filter_id: int, live: bool) -> ScriptCallView {
    ScriptCallView {
        script: "requests/delete_filter.sh"@,
        args: seq![delete_endpoint(live) + decimal(filter_id)],
    }
}

/// The call that fetches the snapshots of both families.
pub open spec fn fetch_call() -> ScriptCallView {
    ScriptCallView { script: "requests/fetch_filters.sh"@, args: Seq::empty() }
}

/// The call that imports the filter `filter_id`.
pub fn import_request(filter_id: i32, live: bool) -> (call: ScriptCall)
    ensures
        call@ == import_call(filter_id as int, live),
{
    let url = get_copy_endpoint(live).concat("/").concat(
        decimal_string(filter_id as i64).as_str(),
    );
    let mut args: Vec<String> = Vec::new();
    args.push(url);
    let call = ScriptCall { script: String::from_str("requests/import_filter.sh"), args };
    assert(call@.args =~= import_call(filter_id as int, live).args);
    call
}

/// The call that deletes the filter `filter_id`.
pub fn delete_request(filter_id: i32, live: bool) -> (call: ScriptCall)
    ensures
        call@ == delete_call(filter_id as int, live),
{
    let url = get_delete_endpoint(live).concat(decimal_string(filter_id as i64).as_str());
    let mut args: Vec<String> = Vec::new();
    args.push(url);
    let call = ScriptCall { script: String::from_str("requests/delete_filter.sh"), args };
    assert(call@.args =~= delete_call(filter_id as int, live).args);
    call
}

/// The call that fetches the snapshots.
pub fn fetch_request() -> (call: ScriptCall)
    ensures
        call@ == fetch_call(),
{
    let call = ScriptCall {
        script: String::from_str("requests/fetch_filters.sh"),
        args: Vec::new(),
    };
    assert(call@.args =~= fetch_call().args);
    call
}

/// What the import of filter `filter_id` came to, given how its script ran:
/// done, or an import failure that names the filter and the cause.
pub fn import_filter(filter_id: i32, outcome: Result<String, CliError>) -> (result: Result<
    (),
    CliError,
>)
    ensures
        match outcome {
            Ok(_) => result is Ok,
            Err(cause) => result matches Err(e) && e@ == CliErrorView::ImportError(
                "Failed to import filter "@ + decimal(filter_id as int) + ": "@ + error_message(
                    cause@,
                ),
            ),
        },
{
    match outcome {
        Ok(_) => Ok(()),
        Err(cause) => {
            let text = String::from_str("Failed to import filter ").concat(
                decimal_string(filter_id as i64).as_str(),
            ).concat(": ").concat(cause.message().as_str());
            Err(CliError::ImportError(text))
        },
    }
}

/// What the deletion of filter `filter_id` came to, given how its script
/// ran: done, or a deletion failure that names the filter and the cause.
pub fn delete_filter(filter_id: i32, outcome: Result<String, CliError>) -> (result: Result<
    (),
    CliError,
>)
    ensures
        match outcome {
            Ok(_) => result is Ok,
            Err(cause) => result matches Err(e) && e@ == CliErrorView::DeletionError(
                "Failed to delete filter "@ + decimal(filter_id as int) + ": "@ + error_message(
                    cause@,
                ),
            ),
        },
{
    match outcome {
        Ok(_) => Ok(()),
        Err(cause) => {
            let text = String::from_str("Failed to delete filter ").concat(
                decimal_string(filter_id as i64).as_str(),
            ).concat(": ").concat(cause.message().as_str());
            Err(CliError::DeletionError(text))
        },
    }
}

/// What fetching the snapshots came to, given how its script ran.
pub fn fetch_filters(outcome: Result<String, CliError>) -> (result: Result<(), CliError>)
    ensures
        match outcome {
            Ok(_) => result is Ok,
            Err(cause) => result matches Err(e) && e@ == CliErrorView::CommandFailed(
                "Failed to fetch filters: "@ + error_message(cause@),
            ),
        },
{
    match outcome {
        Ok(_) => Ok(()),
        Err(cause) => {
            let text = String::from_str("Failed to fetch filters: ").concat(
                cause.message().as_str(),
            );
            Err(CliError::CommandFailed(text))
        },
    }
}

/// How many actions of a batch succeeded and how many failed.
#[derive(Clone, Copy, Debug, PartialEq, Eq, Structural)]
pub struct Tally {
    pub succeeded: usize,
    pub failed: usize,
}

/// The test "succeeded".
pub open spec fn is_success<T>() -> spec_fn(Result<T, CliError>) -> bool {
    |outcome: Result<T, CliError>| outcome is Ok
}

/// Counts the successes and the failures of a batch. A failure of one action
/// takes nothing from the others: each outcome counts once.
pub fn tally<T>(outcomes: &[Result<T, CliError>]) -> (t: Tally)
    ensures
        t.succeeded == outcomes@.filter(is_success::<T>()).len(),
        t.succeeded + t.failed == outcomes@.len(),
{
    let mut t = Tally { succeeded: 0, failed: 0 };
    let mut i: usize = 0;
    proof {
        reveal(Seq::filter);
        assert(outcomes@.take(0).filter(is_success::<T>()).len() == 0);
    }
    while i < outcomes.len()
        invariant
            i <= outcomes@.len(),
            t.succeeded == outcomes@.take(i as int).filter(is_success::<T>()).len(),
            t.succeeded + t.failed == i,
        decreases outcomes@.len() - i,
    {
        proof {
            assert(outcomes@.take(i + 1) =~= outcomes@.take(i as int).push(outcomes@[i as int]));
            outcomes@.take(i as int).lemma_filter_push(outcomes@[i as int], is_success::<T>());
        }
        match &outcomes[i] {
            Ok(_) => {
                t.succeeded += 1;
            },
            Err(_) => {
                t.failed += 1;
            },
        }
        i += 1;
    }
    proof {
        assert(outcomes@.take(i as int) =~= outcomes@);
    }
    t
}

} // verus!
