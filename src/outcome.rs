use vstd::prelude::*;
use vstd::string::*;
use crate::decimal::{decimal_string, signed_decimal, signed_decimal_string};

verus! {

/// How one run of the command under test ended.
#[derive(Clone, Copy, Debug, PartialEq, Eq, Structural)]
pub enum RunOutcome {
    /// The command exited with code 0.
    Success,
    /// The command exited with the given nonzero code.
    Failure(i32),
    /// The command ended without an exit code (it was terminated by a signal).
    Killed,
}

/// The outcome that an exit status stands for: no code means the process was
/// killed, code 0 is a success, any other code a failure with that code.
pub open spec fn outcome_of(exit_code: Option<i32>) -> RunOutcome {
    match exit_code {
        Some(code) => if code == 0 {
            RunOutcome::Success
        } else {
            RunOutcome::Failure(code)
        },
        None => RunOutcome::Killed,
    }
}

/// Classifies the exit status of one run.
pub fn classify(exit_code: Option<i32>) -> (r: RunOutcome)
    ensures
        r == outcome_of(exit_code),
{
    match exit_code {
        Some(0) => RunOutcome::Success,
        Some(code) => RunOutcome::Failure(code),
        None => RunOutcome::Killed,
    }
}

/// The short tag that announces an outcome on the progress line.
pub open spec fn outcome_tag(o: RunOutcome) -> Seq<char> {
    match o {
        RunOutcome::Success => "ok"@,
        RunOutcome::Failure(code) => "failed: "@ + signed_decimal(code as int),
        RunOutcome::Killed => "killed"@,
    }
}

impl RunOutcome {
    /// Whether the run exited with code 0.
    pub fn is_success(&self) -> (r: bool)
        ensures
            r == (*self is Success),
    {
        match self {
            RunOutcome::Success => true,
            _ => false,
        }
    }

    /// The tag of this outcome: `ok`, `failed: <code>` or `killed`.
    pub fn tag(&self) -> (r: String)
        ensures
            r@ == outcome_tag(*self),
    {
        match self {
            RunOutcome::Success => {
                proof { reveal_strlit("ok"); }
                String::from_str("ok")
            },
            RunOutcome::Failure(code) => {
                let digits = signed_decimal_string(*code);
                proof { reveal_strlit("failed: "); }
                String::from_str("failed: ").concat(digits.as_str())
            },
            RunOutcome::Killed => {
                proof { reveal_strlit("killed"); }
                String::from_str("killed")
            },
        }
    }
}

/// When the captured stdout and stderr of a run are shown.
#[derive(Clone, Copy, Debug, PartialEq, Eq, Structural)]
pub enum ShowOutput {
    OnSuccess,
    OnFailure,
    Always,
    Never,
}

/// Whether the policy shows the output of a run that ended with `o`; a killed
/// run counts as unsuccessful.
pub open spec fn shows(policy: ShowOutput, o: RunOutcome) -> bool {
    match policy {
        ShowOutput::OnSuccess => o is Success,
        ShowOutput::OnFailure => !(o is Success),
        ShowOutput::Always => true,
        ShowOutput::Never => false,
    }
}

impl ShowOutput {
    /// Decides whether the captured output of a run with this outcome is shown.
    pub fn should_show(&self, outcome: &RunOutcome) -> (r: bool)
        ensures
            r == shows(*self, *outcome),
    {
        match self {
            ShowOutput::OnSuccess => outcome.is_success(),
            ShowOutput::OnFailure => !outcome.is_success(),
            ShowOutput::Always => true,
            ShowOutput::Never => false,
        }
    }
}

/// How many times `o` occurs in the log `h`.
pub open spec fn occurrences(h: Seq<RunOutcome>, o: RunOutcome) -> nat
    decreases h.len(),
{
    if h.len() == 0 {
        0
    } else {
        occurrences(h.drop_last(), o) + if h.last() == o {
            1nat
        } else {
            0nat
        }
    }
}

/// How many runs of the log `h` failed with an exit code, whatever the code.
pub open spec fn coded_failures(h: Seq<RunOutcome>) -> nat
    decreases h.len(),
{
    if h.len() == 0 {
        0
    } else {
        coded_failures(h.drop_last()) + if h.last() is Failure {
            1nat
        } else {
            0nat
        }
    }
}

/// How many runs of the log `h` did not succeed: the killed ones and those
/// that failed with an exit code.
pub open spec fn failed_runs(h: Seq<RunOutcome>) -> nat {
    occurrences(h, RunOutcome::Killed) + coded_failures(h)
}

/// Appending one outcome to a log adds one to its own count and leaves the
/// counts of every other outcome as they were.
pub proof fn lemma_push_counts(h: Seq<RunOutcome>, o: RunOutcome)
    ensures
        forall|p: RunOutcome|
            #[trigger] occurrences(h.push(o), p) == occurrences(h, p) + if p == o {
                1nat
            } else {
                0nat
            },
        coded_failures(h.push(o)) == coded_failures(h) + if o is Failure {
            1nat
        } else {
            0nat
        },
{
    assert(h.push(o).drop_last() =~= h);
}

/// No outcome occurs in a log more often than the log is long.
pub proof fn lemma_occurrences_bounded(h: Seq<RunOutcome>, o: RunOutcome)
    ensures
        occurrences(h, o) <= h.len(),
        coded_failures(h) <= h.len(),
    decreases h.len(),
{
    if h.len() > 0 {
        lemma_occurrences_bounded(h.drop_last(), o);
    }
}

/// Each run of a log is a success, a kill, or a failure with an exit code:
/// the three counts add up to the length of the log.
pub proof fn lemma_outcomes_partition(h: Seq<RunOutcome>)
    ensures
        occurrences(h, RunOutcome::Success) + occurrences(h, RunOutcome::Killed)
            + coded_failures(h) == h.len(),
    decreases h.len(),
{
    if h.len() > 0 {
        lemma_outcomes_partition(h.drop_last());
    }
}

/// The count of an outcome in a log is its multiplicity in the log's multiset.
pub proof fn lemma_occurrences_multiset(h: Seq<RunOutcome>, o: RunOutcome)
    ensures
        occurrences(h, o) == h.to_multiset().count(o),
    decreases h.len(),
{
    broadcast use vstd::seq_lib::group_to_multiset_ensures;

    if h.len() > 0 {
        let init = h.drop_last();
        lemma_occurrences_multiset(init, o);
        assert(init.push(h.last()) =~= h);
    }
}

/// `n` copies of the outcome `o`.
pub open spec fn repeated(o: RunOutcome, n: nat) -> Seq<RunOutcome> {
    Seq::new(n, |i: int| o)
}

/// A success counts as a success and as nothing else: the kills and the count
/// of every exit code stay as they were.
pub proof fn lemma_success_counts_only_successes(h: Seq<RunOutcome>)
    ensures
        occurrences(h.push(RunOutcome::Success), RunOutcome::Success) == occurrences(
            h,
            RunOutcome::Success,
        ) + 1,
        occurrences(h.push(RunOutcome::Success), RunOutcome::Killed) == occurrences(
            h,
            RunOutcome::Killed,
        ),
        coded_failures(h.push(RunOutcome::Success)) == coded_failures(h),
        forall|c: i32|
            #[trigger] occurrences(h.push(RunOutcome::Success), RunOutcome::Failure(c))
                == occurrences(h, RunOutcome::Failure(c)),
{
    lemma_push_counts(h, RunOutcome::Success);
}

/// `n` failures with one exit code, after any log, add `n` to that code's
/// count and leave the count of every other outcome as it was.
pub proof fn lemma_repeated_failure(h: Seq<RunOutcome>, code: i32, n: nat)
    ensures
        occurrences(
            h + repeated(RunOutcome::Failure(code), n),
            RunOutcome::Failure(code),
        ) == occurrences(h, RunOutcome::Failure(code)) + n,
        forall|p: RunOutcome|
            p != RunOutcome::Failure(code) ==> #[trigger] occurrences(
                h + repeated(RunOutcome::Failure(code), n),
                p,
            ) == occurrences(h, p),
    decreases n,
{
    let o = RunOutcome::Failure(code);
    if n == 0 {
        assert(h + repeated(o, 0) =~= h);
    } else {
        let m = (n - 1) as nat;
        lemma_repeated_failure(h, code, m);
        lemma_push_counts(h + repeated(o, m), o);
        assert(h + repeated(o, n) =~= (h + repeated(o, m)).push(o));
    }
}

/// The number of failed runs does not depend on the order in which the
/// outcomes came: two logs with the same outcomes, in any order, have as many.
pub proof fn lemma_failed_runs_order_free(h1: Seq<RunOutcome>, h2: Seq<RunOutcome>)
    requires
        h1.to_multiset() == h2.to_multiset(),
    ensures
        failed_runs(h1) == failed_runs(h2),
{
    broadcast use vstd::seq_lib::group_to_multiset_ensures;

    lemma_outcomes_partition(h1);
    lemma_outcomes_partition(h2);
    lemma_occurrences_multiset(h1, RunOutcome::Success);
    lemma_occurrences_multiset(h2, RunOutcome::Success);
    assert(h1.len() == h1.to_multiset().len());
    assert(h2.len() == h2.to_multiset().len());
}

} // verus!
