use vstd::prelude::*;
use crate::outcome::{classify, outcome_of, RunOutcome};
use crate::outcome::occurrences;
use crate::summary::{entry_total, lemma_empty_report, lemma_tally_conserved, report_text, StatusSummary};

verus! {

/// Where the run loop stands.
#[derive(Clone, Copy, Debug, PartialEq, Eq, Structural)]
pub enum DriverState {
    /// No run has been asked for yet.
    NotStarted,
    /// This many runs have completed and more are due.
    Running(usize),
    /// All runs have completed; the final report is due.
    Done,
    /// The command could not be started; the loop stopped without a report.
    Aborted,
}

/// What the caller of the run loop is to do next.
#[derive(Clone, Copy, Debug, PartialEq, Eq, Structural)]
pub enum Action {
    /// Run the command once more and hand back how it ended.
    Spawn,
    /// Print the final report and finish.
    Report,
    /// Stop at once, reporting that the command could not be started.
    Abort,
}

/// The run loop: runs the command a fixed number of times, one after the
/// other, and feeds each outcome to the tally.
pub struct Driver {
    runs: usize,
    state: DriverState,
    summary: StatusSummary,
}

impl Driver {
    /// The number of runs asked for.
    pub closed spec fn target(&self) -> nat {
        self.runs as nat
    }

    /// Where the loop stands.
    pub closed spec fn phase(&self) -> DriverState {
        self.state
    }

    /// The tally of the runs made so far.
    pub closed spec fn tally(&self) -> StatusSummary {
        self.summary
    }

    /// The tally is well formed and holds one outcome per completed run;
    /// a loop that is running or stopped has runs left, one that is done has
    /// made them all.
    pub open spec fn wf(&self) -> bool {
        &&& self.tally().wf()
        &&& match self.phase() {
            DriverState::NotStarted => self.tally()@.len() == 0,
            DriverState::Running(n) => n < self.target() && self.tally()@.len() == n,
            DriverState::Done => self.tally()@.len() == self.target(),
            DriverState::Aborted => self.tally()@.len() < self.target(),
        }
    }

    /// A run loop that will make `runs` runs, not started yet.
    pub fn new(runs: usize) -> (r: Driver)
        ensures
            r.wf(),
            r.target() == runs,
            r.phase() == DriverState::NotStarted,
            r.tally()@ == Seq::<RunOutcome>::empty(),
    {
        Driver { runs, state: DriverState::NotStarted, summary: StatusSummary::new() }
    }

    /// The number of runs asked for.
    pub fn runs(&self) -> (r: usize)
        ensures
            r == self.target(),
    {
        self.runs
    }

    /// Where the loop stands.
    pub fn state(&self) -> (r: DriverState)
        ensures
            r == self.phase(),
    {
        self.state
    }

    /// The tally of the runs made so far.
    pub fn summary(&self) -> (r: &StatusSummary)
        ensures
            *r == self.tally(),
    {
        &self.summary
    }

    /// Starts the loop: the first run is due, or, where no run is asked for,
    /// the report at once.
    pub fn start(&mut self) -> (r: Action)
        requires
            old(self).wf(),
            old(self).phase() == DriverState::NotStarted,
        ensures
            final(self).wf(),
            final(self).target() == old(self).target(),
            final(self).tally() == old(self).tally(),
            old(self).target() == 0 ==> final(self).phase() == DriverState::Done && r
                == Action::Report,
            old(self).target() > 0 ==> final(self).phase() == DriverState::Running(0) && r
                == Action::Spawn,
    {
        if self.runs == 0 {
            self.state = DriverState::Done;
            Action::Report
        } else {
            self.state = DriverState::Running(0);
            Action::Spawn
        }
    }

    /// Takes the exit status of the run that was due (`None` where the
    /// process was killed), counts its outcome, and says what comes next: the
    /// next run, or the report once all runs are made.
    pub fn record(&mut self, exit_code: Option<i32>) -> (r: (RunOutcome, Action))
        requires
            old(self).wf(),
            old(self).phase() is Running,
        ensures
            final(self).wf(),
            final(self).target() == old(self).target(),
            r.0 == outcome_of(exit_code),
            final(self).tally()@ == old(self).tally()@.push(r.0),
            old(self).phase()->Running_0 + 1 == old(self).target() ==> final(self).phase()
                == DriverState::Done && r.1 == Action::Report,
            old(self).phase()->Running_0 + 1 < old(self).target() ==> final(self).phase()
                == DriverState::Running((old(self).phase()->Running_0 + 1) as usize) && r.1
                == Action::Spawn,
    {
        let outcome = classify(exit_code);
        self.summary.update(outcome);
        let completed = match self.state {
            DriverState::Running(n) => n,
            _ => 0,
        };
        let done = completed + 1;
        if done == self.runs {
            self.state = DriverState::Done;
            (outcome, Action::Report)
        } else {
            self.state = DriverState::Running(done);
            (outcome, Action::Spawn)
        }
    }

    /// The run that was due could not be started: the loop stops, and no
    /// report follows.
    pub fn spawn_failed(&mut self) -> (r: Action)
        requires
            old(self).wf(),
            old(self).phase() is Running,
        ensures
            final(self).wf(),
            final(self).target() == old(self).target(),
            final(self).tally() == old(self).tally(),
            final(self).phase() == DriverState::Aborted,
            r == Action::Abort,
    {
        self.state = DriverState::Aborted;
        Action::Abort
    }
}

/// Once the loop is done, the successes, the kills and the counts of all
/// failing exit codes add up to the number of runs asked for.
pub proof fn lemma_runs_conserved(d: &Driver)
    requires
        d.wf(),
        d.phase() == DriverState::Done,
    ensures
        occurrences(d.tally()@, RunOutcome::Success) + occurrences(
            d.tally()@,
            RunOutcome::Killed,
        ) + entry_total(d.tally().entries()) == d.target(),
{
    lemma_tally_conserved(&d.tally());
}

/// A loop asked for no run reports zero successes and zero failures, and
/// nothing else, once it is done.
pub proof fn lemma_zero_runs_report(d: &Driver)
    requires
        d.wf(),
        d.target() == 0,
        d.phase() == DriverState::Done,
    ensures
        report_text(d.tally()@, d.tally().entries()) == seq!["successes: 0"@, "failures: 0"@],
{
    lemma_empty_report(&d.tally());
}

} // verus!
