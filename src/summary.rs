use vstd::prelude::*;
use vstd::string::*;
use crate::decimal::{decimal, decimal_string, signed_decimal, signed_decimal_string};
use crate::outcome::{
    coded_failures, failed_runs, lemma_failed_runs_order_free, lemma_occurrences_bounded,
    lemma_occurrences_multiset, lemma_outcomes_partition, lemma_push_counts, occurrences,
    RunOutcome,
};

verus! {

/// The table of failing exit codes is sorted by code, strictly, so that each
/// code has one entry.
pub open spec fn entries_sorted(e: Seq<(i32, usize)>) -> bool {
    forall|i: int, j: int| 0 <= i < j < e.len() ==> e[i].0 < e[j].0
}

/// The table `e` holds, for the log `h`, exactly the exit codes that some run
/// failed with, each once and with the number of runs that failed with it.
pub open spec fn entries_match(e: Seq<(i32, usize)>, h: Seq<RunOutcome>) -> bool {
    &&& entries_sorted(e)
    &&& forall|i: int|
        0 <= i < e.len() ==> {
            &&& #[trigger] e[i].1 > 0
            &&& e[i].1 as nat == occurrences(h, RunOutcome::Failure(e[i].0))
        }
    &&& forall|c: i32|
        #[trigger] occurrences(h, RunOutcome::Failure(c)) > 0 ==> exists|i: int|
            0 <= i < e.len() && e[i].0 == c
}

/// The table `e` has an entry for `code`.
pub open spec fn has_code(e: Seq<(i32, usize)>, code: i32) -> bool {
    exists|i: int| 0 <= i < e.len() && e[i].0 == code
}

/// Two sorted tables with the same codes, and the same count for each code,
/// are the same table.
proof fn lemma_sorted_tables_equal(e1: Seq<(i32, usize)>, e2: Seq<(i32, usize)>)
    requires
        entries_sorted(e1),
        entries_sorted(e2),
        forall|k: i32| has_code(e1, k) <==> has_code(e2, k),
        forall|i: int, j: int|
            0 <= i < e1.len() && 0 <= j < e2.len() && e1[i].0 == e2[j].0 ==> e1[i].1 == e2[j].1,
    ensures
        e1 == e2,
    decreases e1.len(),
{
    if e1.len() == 0 {
        if e2.len() > 0 {
            assert(has_code(e2, e2[0].0));
        }
        assert(e1 =~= e2);
    } else {
        assert(has_code(e1, e1[0].0));
        assert(has_code(e2, e1[0].0));
        assert(has_code(e2, e2[0].0));
        assert(has_code(e1, e2[0].0));
        let j = choose|j: int| 0 <= j < e2.len() && e2[j].0 == e1[0].0;
        let i = choose|i: int| 0 <= i < e1.len() && e1[i].0 == e2[0].0;
        assert(e2[0].0 <= e2[j].0);
        assert(e1[0].0 <= e1[i].0);
        assert(e1[0].0 == e2[0].0);
        let r1 = e1.drop_first();
        let r2 = e2.drop_first();
        assert forall|k: i32| has_code(r1, k) <==> has_code(r2, k) by {
            if has_code(r1, k) {
                let a = choose|a: int| 0 <= a < r1.len() && r1[a].0 == k;
                assert(e1[a + 1].0 == k);
                assert(has_code(e2, k));
                let b = choose|b: int| 0 <= b < e2.len() && e2[b].0 == k;
                assert(b != 0);
                assert(r2[b - 1].0 == k);
            }
            if has_code(r2, k) {
                let b = choose|b: int| 0 <= b < r2.len() && r2[b].0 == k;
                assert(e2[b + 1].0 == k);
                assert(has_code(e1, k));
                let a = choose|a: int| 0 <= a < e1.len() && e1[a].0 == k;
                assert(a != 0);
                assert(r1[a - 1].0 == k);
            }
        }
        assert forall|a: int, b: int|
            0 <= a < r1.len() && 0 <= b < r2.len() && r1[a].0 == r2[b].0 implies r1[a].1
            == r2[b].1 by {
            assert(e1[a + 1] == r1[a]);
            assert(e2[b + 1] == r2[b]);
        }
        lemma_sorted_tables_equal(r1, r2);
        assert(e1 =~= seq![e1[0]] + r1);
        assert(e2 =~= seq![e2[0]] + r2);
    }
}

/// The sum of the counts of a table of exit codes.
pub open spec fn entry_total(e: Seq<(i32, usize)>) -> nat
    decreases e.len(),
{
    if e.len() == 0 {
        0
    } else {
        entry_total(e.drop_last()) + e.last().1 as nat
    }
}

proof fn lemma_total_update(e: Seq<(i32, usize)>, i: int, x: (i32, usize))
    requires
        0 <= i < e.len(),
    ensures
        entry_total(e.update(i, x)) + e[i].1 == entry_total(e) + x.1,
    decreases e.len(),
{
    if i == e.len() - 1 {
        assert(e.update(i, x).drop_last() =~= e.drop_last());
    } else {
        lemma_total_update(e.drop_last(), i, x);
        assert(e.update(i, x).drop_last() =~= e.drop_last().update(i, x));
    }
}

proof fn lemma_total_insert(e: Seq<(i32, usize)>, i: int, x: (i32, usize))
    requires
        0 <= i <= e.len(),
    ensures
        entry_total(e.insert(i, x)) == entry_total(e) + x.1,
    decreases e.len(),
{
    if i == e.len() {
        assert(e.insert(i, x).drop_last() =~= e);
    } else {
        lemma_total_insert(e.drop_last(), i, x);
        assert(e.insert(i, x).drop_last() =~= e.drop_last().insert(i, x));
    }
}

proof fn lemma_total_prefix(e: Seq<(i32, usize)>, i: int)
    requires
        0 <= i <= e.len(),
    ensures
        entry_total(e.subrange(0, i)) <= entry_total(e),
    decreases e.len(),
{
    if i == e.len() {
        assert(e.subrange(0, i) =~= e);
    } else {
        lemma_total_prefix(e.drop_last(), i);
        assert(e.drop_last().subrange(0, i) =~= e.subrange(0, i));
    }
}

/// The running summary printed after each run:
/// `(<successes> successes, <failed runs> failures)`.
pub open spec fn progress_text(h: Seq<RunOutcome>) -> Seq<char> {
    "("@ + decimal(occurrences(h, RunOutcome::Success)) + " successes, "@ + decimal(
        failed_runs(h),
    ) + " failures)"@
}

/// The report line of one failing exit code: `(exit code <code>): <count>`.
pub open spec fn exit_code_line(entry: (i32, usize)) -> Seq<char> {
    "(exit code "@ + signed_decimal(entry.0 as int) + "): "@ + decimal(entry.1 as nat)
}

/// The final report for the log `h` with the exit code table `e`: the
/// successes, the failed runs, the kills where there were any, then one line
/// per failing exit code in the order of the table.
pub open spec fn report_text(h: Seq<RunOutcome>, e: Seq<(i32, usize)>) -> Seq<Seq<char>> {
    seq![
        "successes: "@ + decimal(occurrences(h, RunOutcome::Success)),
        "failures: "@ + decimal(failed_runs(h)),
    ] + (if occurrences(h, RunOutcome::Killed) > 0 {
        seq!["(killed): "@ + decimal(occurrences(h, RunOutcome::Killed))]
    } else {
        Seq::empty()
    }) + e.map_values(|x: (i32, usize)| exit_code_line(x))
}

/// The text of each line of `lines`.
pub open spec fn line_texts(lines: Seq<String>) -> Seq<Seq<char>> {
    lines.map_values(|l: String| l@)
}

fn labelled(label: &str, n: usize) -> (r: String)
    ensures
        r@ == label@ + decimal(n as nat),
{
    let digits = decimal_string(n);
    String::from_str(label).concat(digits.as_str())
}

fn exit_code_string(entry: (i32, usize)) -> (r: String)
    ensures
        r@ == exit_code_line(entry),
{
    let code = signed_decimal_string(entry.0);
    let count = decimal_string(entry.1);
    proof {
        reveal_strlit("(exit code ");
        reveal_strlit("): ");
    }
    String::from_str("(exit code ").concat(code.as_str()).concat("): ").concat(count.as_str())
}

/// The running tally of the outcomes of the runs made so far: successes,
/// kills, and for each failing exit code the number of runs that exited
/// with it.
pub struct StatusSummary {
    successes: usize,
    killed: usize,
    failures: Vec<(i32, usize)>,
    log: Ghost<Seq<RunOutcome>>,
}

impl View for StatusSummary {
    /// The outcomes fed in so far, in the order they came.
    type V = Seq<RunOutcome>;

    closed spec fn view(&self) -> Seq<RunOutcome> {
        self.log@
    }
}

impl StatusSummary {
    /// The table of failing exit codes with their counts, sorted by code.
    pub closed spec fn entries(&self) -> Seq<(i32, usize)> {
        self.failures@
    }

    /// The counters agree with the log of outcomes.
    pub closed spec fn counters_agree(&self) -> bool {
        &&& self.successes as nat == occurrences(self@, RunOutcome::Success)
        &&& self.killed as nat == occurrences(self@, RunOutcome::Killed)
        &&& entry_total(self.failures@) == coded_failures(self@)
    }

    /// The counters and the exit code table agree with the log of outcomes,
    /// whose length fits the counters.
    pub open spec fn wf(&self) -> bool {
        &&& self.counters_agree()
        &&& entries_match(self.entries(), self@)
        &&& self@.len() <= usize::MAX
    }

    /// An empty tally: no run made yet.
    pub fn new() -> (r: StatusSummary)
        ensures
            r.wf(),
            r@ == Seq::<RunOutcome>::empty(),
            r.entries() == Seq::<(i32, usize)>::empty(),
    {
        StatusSummary {
            successes: 0,
            killed: 0,
            failures: Vec::new(),
            log: Ghost(Seq::empty()),
        }
    }

    /// The number of runs that exited with code 0.
    pub fn successes(&self) -> (r: usize)
        requires
            self.wf(),
        ensures
            r == occurrences(self@, RunOutcome::Success),
    {
        self.successes
    }

    /// The number of runs that were killed.
    pub fn killed(&self) -> (r: usize)
        requires
            self.wf(),
        ensures
            r == occurrences(self@, RunOutcome::Killed),
    {
        self.killed
    }

    /// The number of runs that exited with `code` (0 where no run failed with it).
    pub fn failure_count(&self, code: i32) -> (r: usize)
        requires
            self.wf(),
        ensures
            r == occurrences(self@, RunOutcome::Failure(code)),
    {
        let mut i: usize = 0;
        while i < self.failures.len()
            invariant
                self.wf(),
                i <= self.failures@.len(),
                forall|j: int| 0 <= j < i ==> self.failures@[j].0 != code,
            decreases self.failures@.len() - i,
        {
            if self.failures[i].0 == code {
                return self.failures[i].1;
            }
            i = i + 1;
        }
        0
    }

    /// The number of runs that did not succeed: the killed ones plus the sum of
    /// the counts of all failing exit codes.
    pub fn total_failures(&self) -> (r: usize)
        requires
            self.wf(),
        ensures
            r == failed_runs(self@),
            r == occurrences(self@, RunOutcome::Killed) + entry_total(self.entries()),
    {
        let mut sum: usize = self.killed;
        let mut i: usize = 0;
        proof {
            lemma_outcomes_partition(self@);
            assert(self.failures@.subrange(0, 0) =~= Seq::<(i32, usize)>::empty());
        }
        while i < self.failures.len()
            invariant
                self.wf(),
                i <= self.failures@.len(),
                sum == self.killed + entry_total(self.failures@.subrange(0, i as int)),
                self.killed + entry_total(self.failures@) <= usize::MAX,
            decreases self.failures@.len() - i,
        {
            proof {
                let e = self.failures@;
                assert(e.subrange(0, i + 1).drop_last() =~= e.subrange(0, i as int));
                lemma_total_prefix(e, i + 1);
            }
            sum = sum + self.failures[i].1;
            i = i + 1;
        }
        proof {
            assert(self.failures@.subrange(0, i as int) =~= self.failures@);
        }
        sum
    }

    /// Records the outcome of one more run: adds one to the count of
    /// successes, of kills, or of the run's exit code, which gets an entry of
    /// its own the first time it comes.
    pub fn update(&mut self, outcome: RunOutcome)
        requires
            old(self).wf(),
            old(self)@.len() < usize::MAX,
        ensures
            final(self).wf(),
            final(self)@ == old(self)@.push(outcome),
            !(outcome is Failure) ==> final(self).entries() == old(self).entries(),
    {
        let ghost h = self@;
        proof {
            lemma_push_counts(h, outcome);
            lemma_occurrences_bounded(h, outcome);
            lemma_outcomes_partition(h);
        }
        match outcome {
            RunOutcome::Success => {
                self.successes = self.successes + 1;
            },
            RunOutcome::Killed => {
                self.killed = self.killed + 1;
            },
            RunOutcome::Failure(code) => {
                self.add_failure(code);
            },
        }
        self.log = Ghost(h.push(outcome));
        proof {
            let h2 = h.push(outcome);
            let e = self.failures@;
            assert forall|c: i32| #[trigger]
                occurrences(h2, RunOutcome::Failure(c)) > 0 implies exists|i: int|
                0 <= i < e.len() && e[i].0 == c by {
                if outcome != RunOutcome::Failure(c) {
                    assert(occurrences(h, RunOutcome::Failure(c)) > 0);
                }
            }
        }
    }

    /// Adds one to the count of `code` in the table, inserting the code in
    /// its place where it has no entry yet.
    fn add_failure(&mut self, code: i32)
        requires
            entries_match(old(self).failures@, old(self)@),
            entry_total(old(self).failures@) <= old(self)@.len(),
            old(self)@.len() < usize::MAX,
        ensures
            entries_match(final(self).failures@, old(self)@.push(RunOutcome::Failure(code))),
            entry_total(final(self).failures@) == entry_total(old(self).failures@) + 1,
            final(self).successes == old(self).successes,
            final(self).killed == old(self).killed,
            final(self).log == old(self).log,
    {
        let ghost h = self@;
        let ghost e = self.failures@;
        let ghost o = RunOutcome::Failure(code);
        let ghost h2 = h.push(o);
        proof {
            lemma_push_counts(h, o);
            lemma_occurrences_bounded(h, o);
        }
        let mut i: usize = 0;
        while i < self.failures.len() && self.failures[i].0 < code
            invariant
                self.failures@ == e,
                i <= e.len(),
                forall|j: int| 0 <= j < i ==> e[j].0 < code,
            decreases e.len() - i,
        {
            i = i + 1;
        }
        if i < self.failures.len() && self.failures[i].0 == code {
            let n = self.failures[i].1;
            self.failures.set(i, (code, n + 1));
            proof {
                lemma_total_update(e, i as int, (code, (n + 1) as usize));
                let e2 = self.failures@;
                assert forall|j: int| 0 <= j < e2.len() implies {
                    &&& #[trigger] e2[j].1 > 0
                    &&& e2[j].1 as nat == occurrences(h2, RunOutcome::Failure(e2[j].0))
                } by {
                    if j != i {
                        assert(e[j].0 != code);
                    }
                }
                assert forall|c: i32| #[trigger]
                    occurrences(h2, RunOutcome::Failure(c)) > 0 implies exists|k: int|
                    0 <= k < e2.len() && e2[k].0 == c by {
                    if c == code {
                        assert(e2[i as int].0 == c);
                    } else {
                        assert(occurrences(h, RunOutcome::Failure(c)) > 0);
                        let k = choose|k: int| 0 <= k < e.len() && e[k].0 == c;
                        assert(e2[k].0 == c);
                    }
                }
            }
        } else {
            proof {
                assert(occurrences(h, o) == 0) by {
                    if occurrences(h, o) > 0 {
                        let k = choose|k: int| 0 <= k < e.len() && e[k].0 == code;
                        if k < i {
                        } else {
                            assert(e[i as int].0 <= e[k].0);
                        }
                    }
                }
            }
            self.failures.insert(i, (code, 1));
            proof {
                lemma_total_insert(e, i as int, (code, 1usize));
                let e2 = self.failures@;
                assert(e2 =~= e.insert(i as int, (code, 1usize)));
                assert forall|a: int, b: int| 0 <= a < b < e2.len() implies e2[a].0 < e2[b].0 by {
                    if b == i {
                    } else if a == i {
                        assert(e2[b] == e[b - 1]);
                        assert(e[i as int].0 <= e[b - 1].0);
                    }
                }
                assert forall|j: int| 0 <= j < e2.len() implies {
                    &&& #[trigger] e2[j].1 > 0
                    &&& e2[j].1 as nat == occurrences(h2, RunOutcome::Failure(e2[j].0))
                } by {
                    if j < i {
                        assert(e[j].0 != code);
                    } else if j > i {
                        assert(e2[j] == e[j - 1]);
                        assert(e[i as int].0 <= e[j - 1].0);
                        assert(e[j - 1].0 != code);
                    }
                }
                assert forall|c: i32| #[trigger]
                    occurrences(h2, RunOutcome::Failure(c)) > 0 implies exists|k: int|
                    0 <= k < e2.len() && e2[k].0 == c by {
                    if c == code {
                        assert(e2[i as int].0 == c);
                    } else {
                        assert(occurrences(h, RunOutcome::Failure(c)) > 0);
                        let k = choose|k: int| 0 <= k < e.len() && e[k].0 == c;
                        if k < i {
                            assert(e2[k].0 == c);
                        } else {
                            assert(e2[k + 1].0 == c);
                        }
                    }
                }
            }
        }
    }

    /// The running summary: `(<successes> successes, <failed runs> failures)`.
    pub fn progress_line(&self) -> (r: String)
        requires
            self.wf(),
        ensures
            r@ == progress_text(self@),
    {
        let successes = decimal_string(self.successes);
        let failures = decimal_string(self.total_failures());
        proof {
            reveal_strlit("(");
            reveal_strlit(" successes, ");
            reveal_strlit(" failures)");
        }
        String::from_str("(").concat(successes.as_str()).concat(" successes, ").concat(
            failures.as_str(),
        ).concat(" failures)")
    }

    /// The lines of the final report: `successes: <n>`, `failures: <n>`,
    /// `(killed): <n>` where some run was killed, then
    /// `(exit code <code>): <n>` for each failing exit code, by ascending code.
    pub fn report_lines(&self) -> (r: Vec<String>)
        requires
            self.wf(),
        ensures
            line_texts(r@) == report_text(self@, self.entries()),
    {
        let mut lines: Vec<String> = Vec::new();
        proof {
            reveal_strlit("successes: ");
            reveal_strlit("failures: ");
            reveal_strlit("(killed): ");
        }
        lines.push(labelled("successes: ", self.successes));
        lines.push(labelled("failures: ", self.total_failures()));
        if self.killed > 0 {
            lines.push(labelled("(killed): ", self.killed));
        }
        let ghost head = line_texts(lines@);
        let ghost e = self.failures@;
        proof {
            assert(line_texts(lines@) =~= head + e.subrange(0, 0).map_values(
                |x: (i32, usize)| exit_code_line(x),
            ));
        }
        let mut i: usize = 0;
        while i < self.failures.len()
            invariant
                self.failures@ == e,
                i <= e.len(),
                line_texts(lines@) == head + e.subrange(0, i as int).map_values(
                    |x: (i32, usize)| exit_code_line(x),
                ),
            decreases e.len() - i,
        {
            let line = exit_code_string(self.failures[i]);
            let ghost before = lines@;
            lines.push(line);
            proof {
                assert(line_texts(lines@) =~= line_texts(before).push(exit_code_line(e[i as int])));
                assert(e.subrange(0, i + 1).map_values(|x: (i32, usize)| exit_code_line(x))
                    =~= e.subrange(0, i as int).map_values(|x: (i32, usize)| exit_code_line(x)).push(
                    exit_code_line(e[i as int]),
                ));
                assert(line_texts(lines@) =~= head + e.subrange(0, i + 1).map_values(
                    |x: (i32, usize)| exit_code_line(x),
                ));
            }
            i = i + 1;
        }
        proof {
            assert(e.subrange(0, i as int) =~= e);
            assert(line_texts(lines@) =~= report_text(self@, self.entries()));
        }
        lines
    }
}

impl Default for StatusSummary {
    /// An empty tally.
    fn default() -> (r: StatusSummary)
        ensures
            r.wf(),
            r@ == Seq::<RunOutcome>::empty(),
    {
        StatusSummary::new()
    }
}

/// Conservation: the successes, the kills and the counts of all failing exit
/// codes add up to the number of runs recorded.
pub proof fn lemma_tally_conserved(s: &StatusSummary)
    requires
        s.wf(),
    ensures
        occurrences(s@, RunOutcome::Success) + occurrences(s@, RunOutcome::Killed)
            + entry_total(s.entries()) == s@.len(),
{
    lemma_outcomes_partition(s@);
}

/// A tally with no run recorded reports zero successes and zero failures, and
/// nothing else.
pub proof fn lemma_empty_report(s: &StatusSummary)
    requires
        s.wf(),
        s@.len() == 0,
    ensures
        s.entries().len() == 0,
        report_text(s@, s.entries()) == seq!["successes: 0"@, "failures: 0"@],
{
    let e = s.entries();
    if e.len() > 0 {
        assert(e[0].1 > 0);
    }
    reveal_strlit("0");
    reveal_strlit("successes: ");
    reveal_strlit("failures: ");
    reveal_strlit("successes: 0");
    reveal_strlit("failures: 0");
    assert(decimal(0) =~= "0"@);
    assert(occurrences(s@, RunOutcome::Killed) == 0);
    assert(failed_runs(s@) == 0);
    assert(e.map_values(|x: (i32, usize)| exit_code_line(x)) =~= Seq::<Seq<char>>::empty());
    assert("successes: "@ + decimal(0) =~= "successes: 0"@);
    assert("failures: "@ + decimal(0) =~= "failures: 0"@);
    assert(report_text(s@, e) =~= seq!["successes: 0"@, "failures: 0"@]);
}

/// The final report depends on which outcomes were recorded, not on the order
/// in which they came: two tallies fed the same outcomes, in any order, print
/// the same report.
pub proof fn lemma_report_order_free(s1: &StatusSummary, s2: &StatusSummary)
    requires
        s1.wf(),
        s2.wf(),
        s1@.to_multiset() == s2@.to_multiset(),
    ensures
        s1.entries() == s2.entries(),
        report_text(s1@, s1.entries()) == report_text(s2@, s2.entries()),
{
    let h1 = s1@;
    let h2 = s2@;
    let e1 = s1.entries();
    let e2 = s2.entries();
    assert forall|p: RunOutcome| #[trigger] occurrences(h1, p) == occurrences(h2, p) by {
        lemma_occurrences_multiset(h1, p);
        lemma_occurrences_multiset(h2, p);
    }
    lemma_failed_runs_order_free(h1, h2);
    assert forall|k: i32| has_code(e1, k) <==> has_code(e2, k) by {
        if has_code(e1, k) {
            let a = choose|a: int| 0 <= a < e1.len() && e1[a].0 == k;
            assert(e1[a].1 > 0);
            assert(occurrences(h2, RunOutcome::Failure(k)) > 0);
        }
        if has_code(e2, k) {
            let b = choose|b: int| 0 <= b < e2.len() && e2[b].0 == k;
            assert(e2[b].1 > 0);
            assert(occurrences(h1, RunOutcome::Failure(k)) > 0);
        }
    }
    assert forall|i: int, j: int|
        0 <= i < e1.len() && 0 <= j < e2.len() && e1[i].0 == e2[j].0 implies e1[i].1
        == e2[j].1 by {
        assert(e1[i].1 > 0);
        assert(e2[j].1 > 0);
    }
    lemma_sorted_tables_equal(e1, e2);
    assert(occurrences(h1, RunOutcome::Success) == occurrences(h2, RunOutcome::Success));
    assert(occurrences(h1, RunOutcome::Killed) == occurrences(h2, RunOutcome::Killed));
}

} // verus!
