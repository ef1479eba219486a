use vstd::prelude::*;

use core::time::Duration;

use crate::case::{CaseModel, RunError, TestCase};
use crate::json::{Json, JsonValue};
use crate::store::ResponseStore;
use crate::validate::opt_text;

verus! {

/// Status of a test in the results of a run.
#[derive(Clone, Copy, Debug, PartialEq, Eq, Structural)]
pub enum TestStatus {
    Passed,
    Failed,
    Skipped,
    Error,
}

/// Counts of the tests of a run, and how long it took.
#[derive(Clone, Copy, Debug)]
pub struct TestStats {
    pub total: usize,
    pub passed: usize,
    pub failed: usize,
    pub skipped: usize,
    pub total_duration: Duration,
}

/// A duration of zero.
///
/// Trusted: returns `Duration::ZERO`; nothing is stated of the value, which
/// has no model here.
#[verifier::external_body]
fn zero_duration() -> Duration {
    Duration::ZERO
}

impl Default for TestStats {
    /// No tests counted yet, and no time taken.
    fn default() -> (r: TestStats)
        ensures
            r.total == 0,
            r.passed == 0,
            r.failed == 0,
            r.skipped == 0,
    {
        TestStats { total: 0, passed: 0, failed: 0, skipped: 0, total_duration: zero_duration() }
    }
}

/// The result of one test.
#[derive(Debug)]
pub struct TestResult {
    pub name: String,
    pub status: TestStatus,
    pub duration_ms: Option<u128>,
    pub feedback: Option<String>,
}

/// The result of a run of tests.
#[derive(Debug)]
pub struct TestSuiteResult {
    pub stats: TestStats,
    pub results: Vec<TestResult>,
    pub success: bool,
}

/// How often `status` occurs in `h`.
pub open spec fn count_status(h: Seq<TestStatus>, status: TestStatus) -> nat
    decreases h.len(),
{
    if h.len() == 0 {
        0
    } else {
        count_status(h.drop_last(), status) + if h.last() == status {
            1nat
        } else {
            0nat
        }
    }
}

/// The statuses of `h` other than errors, in order.
pub open spec fn without_errors(h: Seq<TestStatus>) -> Seq<TestStatus>
    decreases h.len(),
{
    if h.len() == 0 {
        Seq::empty()
    } else if h.last() == TestStatus::Error {
        without_errors(h.drop_last())
    } else {
        without_errors(h.drop_last()).push(h.last())
    }
}

/// The statuses of a sequence of results.
pub open spec fn statuses(results: Seq<TestResult>) -> Seq<TestStatus> {
    results.map_values(|r: TestResult| r.status)
}

/// The state of a run of tests: the counts so far, the results of the tests
/// recorded so far, and the responses that later tests may reference.
pub struct SuiteRun {
    stats: TestStats,
    results: Vec<TestResult>,
    responses: ResponseStore,
    stopped: bool,
    history: Ghost<Seq<TestStatus>>,
    bailed: Ghost<nat>,
}

impl SuiteRun {
    /// The counts so far.
    pub closed spec fn stats_spec(&self) -> TestStats {
        self.stats
    }

    /// The results recorded so far.
    pub closed spec fn results_spec(&self) -> Seq<TestResult> {
        self.results@
    }

    /// The responses recorded so far, by test name.
    pub closed spec fn responses_spec(&self) -> Map<Seq<char>, Json> {
        self.responses@
    }

    /// The statuses of all tests recorded so far, errors included, in order.
    pub closed spec fn history(&self) -> Seq<TestStatus> {
        self.history@
    }

    /// The tests counted as skipped because an error stopped their file.
    pub closed spec fn skipped_after_error(&self) -> nat {
        self.bailed@
    }

    /// Whether the run has stopped.
    pub closed spec fn stopped_spec(&self) -> bool {
        self.stopped
    }

    /// The counts agree with the statuses recorded: every recorded test is
    /// counted, passed tests are those that passed, failed tests those that
    /// failed or could not be run, and the results hold every recorded test
    /// but those that could not be run.
    pub open spec fn wf(&self) -> bool {
        &&& self.stats_spec().total == self.history().len()
        &&& self.stats_spec().passed == count_status(self.history(), TestStatus::Passed)
        &&& self.stats_spec().failed == count_status(self.history(), TestStatus::Failed) + count_status(
            self.history(),
            TestStatus::Error,
        )
        &&& self.stats_spec().skipped == count_status(self.history(), TestStatus::Skipped)
            + self.skipped_after_error()
        &&& statuses(self.results_spec()) == without_errors(self.history())
        &&& self.stopped_spec() == (count_status(self.history(), TestStatus::Error) > 0)
        &&& self.skipped_after_error() > 0 ==> self.stopped_spec()
    }

    /// A run with nothing recorded.
    pub fn new() -> (r: SuiteRun)
        ensures
            r.wf(),
            r.stats_spec().total == 0,
            r.results_spec().len() == 0,
            r.responses_spec() == Map::<Seq<char>, Json>::empty(),
            r.history().len() == 0,
            r.skipped_after_error() == 0,
    {
        let r = SuiteRun {
            stats: TestStats::default(),
            results: Vec::new(),
            responses: ResponseStore::new(),
            stopped: false,
            history: Ghost(Seq::empty()),
            bailed: Ghost(0),
        };
        assert(statuses(r.results@) =~= Seq::<TestStatus>::empty());
        r
    }

    /// The counts so far.
    pub fn stats(&self) -> (r: TestStats)
        ensures
            r == self.stats_spec(),
    {
        self.stats
    }

    /// The results recorded so far.
    pub fn results(&self) -> (r: &Vec<TestResult>)
        ensures
            r@ == self.results_spec(),
    {
        &self.results
    }

    /// Whether the run has stopped: a test could not be run (the API server
    /// could not be reached), and no further test is to be run.
    pub fn stopped(&self) -> (r: bool)
        ensures
            r == self.stopped_spec(),
            self.wf() ==> (r == (count_status(self.history(), TestStatus::Error) > 0)),
    {
        self.stopped
    }

    /// The responses that later tests may reference.
    pub fn responses(&self) -> (r: &ResponseStore)
        ensures
            r@ == self.responses_spec(),
    {
        &self.responses
    }

    /// Takes a test read from a file under the table key `key`: it is named
    /// after the key unless it has a name.
    pub fn start_case(&self, key: String, test: TestCase) -> (r: TestCase)
        ensures
            r@ == (CaseModel {
                name: if test@.name.len() == 0 {
                    key@
                } else {
                    test@.name
                },
                ..test@
            }),
    {
        let mut test = test;
        test.set_name_if_empty(key);
        test
    }

    /// Records and counts a test that has run: `run` is what running it
    /// gave, an error when it could not be run, else its response if it had a
    /// JSON one. A passed test's response is kept for later tests to
    /// reference. An error stops the run: the remaining tests of the file,
    /// `file_case_count` less the tests counted so far (this one included),
    /// are counted as skipped.
    pub fn record_case(&mut self, mut test: TestCase, run: Result<Option<JsonValue>, RunError>, file_case_count: usize) -> (status: TestStatus)
        requires
            old(self).wf(),
            test@.outcome == Some(true) ==> test@.duration_ms is Some,
            old(self).stats_spec().total < usize::MAX,
            old(self).stats_spec().passed < usize::MAX,
            old(self).stats_spec().failed < usize::MAX,
            old(self).stats_spec().skipped < usize::MAX,
            run is Err ==> old(self).stats_spec().total + 1 <= file_case_count,
            run is Err ==> old(self).stats_spec().skipped + (file_case_count - (old(self).stats_spec().total + 1))
                <= usize::MAX,
        ensures
            final(self).wf(),
            status == match run {
                Err(_) => TestStatus::Error,
                Ok(_) => match test@.outcome {
                    Some(true) => TestStatus::Passed,
                    Some(false) => TestStatus::Failed,
                    None => TestStatus::Skipped,
                },
            },
            final(self).history() == old(self).history().push(status),
            final(self).stats_spec().total == old(self).stats_spec().total + 1,
            final(self).stats_spec().passed == old(self).stats_spec().passed + if status == TestStatus::Passed {
                1int
            } else {
                0int
            },
            final(self).stats_spec().failed == old(self).stats_spec().failed + if status == TestStatus::Failed
                || status == TestStatus::Error {
                1int
            } else {
                0int
            },
            final(self).stats_spec().skipped == old(self).stats_spec().skipped + if status == TestStatus::Skipped {
                1int
            } else if status == TestStatus::Error {
                file_case_count - (old(self).stats_spec().total + 1)
            } else {
                0int
            },
            status == TestStatus::Error ==> final(self).results_spec() == old(self).results_spec(),
            status != TestStatus::Error ==> {
                let last = final(self).results_spec().last();
                &&& final(self).results_spec().drop_last() == old(self).results_spec()
                &&& final(self).results_spec().len() == old(self).results_spec().len() + 1
                &&& last.name@ == test@.name
                &&& last.status == status
                &&& last.duration_ms == if status == TestStatus::Passed {
                    test@.duration_ms
                } else {
                    None
                }
                &&& opt_text(last.feedback) == if status == TestStatus::Failed {
                    test@.feedback
                } else {
                    None
                }
            },
            final(self).responses_spec() == match run {
                Ok(Some(body)) => if status == TestStatus::Passed {
                    old(self).responses_spec().insert(test@.name, body@)
                } else {
                    old(self).responses_spec()
                },
                _ => old(self).responses_spec(),
            },
    {
        let ghost old_results = self.results@;
        let ghost h = self.history@;
        self.stats.total = self.stats.total + 1;
        match run {
            Err(_) => {
                let remaining = file_case_count - self.stats.total;
                self.stats.failed = self.stats.failed + 1;
                self.stats.skipped = self.stats.skipped + remaining;
                self.stopped = true;
                proof {
                    self.history = Ghost(h.push(TestStatus::Error));
                    self.bailed = Ghost(self.bailed@ + remaining as nat);
                    assert(self.history@.drop_last() =~= h);
                }
                TestStatus::Error
            },
            Ok(response) => {
                let name = test.name().clone();
                let outcome = test.outcome();
                let status = match outcome {
                    Some(true) => TestStatus::Passed,
                    Some(false) => TestStatus::Failed,
                    None => TestStatus::Skipped,
                };
                let result = match status {
                    TestStatus::Passed => {
                        self.stats.passed = self.stats.passed + 1;
                        TestResult { name: name.clone(), status, duration_ms: test.duration_ms(), feedback: None }
                    },
                    TestStatus::Failed => {
                        self.stats.failed = self.stats.failed + 1;
                        let feedback = test.take_feedback();
                        TestResult { name: name.clone(), status, duration_ms: None, feedback }
                    },
                    _ => {
                        self.stats.skipped = self.stats.skipped + 1;
                        TestResult { name: name.clone(), status, duration_ms: None, feedback: None }
                    },
                };
                self.results.push(result);
                if status == TestStatus::Passed {
                    match response {
                        Some(body) => self.responses.insert(name, body),
                        None => {},
                    }
                }
                proof {
                    self.history = Ghost(h.push(status));
                    assert(self.history@.drop_last() =~= h);
                    assert(statuses(self.results@) =~= statuses(old_results).push(status));
                    assert(self.results@.drop_last() =~= old_results);
                }
                status
            },
        }
    }

    /// Ends the run: the counts with the time the run took, the results, and
    /// whether it succeeded, which is when no test failed or could not be run.
    pub fn finish(self, total_duration: Duration) -> (r: TestSuiteResult)
        requires
            self.wf(),
        ensures
            r.stats.total == self.stats_spec().total,
            r.stats.passed == self.stats_spec().passed,
            r.stats.failed == self.stats_spec().failed,
            r.stats.skipped == self.stats_spec().skipped,
            r.stats.total_duration == total_duration,
            r.results@ == self.results_spec(),
            r.success == (self.stats_spec().failed == 0),
            r.success == (count_status(self.history(), TestStatus::Failed) == 0 && count_status(
                self.history(),
                TestStatus::Error,
            ) == 0),
            count_status(self.history(), TestStatus::Error) == 0 ==> {
                &&& r.results@.len() == r.stats.total
                &&& r.stats.total == r.stats.passed + r.stats.failed + r.stats.skipped
                &&& r.stats.passed == count_status(statuses(r.results@), TestStatus::Passed)
                &&& r.stats.failed == count_status(statuses(r.results@), TestStatus::Failed)
                &&& r.stats.skipped == count_status(statuses(r.results@), TestStatus::Skipped)
            },
    {
        proof {
            if count_status(self.history(), TestStatus::Error) == 0 {
                law_run_counts(self);
            }
        }
        let mut stats = self.stats;
        stats.total_duration = total_duration;
        TestSuiteResult { stats, results: self.results, success: stats.failed == 0 }
    }
}

/// Without errors, [`without_errors`] keeps every status.
proof fn lemma_without_errors_keeps_all(h: Seq<TestStatus>)
    requires
        count_status(h, TestStatus::Error) == 0,
    ensures
        without_errors(h) == h,
    decreases h.len(),
{
    if h.len() > 0 {
        lemma_without_errors_keeps_all(h.drop_last());
        assert(h.drop_last().push(h.last()) =~= h);
    }
}

/// Every status is one of the four, so their counts add up to the length.
proof fn lemma_counts_add_up(h: Seq<TestStatus>)
    ensures
        count_status(h, TestStatus::Passed) + count_status(h, TestStatus::Failed) + count_status(
            h,
            TestStatus::Skipped,
        ) + count_status(h, TestStatus::Error) == h.len(),
    decreases h.len(),
{
    if h.len() > 0 {
        lemma_counts_add_up(h.drop_last());
    }
}

/// Law of a run's counts: when no test could not be run, the results hold
/// every test counted, in order, the total is the sum of the passed, failed
/// and skipped tests, and each of these counts is the number of results with
/// that status.
pub proof fn law_run_counts(run: SuiteRun)
    requires
        run.wf(),
        count_status(run.history(), TestStatus::Error) == 0,
    ensures
        statuses(run.results_spec()) == run.history(),
        run.results_spec().len() == run.stats_spec().total,
        run.stats_spec().total == run.stats_spec().passed + run.stats_spec().failed + run.stats_spec().skipped,
        run.stats_spec().passed == count_status(statuses(run.results_spec()), TestStatus::Passed),
        run.stats_spec().failed == count_status(statuses(run.results_spec()), TestStatus::Failed),
        run.stats_spec().skipped == count_status(statuses(run.results_spec()), TestStatus::Skipped),
{
    lemma_without_errors_keeps_all(run.history());
    lemma_counts_add_up(run.history());
    assert(statuses(run.results_spec()).len() == run.results_spec().len());
}

/// The result of a run that found no test files: nothing counted, and not a
/// success.
pub fn no_test_files_result() -> (r: TestSuiteResult)
    ensures
        r.stats.total == 0,
        r.stats.passed == 0,
        r.stats.failed == 0,
        r.stats.skipped == 0,
        r.results@.len() == 0,
        !r.success,
{
    TestSuiteResult { stats: TestStats::default(), results: Vec::new(), success: false }
}

} // verus!
