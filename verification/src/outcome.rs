//! Structured pass/fail reports of conformance runs.

use vstd::prelude::*;

verus! {

/// The result of one conformance test.
#[derive(Debug, Clone)]
pub struct TestOutcome {
    /// Stable test name.
    pub name: &'static str,
    /// Pass or fail; a skipped test counts as passed.
    pub passed: bool,
    /// Whether the test was skipped.
    pub skipped: bool,
    /// Failure detail or skip reason; empty on a plain pass.
    pub detail: String,
}

impl TestOutcome {
    /// A plain pass.
    pub fn pass(name: &'static str) -> (t: TestOutcome)
        ensures
            t.name == name,
            t.passed,
            !t.skipped,
            t.detail@.len() == 0,
    {
        TestOutcome { name, passed: true, skipped: false, detail: String::new() }
    }

    /// A failure with its detail.
    pub fn fail(name: &'static str, detail: String) -> (t: TestOutcome)
        ensures
            t.name == name,
            !t.passed,
            !t.skipped,
            t.detail@ == detail@,
    {
        TestOutcome { name, passed: false, skipped: false, detail }
    }

    /// A skip with its reason; it counts as a pass.
    pub fn skip(name: &'static str, reason: String) -> (t: TestOutcome)
        ensures
            t.name == name,
            t.passed,
            t.skipped,
            t.detail@ == reason@,
    {
        TestOutcome { name, passed: true, skipped: true, detail: reason }
    }
}

/// The failed tests of `s`, in run order.
pub open spec fn failed_of(s: Seq<TestOutcome>) -> Seq<TestOutcome>
    decreases s.len(),
{
    if s.len() == 0 {
        Seq::empty()
    } else if !s.last().passed {
        failed_of(s.drop_last()).push(s.last())
    } else {
        failed_of(s.drop_last())
    }
}

/// The skipped tests of `s`, in run order.
pub open spec fn skipped_of(s: Seq<TestOutcome>) -> Seq<TestOutcome>
    decreases s.len(),
{
    if s.len() == 0 {
        Seq::empty()
    } else if s.last().skipped {
        skipped_of(s.drop_last()).push(s.last())
    } else {
        skipped_of(s.drop_last())
    }
}

/// Every test of `s` passed.
pub proof fn lemma_no_failures(s: Seq<TestOutcome>)
    ensures
        (failed_of(s).len() == 0) == (forall|i: int| 0 <= i < s.len() ==> (#[trigger] s[i]).passed),
    decreases s.len(),
{
    if s.len() > 0 {
        lemma_no_failures(s.drop_last());
        if forall|i: int| 0 <= i < s.drop_last().len() ==> (#[trigger] s.drop_last()[i]).passed {
            assert forall|i: int| 0 <= i < s.len() - 1 implies (#[trigger] s[i]).passed by {
                assert(s[i] == s.drop_last()[i]);
            }
        } else {
            let i = choose|i: int| 0 <= i < s.drop_last().len() && !(#[trigger] s.drop_last()[i]).passed;
            assert(s[i] == s.drop_last()[i]);
        }
    }
}

/// The outcomes that `v` refers to.
pub open spec fn deref_all(v: Seq<&TestOutcome>) -> Seq<TestOutcome> {
    v.map_values(|t: &TestOutcome| *t)
}

/// The outcome of a suite run.
#[derive(Debug, Clone)]
pub struct Outcome {
    /// Per-test outcomes in run order.
    pub tests: Vec<TestOutcome>,
}

impl Default for Outcome {
    /// An empty run.
    fn default() -> (o: Outcome)
        ensures
            o.tests@.len() == 0,
    {
        Outcome { tests: Vec::new() }
    }
}

impl Outcome {
    /// Whether every test passed (skipped ones count as passed).
    pub fn passed(&self) -> (b: bool)
        ensures
            b == forall|i: int| 0 <= i < self.tests@.len() ==> (#[trigger] self.tests@[i]).passed,
    {
        let mut i: usize = 0;
        while i < self.tests.len()
            invariant
                i <= self.tests@.len(),
                forall|j: int| 0 <= j < i ==> (#[trigger] self.tests@[j]).passed,
            decreases self.tests.len() - i,
        {
            if !self.tests[i].passed {
                return false;
            }
            i = i + 1;
        }
        true
    }

    /// The failed tests, in run order.
    pub fn failed(&self) -> (r: Vec<&TestOutcome>)
        ensures
            deref_all(r@) == failed_of(self.tests@),
    {
        let mut out: Vec<&TestOutcome> = Vec::new();
        let mut i: usize = 0;
        assert(deref_all(out@) =~= Seq::<TestOutcome>::empty());
        while i < self.tests.len()
            invariant
                i <= self.tests@.len(),
                deref_all(out@) == failed_of(self.tests@.take(i as int)),
            decreases self.tests.len() - i,
        {
            assert(self.tests@.take(i + 1).drop_last() =~= self.tests@.take(i as int));
            if !self.tests[i].passed {
                let ghost before = out@;
                out.push(&self.tests[i]);
                assert(deref_all(out@) =~= deref_all(before).push(self.tests@[i as int]));
            }
            i = i + 1;
        }
        assert(self.tests@.take(self.tests.len() as int) =~= self.tests@);
        out
    }

    /// The skipped tests, in run order.
    pub fn skipped(&self) -> (r: Vec<&TestOutcome>)
        ensures
            deref_all(r@) == skipped_of(self.tests@),
    {
        let mut out: Vec<&TestOutcome> = Vec::new();
        let mut i: usize = 0;
        assert(deref_all(out@) =~= Seq::<TestOutcome>::empty());
        while i < self.tests.len()
            invariant
                i <= self.tests@.len(),
                deref_all(out@) == skipped_of(self.tests@.take(i as int)),
            decreases self.tests.len() - i,
        {
            assert(self.tests@.take(i + 1).drop_last() =~= self.tests@.take(i as int));
            if self.tests[i].skipped {
                let ghost before = out@;
                out.push(&self.tests[i]);
                assert(deref_all(out@) =~= deref_all(before).push(self.tests@[i as int]));
            }
            i = i + 1;
        }
        assert(self.tests@.take(self.tests.len() as int) =~= self.tests@);
        out
    }

    /// Number of failed tests.
    pub fn failures(&self) -> (n: usize)
        ensures
            n == failed_of(self.tests@).len(),
    {
        let f = self.failed();
        assert(deref_all(f@).len() == f@.len());
        f.len()
    }

    /// Number of skipped tests.
    pub fn skips(&self) -> (n: usize)
        ensures
            n == skipped_of(self.tests@).len(),
    {
        let f = self.skipped();
        assert(deref_all(f@).len() == f@.len());
        f.len()
    }

    /// Append a test outcome.
    pub fn record(&mut self, outcome: TestOutcome)
        ensures
            final(self).tests@ == old(self).tests@.push(outcome),
    {
        self.tests.push(outcome);
    }
}

/// A run passes exactly when it has no failures.
pub proof fn lemma_passed_iff_no_failures(o: Outcome)
    ensures
        (failed_of(o.tests@).len() == 0) == (forall|i: int| 0 <= i < o.tests@.len() ==> (#[trigger] o.tests@[i]).passed),
{
    lemma_no_failures(o.tests@);
}

} // verus!
