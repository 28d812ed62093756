//! The self-test validator: each pattern checked against its own worked examples.
use vstd::prelude::*;
use crate::fields::{copy_fields, lookup, merge_fields, overrides, pairs_view, same_fields, same_mapping};
use crate::loader::Diagnostic;
use crate::pattern::{Pattern, Repository, TestMessage};
use crate::program::run_tokens;

verus! {

/// What checking one worked example gave.
#[derive(Clone, Debug)]
pub enum TestOutcome {
    Pass,
    /// The line matched, but the reported fields differ from the expected ones.
    Fail { expected: Vec<(String, String)>, actual: Vec<(String, String)> },
    /// The program does not consume the whole line.
    NoMatch,
}

/// The outcome of the worked example at `test_index` of the pattern `pattern_uuid`.
#[derive(Clone, Debug)]
pub struct TestReport {
    pub pattern_uuid: u128,
    pub test_index: usize,
    pub outcome: TestOutcome,
}

/// The expected values of `m` are exactly the defaults of `p` overridden by `ex`.
pub open spec fn expected_holds(p: Pattern, m: TestMessage, ex: Seq<(Seq<char>, Seq<char>)>) -> bool {
    forall|k: Seq<char>|
        #[trigger] lookup(pairs_view(m.values@), k) == (if lookup(ex, k) is Some {
            lookup(ex, k)
        } else {
            lookup(pairs_view(p.values@), k)
        })
}

/// `o` is the outcome of checking the worked example `m` against `p` alone.
pub open spec fn outcome_for(p: Pattern, m: TestMessage, o: TestOutcome) -> bool {
    match run_tokens(p.pattern.tokens@, m.message@) {
        None => o is NoMatch,
        Some(ex) => if expected_holds(p, m, ex) {
            o is Pass
        } else {
            match o {
                TestOutcome::Fail { expected, actual } => expected@ == m.values@ && overrides(
                    pairs_view(actual@),
                    pairs_view(p.values@),
                    ex,
                ),
                _ => false,
            }
        },
    }
}

/// Checks the worked example `m` against the program of `p` alone.
pub fn check_message(p: &Pattern, m: &TestMessage) -> (r: TestOutcome)
    ensures
        outcome_for(*p, *m, r),
{
    match p.pattern.execute(m.message.as_str()) {
        None => TestOutcome::NoMatch,
        Some((ex, _)) => {
            let ghost exv = pairs_view(ex@);
            let merged = merge_fields(&p.values, ex);
            if same_fields(&merged, &m.values) {
                assert forall|k: Seq<char>|
                    #[trigger] lookup(pairs_view(m.values@), k) == (if lookup(exv, k) is Some {
                        lookup(exv, k)
                    } else {
                        lookup(pairs_view(p.values@), k)
                    }) by {
                    assert(lookup(pairs_view(merged@), k) == lookup(pairs_view(m.values@), k));
                }
                TestOutcome::Pass
            } else {
                proof {
                    if expected_holds(*p, *m, exv) {
                        assert forall|k: Seq<char>|
                            #[trigger] lookup(pairs_view(merged@), k) == lookup(pairs_view(m.values@), k) by {}
                    }
                }
                TestOutcome::Fail { expected: copy_fields(&m.values), actual: merged }
            }
        },
    }
}

/// The number of worked examples of the first `i` patterns of `ps`.
pub open spec fn tests_before(ps: Seq<Pattern>, i: nat) -> nat
    decreases i,
{
    if i == 0 {
        0
    } else {
        tests_before(ps, (i - 1) as nat) + ps[i - 1].test_messages@.len()
    }
}

/// `r` reports on the worked example `j` of the pattern `ps[i]`.
pub open spec fn report_for(ps: Seq<Pattern>, i: int, j: int, r: TestReport) -> bool {
    &&& r.pattern_uuid == ps[i].uuid
    &&& r.test_index == j
    &&& outcome_for(ps[i], ps[i].test_messages@[j], r.outcome)
}

/// Checks every worked example of every pattern: one report per example,
/// pattern by pattern in insertion order and example by example in order.
pub fn validate(repo: &Repository) -> (r: Vec<TestReport>)
    ensures
        r@.len() == tests_before(repo@, repo@.len()),
        forall|i: int, j: int|
            0 <= i < repo@.len() && 0 <= j < repo@[i].test_messages@.len() ==> #[trigger] report_for(
                repo@,
                i,
                j,
                r@[tests_before(repo@, i as nat) + j],
            ),
{
    let ghost ps = repo@;
    let mut r: Vec<TestReport> = Vec::new();
    let n = repo.len();
    let mut i: usize = 0;
    while i < n
        invariant
            n == ps.len(),
            ps == repo@,
            i <= n,
            r@.len() == tests_before(ps, i as nat),
            forall|a: int, b: int|
                0 <= a < i && 0 <= b < ps[a].test_messages@.len() ==> #[trigger] report_for(
                    ps,
                    a,
                    b,
                    r@[tests_before(ps, a as nat) + b],
                ),
        decreases n - i,
    {
        let p = repo.get(i);
        let m = p.test_messages.len();
        let mut j: usize = 0;
        while j < m
            invariant
                n == ps.len(),
                ps == repo@,
                i < n,
                *p == ps[i as int],
                m == p.test_messages@.len(),
                j <= m,
                r@.len() == tests_before(ps, i as nat) + j,
                forall|a: int, b: int|
                    0 <= a < i && 0 <= b < ps[a].test_messages@.len() ==> #[trigger] report_for(
                        ps,
                        a,
                        b,
                        r@[tests_before(ps, a as nat) + b],
                    ),
                forall|b: int| 0 <= b < j ==> #[trigger] report_for(ps, i as int, b, r@[tests_before(ps, i as nat) + b]),
            decreases m - j,
        {
            let outcome = check_message(p, &p.test_messages[j]);
            let ghost before = r@;
            r.push(TestReport { pattern_uuid: p.uuid, test_index: j, outcome });
            proof {
                assert forall|a: int, b: int|
                    0 <= a < i && 0 <= b < ps[a].test_messages@.len() implies #[trigger] report_for(
                        ps,
                        a,
                        b,
                        r@[tests_before(ps, a as nat) + b],
                    ) by {
                    lemma_tests_before_mono(ps, (a + 1) as nat, i as nat);
                    assert(r@[tests_before(ps, a as nat) + b] == before[tests_before(ps, a as nat) + b]);
                }
                assert forall|b: int| 0 <= b < j + 1 implies #[trigger] report_for(ps, i as int, b, r@[tests_before(ps, i as nat) + b]) by {
                    if b < j {
                        assert(r@[tests_before(ps, i as nat) + b] == before[tests_before(ps, i as nat) + b]);
                    }
                }
            }
            j = j + 1;
        }
        i = i + 1;
    }
    r
}

proof fn lemma_tests_before_mono(ps: Seq<Pattern>, a: nat, b: nat)
    requires
        a <= b <= ps.len(),
    ensures
        tests_before(ps, a) <= tests_before(ps, b),
    decreases b,
{
    if a < b {
        lemma_tests_before_mono(ps, a, (b - 1) as nat);
    }
}

/// Whether every report says `Pass`.
pub fn all_passed(reports: &Vec<TestReport>) -> (r: bool)
    ensures
        r == forall|k: int| 0 <= k < reports@.len() ==> (#[trigger] reports@[k]).outcome is Pass,
{
    let mut k: usize = 0;
    while k < reports.len()
        invariant
            k <= reports@.len(),
            forall|q: int| 0 <= q < k ==> (#[trigger] reports@[q]).outcome is Pass,
        decreases reports@.len() - k,
    {
        match reports[k].outcome {
            TestOutcome::Pass => {},
            _ => {
                return false;
            },
        }
        k = k + 1;
    }
    true
}

/// A pattern file validates when every worked example passed and loading it
/// reported nothing.
pub fn validation_succeeded(reports: &Vec<TestReport>, diagnostics: &Vec<Diagnostic>) -> (r: bool)
    ensures
        r == (diagnostics@.len() == 0 && forall|k: int| 0 <= k < reports@.len() ==> (#[trigger] reports@[k]).outcome is Pass),
{
    diagnostics.len() == 0 && all_passed(reports)
}

} // verus!
