//! The report of a run: a line for every test that passed, an empty line, and
//! for every test that failed its name and the diff of its output.
use crate::diff::{diff, diff_of};
use crate::entries::stands_before;
use crate::model::{Manager, Outcome, OutcomeView, TestResult, TestResultView, TestView, Workspace};
use crate::registry::{registry_entries, result_entries, results_entry, results_len};
use crate::runner::{
    execute_all, executed_all, failed, lemma_parts_in_order, lemma_verdicts, outcome_views,
    partition, passed, settled,
};
use crate::style::{Span, span_views, SpanView, Tone};
use indexmap::IndexMap;
use std::collections::HashMap;
use vstd::prelude::*;

verus! {

/// What opens the entry of a test: its name and ` ... `.
pub open spec fn title_of(name: Seq<char>) -> SpanView {
    SpanView { text: name + seq![' ', '.', '.', '.', ' '], tone: Tone::Plain }
}

/// The line of a test that passed: its title and a green `ok`.
pub open spec fn pass_line(name: Seq<char>) -> Seq<SpanView> {
    seq![
        title_of(name),
        SpanView { text: seq!['o', 'k'], tone: Tone::Green },
        SpanView { text: seq!['\n'], tone: Tone::Plain },
    ]
}

/// The entry of a test that failed: its title and the diff of its output
/// against the expected one.
pub open spec fn fail_entry(name: Seq<char>, result: TestResultView) -> Seq<SpanView> {
    seq![title_of(name)] + diff_of(result.output, result.tobe)
}

/// The lines of the tests that passed, in their order.
pub open spec fn pass_lines(passed: Seq<(Seq<char>, TestResultView)>) -> Seq<SpanView>
    decreases passed.len(),
{
    if passed.len() == 0 {
        Seq::empty()
    } else {
        pass_lines(passed.drop_last()) + pass_line(passed.last().0)
    }
}

/// The entries of the tests that failed, in their order.
pub open spec fn fail_entries(failed: Seq<(Seq<char>, TestResultView)>) -> Seq<SpanView>
    decreases failed.len(),
{
    if failed.len() == 0 {
        Seq::empty()
    } else {
        fail_entries(failed.drop_last()) + fail_entry(failed.last().0, failed.last().1)
    }
}

/// The report of a run: the lines of the tests that passed, an empty line,
/// and the entries of the tests that failed.
pub open spec fn report_of(
    passed: Seq<(Seq<char>, TestResultView)>,
    failed: Seq<(Seq<char>, TestResultView)>,
) -> Seq<SpanView> {
    pass_lines(passed) + seq![SpanView { text: seq!['\n'], tone: Tone::Plain }] + fail_entries(
        failed,
    )
}

/// The report of a run of `tests` in which executing the script of the test
/// at position `i` yielded `outcomes[i]`.
pub open spec fn report_of_run(
    tests: Seq<(Seq<char>, TestView)>,
    outcomes: Seq<OutcomeView>,
) -> Seq<SpanView> {
    report_of(passed(settled(tests, outcomes)), failed(settled(tests, outcomes)))
}

/// The title of the entry of the test called `name`.
fn title(name: &String) -> (span: Span)
    ensures
        span@ == title_of(name@),
{
    let mut text = name.clone();
    proof {
        reveal_strlit(" ... ");
        assert(" ... "@ =~= seq![' ', '.', '.', '.', ' ']);
    }
    text.append(" ... ");
    Span { text, tone: Tone::Plain }
}

/// The report of the results of a run, those that passed and those that
/// failed, each in the order of its map.
pub fn report(
    passing: &IndexMap<String, TestResult>,
    failing: &IndexMap<String, TestResult>,
) -> (spans: Vec<Span>)
    ensures
        span_views(spans@) == report_of(result_entries(*passing), result_entries(*failing)),
{
    let mut spans: Vec<Span> = Vec::new();
    let ghost passed = result_entries(*passing);
    let ghost failed = result_entries(*failing);
    proof {
        reveal_strlit("ok");
        reveal_strlit("\n");
        assert("ok"@ =~= seq!['o', 'k']);
        assert("\n"@ =~= seq!['\n']);
    }
    let n = results_len(passing);
    let mut i: usize = 0;
    assert(span_views(spans@) =~= pass_lines(passed.take(0)));
    while i < n
        invariant
            passed == result_entries(*passing),
            n == passed.len(),
            i <= n,
            "ok"@ == seq!['o', 'k'],
            "\n"@ == seq!['\n'],
            span_views(spans@) == pass_lines(passed.take(i as int)),
        decreases n - i,
    {
        let (name, _result) = results_entry(passing, i);
        let ghost before = span_views(spans@);
        spans.push(title(name));
        spans.push(Span::new("ok", Tone::Green));
        spans.push(Span::new("\n", Tone::Plain));
        proof {
            assert(passed.take(i + 1).drop_last() =~= passed.take(i as int));
            assert(passed.take(i + 1).last() == passed[i as int]);
            assert(span_views(spans@) =~= before + pass_line(name@));
        }
        i += 1;
    }
    proof {
        assert(passed.take(n as int) =~= passed);
    }
    let ghost lines = span_views(spans@);
    spans.push(Span::new("\n", Tone::Plain));
    let ghost head = span_views(spans@);
    assert(head =~= pass_lines(passed) + seq![SpanView { text: seq!['\n'], tone: Tone::Plain }]);
    let m = results_len(failing);
    let mut j: usize = 0;
    assert(span_views(spans@) =~= head + fail_entries(failed.take(0)));
    while j < m
        invariant
            failed == result_entries(*failing),
            m == failed.len(),
            j <= m,
            span_views(spans@) == head + fail_entries(failed.take(j as int)),
        decreases m - j,
    {
        let (name, result) = results_entry(failing, j);
        let ghost before = span_views(spans@);
        spans.push(title(name));
        let mut lines = diff(result.output.as_str(), result.tobe.as_str());
        let ghost shown = span_views(lines@);
        spans.append(&mut lines);
        proof {
            assert(failed.take(j + 1).drop_last() =~= failed.take(j as int));
            assert(failed.take(j + 1).last() == failed[j as int]);
            assert(span_views(spans@) =~= before + (seq![title_of(name@)] + shown));
            assert(span_views(spans@) =~= head + (fail_entries(failed.take(j as int))
                + fail_entry(name@, result@)));
        }
        j += 1;
    }
    proof {
        assert(failed.take(m as int) =~= failed);
    }
    spans
}

impl Workspace {
    /// The report of the last run of this workspace.
    pub fn report(&self) -> (spans: Vec<Span>)
        ensures
            span_views(spans@) == report_of(self@.passed, self@.failed),
    {
        report(&self.success_tests, &self.fail_tests)
    }
}

impl Manager {
    /// Runs the tests of this configuration and reports: executes the script
    /// of every test, one after another in the order of the registry and each
    /// in the environment of the configuration, judges the outcomes, and
    /// gives the report of those that passed and those that failed.
    pub fn run<E: Fn(&str, &HashMap<String, String>) -> Outcome>(
        &self,
        execute: E,
    ) -> (spans: Vec<Span>)
        requires
            forall|script: &str, env: &HashMap<String, String>|
                call_requires(execute, (script, env)),
        ensures
            exists|env: HashMap<String, String>, outcomes: Seq<Outcome>|
                self.runs_in(env) && #[trigger] executed_all(
                    execute,
                    registry_entries(self.tests),
                    &env,
                    outcomes,
                ) && span_views(spans@) == report_of_run(
                    registry_entries(self.tests),
                    outcome_views(outcomes),
                ),
    {
        let outcomes = match &self.env {
            Some(env) => execute_all(&self.tests, env, &execute),
            None => {
                let env: HashMap<String, String> = HashMap::new();
                execute_all(&self.tests, &env, &execute)
            },
        };
        let (passing, failing) = partition(&self.tests, outcomes.as_slice());
        report(&passing, &failing)
    }
}

/// The report of a run follows the registry. It holds three spans for every
/// test that passed, one for the empty line, and ten for every test that
/// failed. The entry of each test opens with its title, and of two tests that
/// passed, and of two that failed, the one that the registry holds first is
/// reported first.
pub proof fn lemma_report_in_order(tests: Seq<(Seq<char>, TestView)>, outcomes: Seq<OutcomeView>)
    requires
        outcomes.len() == tests.len(),
    ensures
        ({
            let yes = passed(settled(tests, outcomes));
            let no = failed(settled(tests, outcomes));
            let report = report_of(yes, no);
            &&& report.len() == 3 * yes.len() + 1 + 10 * no.len()
            &&& forall|k: int|
                0 <= k < yes.len() ==> report[3 * k] == title_of((#[trigger] yes[k]).0)
            &&& forall|k: int|
                0 <= k < no.len() ==> report[3 * yes.len() + 1 + 10 * k] == title_of(
                    (#[trigger] no[k]).0,
                )
            &&& forall|p: int, q: int|
                0 <= p < q < yes.len() ==> stands_before(
                    tests,
                    (#[trigger] yes[p]).0,
                    (#[trigger] yes[q]).0,
                )
            &&& forall|p: int, q: int|
                0 <= p < q < no.len() ==> stands_before(
                    tests,
                    (#[trigger] no[p]).0,
                    (#[trigger] no[q]).0,
                )
        }),
{
    let yes = passed(settled(tests, outcomes));
    let no = failed(settled(tests, outcomes));
    let report = report_of(yes, no);
    lemma_verdicts(tests, outcomes);
    lemma_parts_in_order(tests, outcomes);
    lemma_pass_lines(yes);
    lemma_fail_entries(no);
    assert forall|k: int| 0 <= k < yes.len() implies report[3 * k] == title_of(
        (#[trigger] yes[k]).0,
    ) by {
        assert(report[3 * k] == pass_lines(yes)[3 * k]);
    }
    assert forall|k: int| 0 <= k < no.len() implies report[3 * yes.len() + 1 + 10 * k] == title_of(
        (#[trigger] no[k]).0,
    ) by {
        assert(report[3 * yes.len() + 1 + 10 * k] == fail_entries(no)[10 * k]);
    }
}

/// Where the lines of the tests that passed stand: each is three spans long
/// and opens with the title of its test.
proof fn lemma_pass_lines(passed: Seq<(Seq<char>, TestResultView)>)
    ensures
        pass_lines(passed).len() == 3 * passed.len(),
        forall|k: int|
            0 <= k < passed.len() ==> pass_lines(passed)[3 * k] == title_of(
                (#[trigger] passed[k]).0,
            ),
    decreases passed.len(),
{
    if passed.len() > 0 {
        let front = passed.drop_last();
        lemma_pass_lines(front);
        assert forall|k: int| 0 <= k < passed.len() implies pass_lines(passed)[3 * k] == title_of(
            (#[trigger] passed[k]).0,
        ) by {
            if k < front.len() {
                assert(front[k] == passed[k]);
                assert(pass_lines(passed)[3 * k] == pass_lines(front)[3 * k]);
            } else {
                assert(pass_lines(passed)[3 * k] == pass_line(passed.last().0)[0]);
            }
        }
    }
}

/// Where the entries of the tests that failed stand: the entry of a result
/// whose output is not the expected one is ten spans long and opens with the
/// title of its test.
proof fn lemma_fail_entries(failed: Seq<(Seq<char>, TestResultView)>)
    requires
        forall|k: int|
            0 <= k < failed.len() ==> (#[trigger] failed[k]).1.output != failed[k].1.tobe,
    ensures
        fail_entries(failed).len() == 10 * failed.len(),
        forall|k: int|
            0 <= k < failed.len() ==> fail_entries(failed)[10 * k] == title_of(
                (#[trigger] failed[k]).0,
            ),
    decreases failed.len(),
{
    if failed.len() > 0 {
        let front = failed.drop_last();
        assert forall|k: int| 0 <= k < front.len() implies (#[trigger] front[k]).1.output
            != front[k].1.tobe by {
            assert(front[k] == failed[k]);
        }
        lemma_fail_entries(front);
        let last = failed.last();
        assert(failed[failed.len() - 1].1.output != last.1.tobe);
        assert(fail_entry(last.0, last.1).len() == 10);
        assert forall|k: int| 0 <= k < failed.len() implies fail_entries(failed)[10 * k]
            == title_of((#[trigger] failed[k]).0) by {
            if k < front.len() {
                assert(front[k] == failed[k]);
                assert(fail_entries(failed)[10 * k] == fail_entries(front)[10 * k]);
            } else {
                assert(fail_entries(failed)[10 * k] == fail_entry(last.0, last.1)[0]);
            }
        }
    }
}

} // verus!
