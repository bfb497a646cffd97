//! Running a registry: every test is judged by what executing its script
//! yielded, and the results are parted into those that passed and those that
//! failed, each part in the order of the registry.
use crate::entries::{distinct_names, has_name, stands_before};
use crate::model::{
    judged, Outcome, OutcomeView, Test, TestResult, TestResultView, TestView, Workspace,
    WorkspaceView,
};
use crate::registry::{
    registry_entries, registry_entry, registry_len, result_entries, results_insert, results_new,
};
use indexmap::IndexMap;
use std::collections::HashMap;
use vstd::prelude::*;

verus! {

/// The outcomes as plain values, in order.
pub open spec fn outcome_views(outcomes: Seq<Outcome>) -> Seq<OutcomeView> {
    Seq::new(outcomes.len(), |i: int| outcomes[i]@)
}

/// The result of every test of a registry, in its order, where `outcomes[i]`
/// is what executing the script of the test at position `i` yielded.
pub open spec fn settled(tests: Seq<(Seq<char>, TestView)>, outcomes: Seq<OutcomeView>) -> Seq<
    (Seq<char>, TestResultView),
> {
    Seq::new(tests.len(), |i: int| (tests[i].0, judged(tests[i].1, outcomes[i])))
}

/// Whether the result of an entry carries the verdict `pass`, and carries it
/// rightly: it passed exactly when its output is the expected one.
pub open spec fn holds_verdict(entry: (Seq<char>, TestResultView), pass: bool) -> bool {
    entry.1.pass == pass && entry.1.wf()
}

/// The results that passed, in order.
pub open spec fn passed(results: Seq<(Seq<char>, TestResultView)>) -> Seq<
    (Seq<char>, TestResultView),
> {
    results.filter(|r: (Seq<char>, TestResultView)| r.1.pass)
}

/// The results that failed, in order.
pub open spec fn failed(results: Seq<(Seq<char>, TestResultView)>) -> Seq<
    (Seq<char>, TestResultView),
> {
    results.filter(|r: (Seq<char>, TestResultView)| !r.1.pass)
}

/// Whether `outcome` is what `execute` may give for `script` in the
/// environment `env`.
pub open spec fn executed<E: Fn(&str, &HashMap<String, String>) -> Outcome>(
    execute: E,
    script: Seq<char>,
    env: &HashMap<String, String>,
    outcome: Outcome,
) -> bool {
    exists|text: &str| text@ == script && call_ensures(execute, (text, env), outcome)
}

/// Whether `outcomes` are what `execute` may give for the scripts of `tests`:
/// one outcome for every test, at its position.
pub open spec fn executed_all<E: Fn(&str, &HashMap<String, String>) -> Outcome>(
    execute: E,
    tests: Seq<(Seq<char>, TestView)>,
    env: &HashMap<String, String>,
    outcomes: Seq<Outcome>,
) -> bool {
    &&& outcomes.len() == tests.len()
    &&& forall|i: int|
        0 <= i < outcomes.len() ==> executed(
            execute,
            tests[i].1.script,
            env,
            #[trigger] outcomes[i],
        )
}

impl WorkspaceView {
    /// Whether the results are those of a run in which executing the script
    /// of the test at position `i` of the registry yielded `outcomes[i]`.
    pub open spec fn records(self, outcomes: Seq<OutcomeView>) -> bool {
        &&& self.passed == passed(settled(self.tests, outcomes))
        &&& self.failed == failed(settled(self.tests, outcomes))
    }

    /// Whether the results part the registry: every test has its result among
    /// those that passed or among those that failed, no test has one among
    /// both, and there is no result without its test.
    pub open spec fn parted(self) -> bool {
        &&& forall|name: Seq<char>|
            has_name(self.tests, name) <==> has_name(self.passed, name) || has_name(
                self.failed,
                name,
            )
        &&& forall|name: Seq<char>| !(has_name(self.passed, name) && has_name(self.failed, name))
    }
}

/// Judges every test of `tests` by the outcome at its position and parts the
/// results: first those that passed, then those that failed.
pub fn partition(tests: &IndexMap<String, Test>, outcomes: &[Outcome]) -> (parts: (
    IndexMap<String, TestResult>,
    IndexMap<String, TestResult>,
))
    requires
        outcomes@.len() == registry_entries(*tests).len(),
    ensures
        result_entries(parts.0) == passed(
            settled(registry_entries(*tests), outcome_views(outcomes@)),
        ),
        result_entries(parts.1) == failed(
            settled(registry_entries(*tests), outcome_views(outcomes@)),
        ),
        distinct_names(registry_entries(*tests)),
{
    let n = registry_len(tests);
    let mut passing = results_new();
    let mut failing = results_new();
    let ghost entries = registry_entries(*tests);
    let ghost all = settled(entries, outcome_views(outcomes@));
    let mut i: usize = 0;
    while i < n
        invariant
            entries == registry_entries(*tests),
            all == settled(entries, outcome_views(outcomes@)),
            n == entries.len(),
            n == outcomes@.len(),
            i <= n,
            result_entries(passing) == passed(all.take(i as int)),
            result_entries(failing) == failed(all.take(i as int)),
            forall|a: int, b: int|
                0 <= a < i && 0 <= b < n && a != b ==> (#[trigger] entries[a]).0 != (
                #[trigger] entries[b]).0,
        decreases n - i,
    {
        let (name, test) = registry_entry(tests, i);
        let result = TestResult::judge(test, &outcomes[i]);
        proof {
            let seen = all.take(i as int);
            assert(all.take(i + 1) =~= seen.push(all[i as int]));
            assert(all[i as int] == (name@, result@));
            assert(!has_name(seen, name@)) by {
                if has_name(seen, name@) {
                    let j = choose|j: int| 0 <= j < seen.len() && (#[trigger] seen[j]).0 == name@;
                    assert(entries[j].0 == name@);
                }
            }
            lemma_part_lacks_name(seen, |r: (Seq<char>, TestResultView)| r.1.pass, name@);
            lemma_part_lacks_name(seen, |r: (Seq<char>, TestResultView)| !r.1.pass, name@);
            seen.lemma_filter_push(all[i as int], |r: (Seq<char>, TestResultView)| r.1.pass);
            seen.lemma_filter_push(all[i as int], |r: (Seq<char>, TestResultView)| !r.1.pass);
        }
        if result.pass {
            results_insert(&mut passing, name.clone(), result);
        } else {
            results_insert(&mut failing, name.clone(), result);
        }
        i += 1;
    }
    proof {
        assert(all.take(n as int) =~= all);
    }
    (passing, failing)
}

/// Executes the script of every test of `tests`, one after another in the
/// order of the registry, each in the environment `env`.
pub fn execute_all<E: Fn(&str, &HashMap<String, String>) -> Outcome>(
    tests: &IndexMap<String, Test>,
    env: &HashMap<String, String>,
    execute: &E,
) -> (outcomes: Vec<Outcome>)
    requires
        forall|script: &str, env: &HashMap<String, String>|
            call_requires(*execute, (script, env)),
    ensures
        executed_all(*execute, registry_entries(*tests), env, outcomes@),
{
    let n = registry_len(tests);
    let mut outcomes: Vec<Outcome> = Vec::new();
    let mut i: usize = 0;
    while i < n
        invariant
            n == registry_entries(*tests).len(),
            i <= n,
            outcomes@.len() == i,
            forall|script: &str, env: &HashMap<String, String>|
                call_requires(*execute, (script, env)),
            forall|k: int|
                0 <= k < i ==> executed(
                    *execute,
                    registry_entries(*tests)[k].1.script,
                    env,
                    #[trigger] outcomes@[k],
                ),
        decreases n - i,
    {
        let (_name, test) = registry_entry(tests, i);
        let script = test.script.as_str();
        let outcome = execute(script, env);
        assert(executed(*execute, registry_entries(*tests)[i as int].1.script, env, outcome));
        outcomes.push(outcome);
        i += 1;
    }
    outcomes
}

impl Workspace {
    /// Records a run of this workspace, where `outcomes[i]` is what executing
    /// the script of the test at position `i` of the registry yielded. The
    /// results of an earlier run are replaced.
    pub fn settle(&mut self, outcomes: &[Outcome])
        requires
            outcomes@.len() == old(self)@.tests.len(),
        ensures
            final(self).tests == old(self).tests,
            final(self).env == old(self).env,
            final(self)@.records(outcome_views(outcomes@)),
            final(self)@.parted(),
    {
        let (passing, failing) = partition(&self.tests, outcomes);
        proof {
            lemma_parts_cover(registry_entries(self.tests), outcome_views(outcomes@));
        }
        self.success_tests = passing;
        self.fail_tests = failing;
    }

    /// Runs this workspace: executes the script of every test, one after
    /// another in the order of the registry and each in the environment of
    /// the workspace, and records the results. Those of an earlier run are
    /// replaced. Whatever the scripts yield, the results part the registry.
    pub fn run<E: Fn(&str, &HashMap<String, String>) -> Outcome>(&mut self, execute: E)
        requires
            forall|script: &str, env: &HashMap<String, String>|
                call_requires(execute, (script, env)),
        ensures
            final(self).tests == old(self).tests,
            final(self).env == old(self).env,
            exists|outcomes: Seq<Outcome>|
                final(self)@.records(outcome_views(outcomes)) && #[trigger] executed_all(
                    execute,
                    old(self)@.tests,
                    &old(self).env,
                    outcomes,
                ),
            final(self)@.parted(),
    {
        let outcomes = execute_all(&self.tests, &self.env, &execute);
        self.settle(outcomes.as_slice());
    }
}

/// Every result of a run carries the verdict of its comparison: it passed
/// exactly when the output is the expected one. The part of those that passed
/// holds only such, and the part of those that failed holds none.
pub proof fn lemma_verdicts(tests: Seq<(Seq<char>, TestView)>, outcomes: Seq<OutcomeView>)
    requires
        outcomes.len() == tests.len(),
    ensures
        forall|i: int|
            0 <= i < tests.len() ==> (#[trigger] settled(tests, outcomes)[i]).1.pass == (
            outcomes[i].output == tests[i].1.tobe),
        forall|k: int|
            0 <= k < passed(settled(tests, outcomes)).len() ==> holds_verdict(
                #[trigger] passed(settled(tests, outcomes))[k],
                true,
            ),
        forall|k: int|
            0 <= k < failed(settled(tests, outcomes)).len() ==> holds_verdict(
                #[trigger] failed(settled(tests, outcomes))[k],
                false,
            ),
{
    let results = settled(tests, outcomes);
    let pass = |r: (Seq<char>, TestResultView)| r.1.pass;
    let fail = |r: (Seq<char>, TestResultView)| !r.1.pass;
    assert forall|k: int| 0 <= k < passed(results).len() implies holds_verdict(
        #[trigger] passed(results)[k],
        true,
    ) by {
        results.lemma_filter_pred(pass, k);
        assert(results.filter(pass).contains(passed(results)[k]));
        results.lemma_filter_contains_rev(pass, passed(results)[k]);
    }
    assert forall|k: int| 0 <= k < failed(results).len() implies holds_verdict(
        #[trigger] failed(results)[k],
        false,
    ) by {
        results.lemma_filter_pred(fail, k);
        assert(results.filter(fail).contains(failed(results)[k]));
        results.lemma_filter_contains_rev(fail, failed(results)[k]);
    }
}

/// After a run, every test of the registry has its result in one of the two
/// parts and in one only: a name is in the registry exactly when it is among
/// those that passed or among those that failed, and never among both.
pub proof fn lemma_parts_cover(tests: Seq<(Seq<char>, TestView)>, outcomes: Seq<OutcomeView>)
    requires
        outcomes.len() == tests.len(),
        distinct_names(tests),
    ensures
        forall|name: Seq<char>|
            has_name(tests, name) <==> has_name(passed(settled(tests, outcomes)), name)
                || has_name(failed(settled(tests, outcomes)), name),
        forall|name: Seq<char>|
            !(has_name(passed(settled(tests, outcomes)), name) && has_name(
                failed(settled(tests, outcomes)),
                name,
            )),
        distinct_names(passed(settled(tests, outcomes))),
        distinct_names(failed(settled(tests, outcomes))),
{
    let results = settled(tests, outcomes);
    let pass = |r: (Seq<char>, TestResultView)| r.1.pass;
    let fail = |r: (Seq<char>, TestResultView)| !r.1.pass;
    let yes = passed(results);
    let no = failed(results);
    lemma_verdicts(tests, outcomes);
    assert forall|name: Seq<char>| has_name(tests, name) implies has_name(yes, name) || has_name(
        no,
        name,
    ) by {
        let i = choose|i: int| 0 <= i < tests.len() && (#[trigger] tests[i]).0 == name;
        if results[i].1.pass {
            results.lemma_filter_contains(pass, i);
            let k = choose|k: int| 0 <= k < yes.len() && yes[k] == results[i];
            assert(yes[k].0 == name);
        } else {
            results.lemma_filter_contains(fail, i);
            let k = choose|k: int| 0 <= k < no.len() && no[k] == results[i];
            assert(no[k].0 == name);
        }
    }
    assert forall|name: Seq<char>| has_name(yes, name) implies has_name(tests, name) by {
        lemma_part_has_name(results, pass, name);
        let i = choose|i: int| 0 <= i < results.len() && (#[trigger] results[i]).0 == name;
        assert(tests[i].0 == name);
    }
    assert forall|name: Seq<char>| has_name(no, name) implies has_name(tests, name) by {
        lemma_part_has_name(results, fail, name);
        let i = choose|i: int| 0 <= i < results.len() && (#[trigger] results[i]).0 == name;
        assert(tests[i].0 == name);
    }
    assert forall|name: Seq<char>| !(has_name(yes, name) && has_name(no, name)) by {
        if has_name(yes, name) && has_name(no, name) {
            let a = choose|a: int| 0 <= a < yes.len() && (#[trigger] yes[a]).0 == name;
            let b = choose|b: int| 0 <= b < no.len() && (#[trigger] no[b]).0 == name;
            assert(yes.contains(yes[a]));
            assert(no.contains(no[b]));
            results.lemma_filter_contains_rev(pass, yes[a]);
            results.lemma_filter_contains_rev(fail, no[b]);
            let i = choose|i: int| 0 <= i < results.len() && results[i] == yes[a];
            let j = choose|j: int| 0 <= j < results.len() && results[j] == no[b];
            assert(tests[i].0 == name && tests[j].0 == name);
        }
    }
    assert(distinct_names(results)) by {
        assert forall|i: int, j: int|
            0 <= i < results.len() && 0 <= j < results.len() && i != j implies (
        #[trigger] results[i]).0 != (#[trigger] results[j]).0 by {
            assert(tests[i].0 != tests[j].0);
        }
    }
    lemma_part_distinct(results, pass);
    lemma_part_distinct(results, fail);
}

/// The parts of a run follow the registry: of two tests that passed, and of
/// two that failed, the one that comes first in its part stands first in the
/// registry.
pub proof fn lemma_parts_in_order(tests: Seq<(Seq<char>, TestView)>, outcomes: Seq<OutcomeView>)
    requires
        outcomes.len() == tests.len(),
    ensures
        forall|p: int, q: int|
            0 <= p < q < passed(settled(tests, outcomes)).len() ==> stands_before(
                tests,
                (#[trigger] passed(settled(tests, outcomes))[p]).0,
                (#[trigger] passed(settled(tests, outcomes))[q]).0,
            ),
        forall|p: int, q: int|
            0 <= p < q < failed(settled(tests, outcomes)).len() ==> stands_before(
                tests,
                (#[trigger] failed(settled(tests, outcomes))[p]).0,
                (#[trigger] failed(settled(tests, outcomes))[q]).0,
            ),
{
    let results = settled(tests, outcomes);
    let pass = |r: (Seq<char>, TestResultView)| r.1.pass;
    let fail = |r: (Seq<char>, TestResultView)| !r.1.pass;
    assert forall|p: int, q: int| 0 <= p < q < passed(results).len() implies stands_before(
        tests,
        (#[trigger] passed(results)[p]).0,
        (#[trigger] passed(results)[q]).0,
    ) by {
        lemma_filter_in_order(results, pass, p, q);
        let (i, j) = choose|i: int, j: int|
            0 <= i < j < results.len() && #[trigger] results[i] == results.filter(pass)[p]
                && #[trigger] results[j] == results.filter(pass)[q];
        assert(tests[i].0 == passed(results)[p].0 && tests[j].0 == passed(results)[q].0);
    }
    assert forall|p: int, q: int| 0 <= p < q < failed(results).len() implies stands_before(
        tests,
        (#[trigger] failed(results)[p]).0,
        (#[trigger] failed(results)[q]).0,
    ) by {
        lemma_filter_in_order(results, fail, p, q);
        let (i, j) = choose|i: int, j: int|
            0 <= i < j < results.len() && #[trigger] results[i] == results.filter(fail)[p]
                && #[trigger] results[j] == results.filter(fail)[q];
        assert(tests[i].0 == failed(results)[p].0 && tests[j].0 == failed(results)[q].0);
    }
}

/// A name that none of the results carries is carried by none of a filtered
/// part of them.
proof fn lemma_part_lacks_name(
    results: Seq<(Seq<char>, TestResultView)>,
    keep: spec_fn((Seq<char>, TestResultView)) -> bool,
    name: Seq<char>,
)
    requires
        !has_name(results, name),
    ensures
        !has_name(results.filter(keep), name),
{
    let part = results.filter(keep);
    if has_name(part, name) {
        let i = choose|i: int| 0 <= i < part.len() && (#[trigger] part[i]).0 == name;
        assert(part.contains(part[i]));
        results.lemma_filter_contains_rev(keep, part[i]);
        let j = choose|j: int| 0 <= j < results.len() && results[j] == part[i];
        assert(results[j].0 == name);
    }
}

/// A name that a filtered part of the results carries is carried by one of the
/// results.
proof fn lemma_part_has_name(
    results: Seq<(Seq<char>, TestResultView)>,
    keep: spec_fn((Seq<char>, TestResultView)) -> bool,
    name: Seq<char>,
)
    requires
        has_name(results.filter(keep), name),
    ensures
        has_name(results, name),
{
    if !has_name(results, name) {
        lemma_part_lacks_name(results, keep, name);
    }
}

/// A filtered part of results with distinct names has distinct names.
proof fn lemma_part_distinct(
    results: Seq<(Seq<char>, TestResultView)>,
    keep: spec_fn((Seq<char>, TestResultView)) -> bool,
)
    requires
        distinct_names(results),
    ensures
        distinct_names(results.filter(keep)),
{
    let part = results.filter(keep);
    assert forall|p: int, q: int|
        0 <= p < part.len() && 0 <= q < part.len() && p != q implies (#[trigger] part[p]).0 != (
    #[trigger] part[q]).0 by {
        let (a, b) = if p < q {
            (p, q)
        } else {
            (q, p)
        };
        lemma_filter_in_order(results, keep, a, b);
        let (i, j) = choose|i: int, j: int|
            0 <= i < j < results.len() && #[trigger] results[i] == part[a]
                && #[trigger] results[j] == part[b];
        assert(results[i].0 != results[j].0);
    }
}

/// A filtered part of a sequence holds its items in the order of the
/// sequence: of two items of the part, the earlier one stands earlier in the
/// sequence too.
proof fn lemma_filter_in_order<A>(s: Seq<A>, keep: spec_fn(A) -> bool, p: int, q: int)
    requires
        0 <= p < q < s.filter(keep).len(),
    ensures
        exists|i: int, j: int|
            0 <= i < j < s.len() && #[trigger] s[i] == s.filter(keep)[p] && #[trigger] s[j]
                == s.filter(keep)[q],
    decreases s.len(),
{
    reveal(Seq::filter);
    let part = s.filter(keep);
    let front = s.drop_last();
    if keep(s.last()) && q == part.len() - 1 {
        assert(front.filter(keep).contains(part[p])) by {
            assert(front.filter(keep)[p] == part[p]);
        }
        front.lemma_filter_contains_rev(keep, part[p]);
        let i = choose|i: int| 0 <= i < front.len() && front[i] == part[p];
        let j = s.len() - 1;
        assert(s[i] == part[p] && s[j] == part[q]);
    } else {
        assert(front.filter(keep)[p] == part[p]);
        assert(front.filter(keep)[q] == part[q]);
        lemma_filter_in_order(front, keep, p, q);
        let (i, j) = choose|i: int, j: int|
            0 <= i < j < front.len() && #[trigger] front[i] == front.filter(keep)[p]
                && #[trigger] front[j] == front.filter(keep)[q];
        assert(s[i] == part[p] && s[j] == part[q]);
    }
}

} // verus!
