//! The data of a run: tests, what executing them yielded, their results, and
//! the configuration and workspace that hold them.
use crate::registry::{registry_entries, result_entries, results_new};
use indexmap::IndexMap;
use std::collections::HashMap;
use std::path::PathBuf;
use vstd::prelude::*;
use vstd::std_specs::convert::FromSpecImpl;

verus! {

/// `std::path::PathBuf`: a configuration carries paths, and nothing here
/// reads them.
#[verifier::external_type_specification]
#[verifier::external_body]
pub struct ExPathBuf(PathBuf);

/// A script to execute and the standard output it is expected to print.
#[derive(Debug, Clone)]
pub struct Test {
    pub script: String,
    pub tobe: String,
}

/// A test as plain values.
pub struct TestView {
    pub script: Seq<char>,
    pub tobe: Seq<char>,
}

impl View for Test {
    type V = TestView;

    open spec fn view(&self) -> TestView {
        TestView { script: self.script@, tobe: self.tobe@ }
    }
}

/// What executing a script yielded: its exit code and what it wrote to
/// standard output and to standard error.
#[derive(Debug, Clone)]
pub struct Outcome {
    pub code: i32,
    pub output: String,
    pub error: String,
}

/// An outcome as plain values.
pub struct OutcomeView {
    pub code: i32,
    pub output: Seq<char>,
    pub error: Seq<char>,
}

impl View for Outcome {
    type V = OutcomeView;

    open spec fn view(&self) -> OutcomeView {
        OutcomeView { code: self.code, output: self.output@, error: self.error@ }
    }
}

/// The outcome of one test beside the output that was expected of it, and the
/// verdict.
#[derive(Debug, Clone)]
pub struct TestResult {
    pub code: i32,
    pub output: String,
    pub error: String,
    pub tobe: String,
    pub pass: bool,
}

/// A result as plain values.
pub struct TestResultView {
    pub code: i32,
    pub output: Seq<char>,
    pub error: Seq<char>,
    pub tobe: Seq<char>,
    pub pass: bool,
}

impl TestResultView {
    /// The verdict is that of the comparison: a result passes exactly when the
    /// output is the expected one, character for character.
    pub open spec fn wf(self) -> bool {
        self.pass == (self.output == self.tobe)
    }
}

impl View for TestResult {
    type V = TestResultView;

    open spec fn view(&self) -> TestResultView {
        TestResultView {
            code: self.code,
            output: self.output@,
            error: self.error@,
            tobe: self.tobe@,
            pass: self.pass,
        }
    }
}

/// The result of a test whose script yielded `outcome`. Only the output
/// decides; the exit code and standard error are carried along.
pub open spec fn judged(test: TestView, outcome: OutcomeView) -> TestResultView {
    TestResultView {
        code: outcome.code,
        output: outcome.output,
        error: outcome.error,
        tobe: test.tobe,
        pass: outcome.output == test.tobe,
    }
}

impl TestResult {
    /// Judges `test` by what executing its script yielded.
    pub fn judge(test: &Test, outcome: &Outcome) -> (result: TestResult)
        ensures
            result@ == judged(test@, outcome@),
            result@.wf(),
    {
        TestResult {
            pass: test.tobe == outcome.output,
            code: outcome.code,
            output: outcome.output.clone(),
            error: outcome.error.clone(),
            tobe: test.tobe.clone(),
        }
    }
}

/// A configuration as it was read: the tests, the environment for their
/// scripts, and the paths of further configuration files.
#[derive(Debug, Clone)]
pub struct Manager {
    pub tests: IndexMap<String, Test>,
    pub env: Option<HashMap<String, String>>,
    pub includes: Option<Vec<PathBuf>>,
}

/// A registry of tests with the environment its scripts run in, and the
/// results of the last run, passed and failed apart.
#[derive(Debug, Clone)]
pub struct Workspace {
    pub tests: IndexMap<String, Test>,
    pub env: HashMap<String, String>,
    pub success_tests: IndexMap<String, TestResult>,
    pub fail_tests: IndexMap<String, TestResult>,
}

/// A workspace as plain values: the entries of its registry and of its two
/// result maps, each in map order, and its environment.
pub struct WorkspaceView {
    pub tests: Seq<(Seq<char>, TestView)>,
    pub env: Map<Seq<char>, Seq<char>>,
    pub passed: Seq<(Seq<char>, TestResultView)>,
    pub failed: Seq<(Seq<char>, TestResultView)>,
}

impl View for Workspace {
    type V = WorkspaceView;

    open spec fn view(&self) -> WorkspaceView {
        WorkspaceView {
            tests: registry_entries(self.tests),
            env: self.env.deep_view(),
            passed: result_entries(self.success_tests),
            failed: result_entries(self.fail_tests),
        }
    }
}

impl Manager {
    /// The environment that the scripts of this configuration run in: the
    /// configured one, or none at all.
    pub open spec fn env_view(self) -> Map<Seq<char>, Seq<char>> {
        match self.env {
            Some(env) => env.deep_view(),
            None => Map::empty(),
        }
    }

    /// Whether `env` is the environment that the scripts of this
    /// configuration run in: the configured one, or an empty one.
    pub open spec fn runs_in(self, env: HashMap<String, String>) -> bool {
        match self.env {
            Some(configured) => env == configured,
            None => env@ == Map::<String, String>::empty(),
        }
    }

    /// The workspace that this configuration becomes: its tests in their
    /// order, its environment, and no results yet.
    pub open spec fn fresh(self) -> WorkspaceView {
        WorkspaceView {
            tests: registry_entries(self.tests),
            env: self.env_view(),
            passed: Seq::empty(),
            failed: Seq::empty(),
        }
    }
}

/// A workspace is known by its view, and no value is singled out as the one
/// that a configuration becomes: what the conversion gives is stated on
/// `from` itself.
impl FromSpecImpl<Manager> for Workspace {
    open spec fn obeys_from_spec() -> bool {
        false
    }

    open spec fn from_spec(manager: Manager) -> Workspace {
        arbitrary()
    }
}

impl From<Manager> for Workspace {
    /// Takes over the tests and the environment of a configuration; a
    /// configuration without an environment gives an empty one. The workspace
    /// has no results yet.
    fn from(manager: Manager) -> (workspace: Workspace)
        ensures
            workspace@ == manager.fresh(),
            workspace.tests == manager.tests,
            manager.runs_in(workspace.env),
    {
        let env = match manager.env {
            Some(env) => env,
            None => {
                let env: HashMap<String, String> = HashMap::new();
                proof {
                    vstd::std_specs::hash::lemma_hashmap_deepview_dom(env);
                    assert(env.deep_view() =~= Map::<Seq<char>, Seq<char>>::empty());
                }
                env
            },
        };
        Workspace {
            tests: manager.tests,
            env,
            success_tests: results_new(),
            fail_tests: results_new(),
        }
    }
}

} // verus!
