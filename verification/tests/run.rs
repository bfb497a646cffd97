use indexmap::IndexMap;
use std::collections::HashMap;
use std::cell::RefCell;
use tests_make::runner::{execute_all, partition};
use tests_make::style::plain;
use tests_make::{Manager, Outcome, Test, TestResult, Workspace};

fn test(script: &str, tobe: &str) -> Test {
    Test { script: script.to_string(), tobe: tobe.to_string() }
}

fn printed(output: &str) -> Outcome {
    Outcome { code: 0, output: output.to_string(), error: String::new() }
}

/// Stands for a shell: `echo TEXT` prints TEXT and a line feed, `printenv KEY`
/// prints the value of KEY, `fail TEXT` prints TEXT to standard error and
/// ends with code 2; anything else prints nothing.
fn shell(script: &str, env: &HashMap<String, String>) -> Outcome {
    if let Some(text) = script.strip_prefix("echo ") {
        printed(&format!("{}\n", text))
    } else if let Some(key) = script.strip_prefix("printenv ") {
        printed(&format!("{}\n", env.get(key).cloned().unwrap_or_default()))
    } else if let Some(text) = script.strip_prefix("fail ") {
        Outcome { code: 2, output: String::new(), error: text.to_string() }
    } else {
        printed("")
    }
}

fn registry(entries: &[(&str, &str, &str)]) -> IndexMap<String, Test> {
    let mut tests: IndexMap<String, Test> = IndexMap::new();
    for (name, script, tobe) in entries {
        tests.insert(name.to_string(), test(script, tobe));
    }
    tests
}

fn workspace(entries: &[(&str, &str, &str)]) -> Workspace {
    Workspace::from(Manager { tests: registry(entries), env: None, includes: None })
}

fn names(results: &IndexMap<String, TestResult>) -> Vec<String> {
    results.keys().cloned().collect()
}

#[test]
fn hello_passes() {
    let mut ws = workspace(&[("hello", "echo hi", "hi\n")]);
    ws.run(shell);
    assert_eq!(names(&ws.success_tests), vec!["hello".to_string()]);
    assert!(ws.fail_tests.is_empty());
    let result = &ws.success_tests["hello"];
    assert_eq!(result.output, "hi\n");
    assert_eq!(result.tobe, "hi\n");
    assert!(result.pass);
}

#[test]
fn bad_fails_with_diff() {
    let manager = Manager {
        tests: registry(&[("bad", "echo wrong", "right\n")]),
        env: None,
        includes: None,
    };
    let mut ws = Workspace::from(manager.clone());
    ws.run(shell);
    assert!(ws.success_tests.is_empty());
    assert_eq!(names(&ws.fail_tests), vec!["bad".to_string()]);
    assert!(!ws.fail_tests["bad"].pass);
    assert_eq!(ws.fail_tests["bad"].output, "wrong\n");
    let report = manager.run(shell);
    assert_eq!(plain(&report), "\nbad ... (-actual|+expected):\n-\twrong\n+\tright\n\n");
    assert_eq!(plain(&ws.report()), plain(&report));
}

#[test]
fn trailing_newline_mismatch_fails() {
    let outcome = printed("hi");
    let result = TestResult::judge(&test("echo -n hi", "hi\n"), &outcome);
    assert!(!result.pass);
    let result = TestResult::judge(&test("echo hi", "hi"), &printed("hi\n"));
    assert!(!result.pass);
    let result = TestResult::judge(&test("echo hi", "hi \n"), &printed("hi\n"));
    assert!(!result.pass);
}

#[test]
fn exact_match_passes() {
    let result = TestResult::judge(&test("echo hi", "hi\n"), &printed("hi\n"));
    assert!(result.pass);
    let result = TestResult::judge(&test("true", ""), &printed(""));
    assert!(result.pass);
}

#[test]
fn judge_carries_the_outcome() {
    let outcome = Outcome { code: 3, output: "out".to_string(), error: "err".to_string() };
    let result = TestResult::judge(&test("x", "expected"), &outcome);
    assert_eq!(result.code, 3);
    assert_eq!(result.output, "out");
    assert_eq!(result.error, "err");
    assert_eq!(result.tobe, "expected");
    assert!(!result.pass);
}

#[test]
fn exit_code_and_stderr_do_not_decide() {
    let failed_but_right = Outcome { code: 1, output: "ok\n".to_string(), error: "boom".to_string() };
    let fine_but_wrong = Outcome { code: 0, output: "no\n".to_string(), error: String::new() };
    let mut ws = workspace(&[("a", "sa", "ok\n"), ("b", "sb", "ok\n")]);
    ws.settle(&[failed_but_right, fine_but_wrong]);
    assert_eq!(names(&ws.success_tests), vec!["a".to_string()]);
    assert_eq!(names(&ws.fail_tests), vec!["b".to_string()]);
    assert_eq!(ws.success_tests["a"].code, 1);
    assert_eq!(ws.success_tests["a"].error, "boom");
}

#[test]
fn parts_cover_the_registry_without_overlap() {
    let mut ws = workspace(&[
        ("one", "s1", "1"),
        ("two", "s2", "2"),
        ("three", "s3", "3"),
        ("four", "s4", "4"),
    ]);
    ws.settle(&[printed("1"), printed("x"), printed("3"), printed("y")]);
    assert_eq!(names(&ws.success_tests), vec!["one".to_string(), "three".to_string()]);
    assert_eq!(names(&ws.fail_tests), vec!["two".to_string(), "four".to_string()]);
    for name in ws.tests.keys() {
        assert!(ws.success_tests.contains_key(name) != ws.fail_tests.contains_key(name));
    }
    assert_eq!(ws.success_tests.len() + ws.fail_tests.len(), ws.tests.len());
}

#[test]
fn report_keeps_the_declared_order() {
    let entries = [
        ("zeta", "echo z", "z\n"),
        ("alpha", "echo a", "a\n"),
        ("mid", "echo m", "m\n"),
        ("beta", "echo b", "b\n"),
    ];
    let manager = Manager { tests: registry(&entries), env: None, includes: None };
    let all_pass = manager.run(shell);
    assert_eq!(plain(&all_pass), "zeta ... ok\nalpha ... ok\nmid ... ok\nbeta ... ok\n\n");
    let entries = [
        ("zeta", "echo z", "z\n"),
        ("alpha", "echo ?", "a\n"),
        ("mid", "echo m", "m\n"),
        ("beta", "echo !", "b\n"),
    ];
    let manager = Manager { tests: registry(&entries), env: None, includes: None };
    let mixed = manager.run(shell);
    assert_eq!(
        plain(&mixed),
        "zeta ... ok\nmid ... ok\n\n\
         alpha ... (-actual|+expected):\n-\t?\n+\ta\n\n\
         beta ... (-actual|+expected):\n-\t!\n+\tb\n\n"
    );
}

#[test]
fn a_second_run_replaces_the_first() {
    let mut ws = workspace(&[("a", "sa", "1"), ("b", "sb", "2")]);
    ws.settle(&[printed("1"), printed("2")]);
    assert_eq!(ws.success_tests.len(), 2);
    assert_eq!(ws.fail_tests.len(), 0);
    ws.settle(&[printed("1"), printed("0")]);
    assert_eq!(names(&ws.success_tests), vec!["a".to_string()]);
    assert_eq!(names(&ws.fail_tests), vec!["b".to_string()]);
    ws.settle(&[printed("1"), printed("0")]);
    assert_eq!(names(&ws.success_tests), vec!["a".to_string()]);
    assert_eq!(names(&ws.fail_tests), vec!["b".to_string()]);
    assert_eq!(ws.tests.len(), 2);
}

#[test]
fn an_empty_registry_runs_to_nothing() {
    let mut ws = workspace(&[]);
    ws.run(shell);
    assert!(ws.success_tests.is_empty());
    assert!(ws.fail_tests.is_empty());
    assert_eq!(plain(&ws.report()), "\n");
}

#[test]
fn partition_parts_in_registry_order() {
    let tests = registry(&[("c", "s", "1"), ("a", "s", "2"), ("b", "s", "3")]);
    let (passing, failing) = partition(&tests, &[printed("0"), printed("2"), printed("0")]);
    assert_eq!(names(&passing), vec!["a".to_string()]);
    assert_eq!(names(&failing), vec!["c".to_string(), "b".to_string()]);
    assert_eq!(failing["c"].output, "0");
    assert_eq!(failing["c"].tobe, "1");
    assert_eq!(failing["b"].tobe, "3");
}

#[test]
fn scripts_are_executed_once_each_in_registry_order() {
    let tests = registry(&[("z", "echo z", ""), ("a", "echo a", ""), ("m", "echo m", "")]);
    let env: HashMap<String, String> = HashMap::new();
    let seen: RefCell<Vec<String>> = RefCell::new(Vec::new());
    let recording = |script: &str, env: &HashMap<String, String>| {
        seen.borrow_mut().push(script.to_string());
        shell(script, env)
    };
    let outcomes = execute_all(&tests, &env, &recording);
    assert_eq!(
        *seen.borrow(),
        vec!["echo z".to_string(), "echo a".to_string(), "echo m".to_string()]
    );
    let outputs: Vec<&str> = outcomes.iter().map(|o| o.output.as_str()).collect();
    assert_eq!(outputs, vec!["z\n", "a\n", "m\n"]);
    assert!(execute_all(&registry(&[]), &env, &recording).is_empty());
}

#[test]
fn scripts_run_in_the_environment_of_the_workspace() {
    let mut env: HashMap<String, String> = HashMap::new();
    env.insert("WHO".to_string(), "world".to_string());
    let manager = Manager {
        tests: registry(&[("who", "printenv WHO", "world\n"), ("none", "printenv NONE", "\n")]),
        env: Some(env),
        includes: None,
    };
    assert_eq!(plain(&manager.run(shell)), "who ... ok\nnone ... ok\n\n");
    let mut ws = Workspace::from(manager);
    ws.run(shell);
    assert_eq!(names(&ws.success_tests), vec!["who".to_string(), "none".to_string()]);
}

#[test]
fn run_records_what_the_scripts_yield() {
    let mut ws = workspace(&[("down", "fail broken pipe", ""), ("up", "echo up", "up\n")]);
    ws.run(shell);
    assert_eq!(names(&ws.success_tests), vec!["down".to_string(), "up".to_string()]);
    assert_eq!(ws.success_tests["down"].code, 2);
    assert_eq!(ws.success_tests["down"].error, "broken pipe");
    assert_eq!(ws.success_tests["down"].output, "");
    ws.run(|_script: &str, _env: &HashMap<String, String>| printed("up\n"));
    assert_eq!(names(&ws.success_tests), vec!["up".to_string()]);
    assert_eq!(names(&ws.fail_tests), vec!["down".to_string()]);
}

#[test]
fn workspace_takes_over_the_configuration() {
    let mut env: HashMap<String, String> = HashMap::new();
    env.insert("KEY".to_string(), "value".to_string());
    let manager = Manager {
        tests: registry(&[("b", "sb", "1"), ("a", "sa", "2")]),
        env: Some(env.clone()),
        includes: None,
    };
    let ws = Workspace::from(manager);
    assert_eq!(names_of_tests(&ws), vec!["b".to_string(), "a".to_string()]);
    assert_eq!(ws.tests["a"].script, "sa");
    assert_eq!(ws.env, env);
    assert!(ws.success_tests.is_empty());
    assert!(ws.fail_tests.is_empty());
}

#[test]
fn workspace_without_environment_has_an_empty_one() {
    let ws = workspace(&[("a", "sa", "1")]);
    assert!(ws.env.is_empty());
}

fn names_of_tests(ws: &Workspace) -> Vec<String> {
    ws.tests.keys().cloned().collect()
}
