use indexmap::IndexMap;
use std::collections::HashMap;
use std::path::PathBuf;
use tests_make::compose::{root_name, Included};
use tests_make::{Manager, Test, Workspace};

fn manager(entries: &[(&str, &str, &str)], env: Option<(&str, &str)>) -> Manager {
    let mut tests: IndexMap<String, Test> = IndexMap::new();
    for (name, script, tobe) in entries {
        tests.insert(name.to_string(), Test { script: script.to_string(), tobe: tobe.to_string() });
    }
    let env = env.map(|(key, value)| {
        let mut env: HashMap<String, String> = HashMap::new();
        env.insert(key.to_string(), value.to_string());
        env
    });
    Manager { tests, env, includes: None }
}

fn read(name: &str, config: Manager) -> Included {
    Included { name: name.to_string(), config: Some(config) }
}

fn unreadable(name: &str) -> Included {
    Included { name: name.to_string(), config: None }
}

fn names(workspaces: &IndexMap<String, Workspace>) -> Vec<String> {
    workspaces.keys().cloned().collect()
}

fn test_names(workspace: &Workspace) -> Vec<String> {
    workspace.tests.keys().cloned().collect()
}

#[test]
fn the_root_alone_gives_one_workspace() {
    let root = manager(&[("a", "sa", "1")], Some(("K", "v")));
    let workspaces = root.compose(Vec::new());
    assert_eq!(names(&workspaces), vec![root_name()]);
    assert_eq!(root_name(), "root");
    let ws = &workspaces["root"];
    assert_eq!(test_names(ws), vec!["a".to_string()]);
    assert_eq!(ws.env["K"], "v");
    assert!(ws.success_tests.is_empty());
    assert!(ws.fail_tests.is_empty());
}

#[test]
fn every_file_that_was_read_adds_a_workspace() {
    let mut root = manager(&[("a", "sa", "1")], None);
    root.includes = Some(vec![PathBuf::from("sub/unit.toml"), PathBuf::from("e2e.toml")]);
    let workspaces = root.compose(vec![
        read("unit", manager(&[("u1", "s", "1"), ("u2", "s", "2")], Some(("MODE", "unit")))),
        read("e2e", manager(&[("e", "s", "1")], None)),
    ]);
    assert_eq!(names(&workspaces), vec!["root".to_string(), "unit".to_string(), "e2e".to_string()]);
    assert_eq!(test_names(&workspaces["unit"]), vec!["u1".to_string(), "u2".to_string()]);
    assert_eq!(workspaces["unit"].env["MODE"], "unit");
    assert!(workspaces["e2e"].env.is_empty());
    assert_eq!(test_names(&workspaces["root"]), vec!["a".to_string()]);
}

#[test]
fn a_file_that_could_not_be_read_is_skipped() {
    let root = manager(&[("a", "sa", "1")], None);
    let workspaces = root.compose(vec![
        unreadable("missing"),
        read("there", manager(&[("t", "s", "1")], None)),
        unreadable("broken"),
    ]);
    assert_eq!(names(&workspaces), vec!["root".to_string(), "there".to_string()]);
}

#[test]
fn the_later_of_two_files_of_one_name_wins_in_place() {
    let root = manager(&[("a", "sa", "1")], None);
    let workspaces = root.compose(vec![
        read("dup", manager(&[("first", "s", "1")], None)),
        read("other", manager(&[("o", "s", "1")], None)),
        read("dup", manager(&[("second", "s", "1")], None)),
        unreadable("other"),
    ]);
    assert_eq!(names(&workspaces), vec!["root".to_string(), "dup".to_string(), "other".to_string()]);
    assert_eq!(test_names(&workspaces["dup"]), vec!["second".to_string()]);
    assert_eq!(test_names(&workspaces["other"]), vec!["o".to_string()]);
}

#[test]
fn a_file_of_the_root_name_replaces_the_root_workspace() {
    let root = manager(&[("a", "sa", "1")], None);
    let workspaces =
        root.compose(vec![read("root", manager(&[("usurper", "s", "1")], None))]);
    assert_eq!(names(&workspaces), vec!["root".to_string()]);
    assert_eq!(test_names(&workspaces["root"]), vec!["usurper".to_string()]);
}

#[test]
fn composing_twice_gives_the_same() {
    let build = || {
        let root = manager(&[("b", "sb", "1"), ("a", "sa", "2")], Some(("K", "v")));
        root.compose(vec![
            read("x", manager(&[("x1", "s", "1")], Some(("X", "1")))),
            unreadable("y"),
            read("z", manager(&[("z1", "s", "1"), ("z0", "t", "0")], None)),
        ])
    };
    let first = build();
    let second = build();
    assert_eq!(names(&first), names(&second));
    for (name, ws) in first.iter() {
        let again = &second[name];
        assert_eq!(test_names(ws), test_names(again));
        for (test_name, test) in ws.tests.iter() {
            assert_eq!(test.script, again.tests[test_name].script);
            assert_eq!(test.tobe, again.tests[test_name].tobe);
        }
        assert_eq!(ws.env, again.env);
    }
}
