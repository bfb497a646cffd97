use indexmap::IndexMap;
use std::collections::HashMap;
use tests_make::style::plain;
use tests_make::{Manager, Outcome, Test, Workspace};

fn text_of(entry: &toml::Table, key: &str) -> String {
    entry[key].as_str().unwrap().to_string()
}

fn configuration(text: &str) -> Manager {
    let table: toml::Table = toml::from_str(text).unwrap();
    let mut tests: IndexMap<String, Test> = IndexMap::new();
    for (name, entry) in table["tests"].as_table().unwrap() {
        let entry = entry.as_table().unwrap();
        let test = Test { script: text_of(entry, "script"), tobe: text_of(entry, "tobe") };
        tests.insert(name.clone(), test);
    }
    let env = table.get("env").map(|env| {
        let mut vars: HashMap<String, String> = HashMap::new();
        for (key, value) in env.as_table().unwrap() {
            vars.insert(key.clone(), value.as_str().unwrap().to_string());
        }
        vars
    });
    Manager { tests, env, includes: None }
}

fn execute(script: &str, env: &HashMap<String, String>) -> Outcome {
    let mut options = run_script::ScriptOptions::new();
    options.env_vars = Some(env.clone());
    let (code, output, error) = run_script::run(script, &vec![], &options).unwrap();
    Outcome { code, output, error }
}

fn run(manager: Manager) -> Workspace {
    let mut ws = Workspace::from(manager);
    ws.run(execute);
    ws
}

#[test]
fn hello_from_file_to_report() {
    let ws = run(configuration("[tests.hello]\nscript = \"echo hi\"\ntobe = \"hi\\n\"\n"));
    assert_eq!(ws.success_tests.len(), 1);
    assert_eq!(ws.fail_tests.len(), 0);
    let result = &ws.success_tests["hello"];
    assert!(result.pass);
    assert_eq!(result.output, "hi\n");
    assert_eq!(result.code, 0);
    assert_eq!(plain(&ws.report()), "hello ... ok\n\n");
}

#[test]
fn bad_from_file_to_report() {
    let ws = run(configuration("[tests.bad]\nscript = \"echo wrong\"\ntobe = \"right\\n\"\n"));
    assert_eq!(ws.success_tests.len(), 0);
    assert_eq!(ws.fail_tests.len(), 1);
    let result = &ws.fail_tests["bad"];
    assert!(!result.pass);
    assert_eq!(result.output, "wrong\n");
    assert_eq!(plain(&ws.report()), "\nbad ... (-actual|+expected):\n-\twrong\n+\tright\n\n");
}

#[test]
fn the_environment_reaches_the_script() {
    let ws = run(configuration(
        "[env]\nGREETING = \"salut\"\n[tests.greet]\nscript = \"echo $GREETING\"\ntobe = \"salut\\n\"\n",
    ));
    assert_eq!(ws.success_tests.len(), 1);
    assert_eq!(ws.success_tests["greet"].output, "salut\n");
}
