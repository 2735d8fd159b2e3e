use envvar::envvar::{Environment, EnvironmentVariable};
use envvar::error::EnvError;
use envvar::reconcile::{apply_plan, classify, classify_all, import_snapshot, plan_import, Disposition};
use envvar::snapshot::{Config, ValueDetail};

fn pairs(xs: &[(&str, &str)]) -> Vec<(String, String)> {
    xs.iter().map(|(k, v)| (k.to_string(), v.to_string())).collect()
}

fn s(x: &str) -> String {
    x.to_string()
}

fn entry(key: &str, value: &str, overwrite: bool, delimiter: &str, insert: i32) -> ValueDetail {
    ValueDetail {
        key: s(key),
        value: s(value),
        overwrite,
        delimiter: s(delimiter),
        insert,
    }
}

#[test]
fn classification_follows_the_fixed_order() {
    let current = pairs(&[("X", "1")]);
    assert_eq!(classify(&entry("X", "2", false, "", -1), &current), Disposition::Ignore);
    assert_eq!(classify(&entry("X", "2", true, "", -1), &current), Disposition::Overwrite);
    assert_eq!(classify(&entry("X", "2", true, ":", -1), &current), Disposition::Overwrite);
    assert_eq!(classify(&entry("X", "2", false, ":", -1), &current), Disposition::ListMutate);
    assert_eq!(classify(&entry("Y", "2", false, "", -1), &current), Disposition::New);
    assert_eq!(classify(&entry("Y", "2", true, ":", 0), &current), Disposition::New);
}

#[test]
fn plan_groups_in_snapshot_order() {
    let current = pairs(&[("A", "1"), ("B", "2"), ("C", "3")]);
    let entries = vec![
        entry("N1", "x", false, "", -1),
        entry("A", "x", true, "", -1),
        entry("B", "x", false, ";", 2),
        entry("C", "x", false, "", -1),
        entry("N2", "x", false, "", -1),
        entry("B", "y", true, "", -1),
    ];
    let p = classify_all(&entries, &current);
    assert_eq!(p.new_values, vec![0, 4]);
    assert_eq!(p.overwrite_values, vec![1, 5]);
    assert_eq!(p.insert_values, vec![2]);
    assert_eq!(p.ignore_values, vec![3]);
}

#[test]
fn appending_to_the_search_path() {
    let mut env = Environment::new(&pairs(&[("PATH", "/usr/bin:/bin")]));
    let config = Config {
        version: 1,
        data: vec![entry("PATH", "/opt/bin", false, ":", -1)],
    };
    let plan = import_snapshot(&mut env, &config, false).unwrap();
    assert_eq!(plan.insert_values, vec![0]);
    assert_eq!(env.get(&s("PATH")), Ok(s("/usr/bin:/bin:/opt/bin")));
}

#[test]
fn dry_run_changes_nothing() {
    let mut env = Environment::new(&pairs(&[("PATH", "/usr/bin:/bin"), ("X", "1")]));
    let before = env.list().unwrap();
    let config = Config {
        version: 1,
        data: vec![
            entry("PATH", "/opt/bin", false, ":", -1),
            entry("X", "2", true, "", -1),
            entry("Y", "3", false, "", -1),
        ],
    };
    let plan = import_snapshot(&mut env, &config, true).unwrap();
    assert_eq!(plan.new_values, vec![2]);
    assert_eq!(plan.overwrite_values, vec![1]);
    assert_eq!(plan.insert_values, vec![0]);
    assert_eq!(env.list().unwrap(), before);
}

#[test]
fn apply_sets_then_adds_to_lists() {
    let mut env = Environment::new(&pairs(&[("L", "a;b"), ("X", "1"), ("K", "keep")]));
    let config = Config {
        version: 1,
        data: vec![
            entry("L", "z", false, ";", 0),
            entry("L", "w", false, ";", 7),
            entry("X", "2", true, "", -1),
            entry("N", "new", false, "", -1),
            entry("K", "other", false, "", -1),
        ],
    };
    import_snapshot(&mut env, &config, false).unwrap();
    assert_eq!(env.get(&s("L")), Ok(s("z;a;b;w")));
    assert_eq!(env.get(&s("X")), Ok(s("2")));
    assert_eq!(env.get(&s("N")), Ok(s("new")));
    assert_eq!(env.get(&s("K")), Ok(s("keep")));
}

#[test]
fn two_phase_import_matches_single_call() {
    let mut env = Environment::new(&pairs(&[("L", "a")]));
    let config = Config {
        version: 1,
        data: vec![entry("L", "b", false, ":", -1), entry("M", "m", false, "", -1)],
    };
    let plan = plan_import(&env, &config).unwrap();
    assert_eq!(apply_plan(&mut env, &config, &plan, true), Ok(()));
    assert_eq!(env.get(&s("L")), Ok(s("a")));
    assert_eq!(apply_plan(&mut env, &config, &plan, false), Ok(()));
    assert_eq!(env.get(&s("L")), Ok(s("a:b")));
    assert_eq!(env.get(&s("M")), Ok(s("m")));
}

#[test]
fn unsupported_version_is_rejected() {
    let mut env = Environment::new(&pairs(&[("X", "1")]));
    let config = Config {
        version: 2,
        data: vec![entry("X", "2", true, "", -1)],
    };
    assert!(matches!(import_snapshot(&mut env, &config, false), Err(EnvError::InvalidSnapshot)));
    assert!(matches!(plan_import(&env, &config), Err(EnvError::InvalidSnapshot)));
    assert_eq!(env.get(&s("X")), Ok(s("1")));
}

#[test]
fn reapplying_an_append_duplicates_the_token() {
    let mut env = Environment::new(&pairs(&[("L", "a")]));
    let config = Config {
        version: 1,
        data: vec![entry("L", "b", false, ":", -1)],
    };
    import_snapshot(&mut env, &config, false).unwrap();
    import_snapshot(&mut env, &config, false).unwrap();
    assert_eq!(env.get(&s("L")), Ok(s("a:b:b")));
}
