use envvar::envvar::{Environment, EnvironmentVariable, PATH, PATH_DELIMITER};
use envvar::error::EnvError;

fn pairs(xs: &[(&str, &str)]) -> Vec<(String, String)> {
    xs.iter().map(|(k, v)| (k.to_string(), v.to_string())).collect()
}

fn s(x: &str) -> String {
    x.to_string()
}

fn store(xs: &[(&str, &str)]) -> Environment {
    Environment::new(&pairs(xs))
}

#[test]
fn new_leaves_out_shell_variables() {
    let env = store(&[("_", "/usr/bin/env"), ("HOME", "/root"), ("PWD", "/tmp"), ("SHLVL", "1")]);
    assert_eq!(env.list().unwrap(), pairs(&[("HOME", "/root")]));
}

#[test]
fn new_keeps_the_later_of_two_values() {
    let env = store(&[("A", "1"), ("B", "2"), ("A", "3")]);
    assert_eq!(env.list().unwrap(), pairs(&[("A", "3"), ("B", "2")]));
}

#[test]
fn get_set_delete() {
    let mut env = store(&[("A", "1")]);
    assert_eq!(env.get(&s("A")), Ok(s("1")));
    assert_eq!(env.get(&s("B")), Err(EnvError::NotFound));
    assert_eq!(env.set(&s("B"), &s("2")), Ok(()));
    assert_eq!(env.get(&s("B")), Ok(s("2")));
    assert_eq!(env.set(&s("A"), &s("9")), Ok(()));
    assert_eq!(env.get(&s("A")), Ok(s("9")));
    assert_eq!(env.delete(&s("A")), Ok(()));
    assert_eq!(env.get(&s("A")), Err(EnvError::NotFound));
    assert_eq!(env.delete(&s("A")), Err(EnvError::NotFound));
    assert_eq!(env.list().unwrap(), pairs(&[("B", "2")]));
}

#[test]
fn get_list_trims_one_trailing_delimiter() {
    let env = store(&[("L", "a;b;c;")]);
    assert_eq!(env.get_list(&s("L"), &s(";")), Ok(vec![s("a"), s("b"), s("c")]));
    assert_eq!(env.get_list(&s("M"), &s(";")), Err(EnvError::NotFound));
}

#[test]
fn set_list_joins() {
    let mut env = store(&[]);
    env.set_list(&s("L"), &vec![s("x"), s("y")], &s(",")).unwrap();
    assert_eq!(env.get(&s("L")), Ok(s("x,y")));
}

#[test]
fn append_list_adds_at_end() {
    let mut env = store(&[("L", "a:b")]);
    assert_eq!(env.append_list(&s("L"), &s("c"), &s(":")), Ok(()));
    assert_eq!(env.get(&s("L")), Ok(s("a:b:c")));
    assert_eq!(env.append_list(&s("M"), &s("c"), &s(":")), Err(EnvError::NotFound));
    assert_eq!(env.get(&s("M")), Err(EnvError::NotFound));
}

#[test]
fn insert_list_bounds() {
    let mut env = store(&[("L", "a:b")]);
    assert_eq!(env.insert_list(&s("L"), &s("x"), 3, &s(":")), Err(EnvError::IndexOutOfRange));
    assert_eq!(env.get(&s("L")), Ok(s("a:b")));
    assert_eq!(env.insert_list(&s("L"), &s("x"), 2, &s(":")), Ok(()));
    assert_eq!(env.get(&s("L")), Ok(s("a:b:x")));
    assert_eq!(env.insert_list(&s("L"), &s("y"), 1, &s(":")), Ok(()));
    assert_eq!(env.get(&s("L")), Ok(s("a:y:b:x")));
    assert_eq!(env.insert_list(&s("L"), &s("z"), 0, &s(":")), Ok(()));
    assert_eq!(env.get(&s("L")), Ok(s("z:a:y:b:x")));
}

#[test]
fn remove_list_bounds() {
    let mut env = store(&[("L", "a:b:c")]);
    assert_eq!(env.remove_list(&s("L"), 3, &s(":")), Err(EnvError::IndexOutOfRange));
    assert_eq!(env.remove_list(&s("L"), 1, &s(":")), Ok(()));
    assert_eq!(env.get(&s("L")), Ok(s("a:c")));
    assert_eq!(env.remove_list(&s("M"), 0, &s(":")), Err(EnvError::NotFound));
}

#[test]
fn remove_list_from_removes_every_match() {
    let mut env = store(&[("L", "a:b:a:c:a")]);
    assert_eq!(env.remove_list_from(&s("L"), &s("a"), &s(":")), Ok(()));
    assert_eq!(env.get(&s("L")), Ok(s("b:c")));
}

#[test]
fn remove_list_from_without_match_is_no_op() {
    let mut env = store(&[("L", "a:b:")]);
    assert_eq!(env.remove_list_from(&s("L"), &s("z"), &s(":")), Ok(()));
    assert_eq!(env.get(&s("L")), Ok(s("a:b:")));
    assert_eq!(env.remove_list_from(&s("M"), &s("z"), &s(":")), Err(EnvError::NotFound));
}

#[test]
fn path_helpers_use_the_search_path() {
    assert_eq!(PATH, "PATH");
    assert_eq!(PATH_DELIMITER, ":");
    let mut env = store(&[("PATH", "/usr/bin:/bin")]);
    assert_eq!(env.get_path(), Ok(vec![s("/usr/bin"), s("/bin")]));
    env.append_path("/opt/bin").unwrap();
    assert_eq!(env.get(&s("PATH")), Ok(s("/usr/bin:/bin:/opt/bin")));
    env.insert_path("/sbin", 0).unwrap();
    assert_eq!(env.get(&s("PATH")), Ok(s("/sbin:/usr/bin:/bin:/opt/bin")));
    assert_eq!(env.insert_path("/x", 9), Err(EnvError::IndexOutOfRange));
    env.remove_path(1).unwrap();
    assert_eq!(env.get(&s("PATH")), Ok(s("/sbin:/bin:/opt/bin")));
    env.remove_path_from("/bin").unwrap();
    assert_eq!(env.get(&s("PATH")), Ok(s("/sbin:/opt/bin")));
    env.set_path(&vec![s("/a"), s("/b")]).unwrap();
    assert_eq!(env.get(&s("PATH")), Ok(s("/a:/b")));
}

#[test]
fn rc_text_has_one_line_per_variable() {
    let mut env = store(&[("A", "1"), ("B", "x y")]);
    env.set(&s("C"), &s("3")).unwrap();
    assert_eq!(env.rc_text(), "A=1\nB=x y\nC=3\n");
}

#[test]
fn init_shell_keeps_the_first_choice() {
    let mut env = store(&[("A", "1")]);
    assert_eq!(env.shell(), None);
    env.init_shell(&s("zsh"));
    assert_eq!(env.shell(), Some("zsh"));
    env.init_shell(&s("bash"));
    assert_eq!(env.shell(), Some("zsh"));
    assert_eq!(env.get(&s("A")), Ok(s("1")));
}

#[test]
fn error_messages_are_distinct() {
    let all = [
        EnvError::StoreUnavailable,
        EnvError::NotFound,
        EnvError::IndexOutOfRange,
        EnvError::InvalidSnapshot,
        EnvError::IoFailure,
    ];
    for (i, a) in all.iter().enumerate() {
        for (j, b) in all.iter().enumerate() {
            assert_eq!(i == j, a.message() == b.message());
        }
    }
}
