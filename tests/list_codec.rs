use envvar::list_codec::{decode, join_list, split_list};

fn strings(xs: &[&str]) -> Vec<String> {
    xs.iter().map(|s| s.to_string()).collect()
}

#[test]
fn trailing_delimiter_is_dropped_once() {
    assert_eq!(decode("a;b;c;", ";"), strings(&["a", "b", "c"]));
    assert_eq!(decode("a;b;;", ";"), strings(&["a", "b", ""]));
}

#[test]
fn split_keeps_empty_tokens() {
    assert_eq!(split_list("a::b", ":"), strings(&["a", "", "b"]));
    assert_eq!(split_list("", ":"), strings(&[""]));
    assert_eq!(split_list(":", ":"), strings(&["", ""]));
}

#[test]
fn split_on_multi_character_delimiter() {
    assert_eq!(split_list("x()y()z", "()"), strings(&["x", "y", "z"]));
    assert_eq!(split_list("aaa", "aa"), strings(&["", "a"]));
}

#[test]
fn empty_delimiter_gives_one_token() {
    assert_eq!(split_list("a;b", ""), strings(&["a;b"]));
    assert_eq!(decode("a;b;", ""), strings(&["a;b;"]));
}

#[test]
fn join_puts_delimiter_between_tokens() {
    assert_eq!(join_list(&strings(&["a", "b", "c"]), ";"), "a;b;c");
    assert_eq!(join_list(&strings(&["a"]), ";"), "a");
    assert_eq!(join_list(&Vec::new(), ";"), "");
    assert_eq!(join_list(&strings(&["/usr/bin", "/bin"]), "::"), "/usr/bin::/bin");
}

#[test]
fn join_then_decode_gives_the_list() {
    let xs = strings(&["/usr/bin", "/bin", "/opt/bin"]);
    let joined = join_list(&xs, ":");
    assert_eq!(decode(&joined, ":"), xs);
    let ys = strings(&["α", "β γ"]);
    assert_eq!(decode(&join_list(&ys, "→"), "→"), ys);
}
