use envvar::envvar::Environment;
use envvar::snapshot::{
    create_value, default_append, default_delimiter, default_overwrite, export_snapshot, snapshot_of,
};

fn pairs(xs: &[(&str, &str)]) -> Vec<(String, String)> {
    xs.iter().map(|(k, v)| (k.to_string(), v.to_string())).collect()
}

#[test]
fn defaults_of_an_entry() {
    assert!(!default_overwrite());
    assert_eq!(default_delimiter(), "");
    assert_eq!(default_append(), -1);
}

#[test]
fn search_path_is_captured_as_a_list() {
    let p = create_value("PATH".to_string(), "/usr/bin:/bin".to_string());
    assert_eq!(p.key, "PATH");
    assert_eq!(p.value, "/usr/bin:/bin");
    assert_eq!(p.delimiter, ":");
    assert!(!p.overwrite);
    assert_eq!(p.insert, -1);
    let h = create_value("HOME".to_string(), "/root".to_string());
    assert_eq!(h.delimiter, "");
    assert_eq!(h.insert, -1);
}

#[test]
fn snapshot_keeps_listing_order() {
    let c = snapshot_of(&pairs(&[("B", "2"), ("PATH", "/bin"), ("A", "1")]));
    assert_eq!(c.version, 1);
    let keys: Vec<&str> = c.data.iter().map(|e| e.key.as_str()).collect();
    assert_eq!(keys, vec!["B", "PATH", "A"]);
    assert_eq!(c.data[1].delimiter, ":");
    assert_eq!(c.data[2].value, "1");
}

#[test]
fn export_captures_every_variable() {
    let env = Environment::new(&pairs(&[("A", "1"), ("PWD", "/"), ("PATH", "/bin")]));
    let c = export_snapshot(&env).unwrap();
    assert_eq!(c.version, 1);
    assert_eq!(c.data.len(), 2);
    assert_eq!(c.data[0].key, "A");
    assert_eq!(c.data[1].key, "PATH");
    assert_eq!(c.data[1].delimiter, ":");
}
