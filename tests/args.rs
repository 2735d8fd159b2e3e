use envvar::args::{decimal_text, parse};
use envvar::utils::{get_name, get_version};

fn args(xs: &[&str]) -> Vec<String> {
    xs.iter().map(|s| s.to_string()).collect()
}

#[test]
fn no_arguments() {
    let a = args(&["envvar"]);
    let s = parse(&a).unwrap();
    assert!(s.no_args);
    assert!(!s.help);
    assert_eq!(s.verbose, 0);
    assert_eq!(s.shell_rc.shell, Some("bash"));
    assert_eq!(s.shell_rc.output_rc, None);
    assert_eq!(s.export, None);
    assert_eq!(s.import, None);
    assert!(s.set_variable.is_none());
    assert!(!s.system);
}

#[test]
fn flags_and_values() {
    let a = args(&["envvar", "--dry-run", "--no-color", "--import=env.json", "plain", "--version"]);
    let s = parse(&a).unwrap();
    assert!(!s.no_args);
    assert!(s.dry_run);
    assert!(s.no_color);
    assert!(s.version);
    assert!(!s.help);
    assert_eq!(s.import, Some("env.json"));
}

#[test]
fn value_stops_at_second_equals_sign() {
    let a = args(&["envvar", "--export=a=b"]);
    assert_eq!(parse(&a).unwrap().export, Some("a"));
}

#[test]
fn missing_or_blank_value_is_rejected() {
    let a = args(&["envvar", "--export"]);
    assert_eq!(parse(&a).err(), Some("invalid argument: --export".to_string()));
    let b = args(&["envvar", "--import=  \t"]);
    assert_eq!(parse(&b).err(), Some("invalid argument: --import=  \t".to_string()));
    let c = args(&["envvar", "--rc=", "--help"]);
    assert_eq!(parse(&c).err(), Some("invalid argument: --rc=".to_string()));
}

#[test]
fn shell_sets_default_rc_path() {
    let a = args(&["envvar", "--shell=zsh"]);
    let s = parse(&a).unwrap();
    assert_eq!(s.shell_rc.shell, Some("zsh"));
    assert_eq!(s.shell_rc.output_rc, Some(".envvar_zshrc".to_string()));
    let b = args(&["envvar", "--rc=out", "--shell=fish"]);
    let t = parse(&b).unwrap();
    assert_eq!(t.shell_rc.shell, Some("fish"));
    assert_eq!(t.shell_rc.output_rc, Some("out".to_string()));
}

#[test]
fn verbose_levels() {
    assert_eq!(parse(&args(&["envvar", "--verbose"])).unwrap().verbose, 1);
    assert_eq!(parse(&args(&["envvar", "--verbose=3"])).unwrap().verbose, 3);
    assert_eq!(parse(&args(&["envvar", "--verbose=+42"])).unwrap().verbose, 42);
    assert_eq!(parse(&args(&["envvar", "--verbose=4294967295"])).unwrap().verbose, 4294967295);
    assert!(parse(&args(&["envvar", "--verbose=4294967296"])).is_err());
    assert!(parse(&args(&["envvar", "--verbose=x"])).is_err());
    assert!(parse(&args(&["envvar", "--verbose=+"])).is_err());
    assert!(parse(&args(&["envvar", "--verbose=-1"])).is_err());
}

#[test]
fn unknown_option_asks_for_help() {
    let a = args(&["envvar", "--frobnicate"]);
    let s = parse(&a).unwrap();
    assert!(s.help);
}

#[test]
fn decimal_text_of_numbers() {
    assert_eq!(decimal_text(0), "0");
    assert_eq!(decimal_text(7), "7");
    assert_eq!(decimal_text(10), "10");
    assert_eq!(decimal_text(90210), "90210");
}

#[test]
fn package_name_and_version() {
    assert_eq!(get_name(), "envvar");
    assert_eq!(get_version(), "0.1.0");
}
