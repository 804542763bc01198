use redo::options::{OptDict, OptValue, Options, ParseExit};

const SPEC: &str = "redo [targets...]
--
j,jobs=    maximum number of jobs to build at once
d,debug    print dependency checks as they happen
no-log     don't capture error output
no-color   disable ANSI color; --color to force enable (default: auto)
w,width=   the width [70]
name=      a name [abc]
";

fn args(v: &[&str]) -> Vec<String> {
    v.iter().map(|s| s.to_string()).collect()
}

#[test]
fn defaults_come_from_the_spec() {
    let o = Options::new(SPEC);
    let (opt, extra) = o.parse(&args(&[])).ok().unwrap();
    assert!(extra.is_empty());
    assert_eq!(opt.int_val("jobs"), 0);
    assert!(!opt.bool_val("debug"));
    assert!(opt.bool_val("log"));
    assert_eq!(opt.int_val("color"), 1);
    assert_eq!(opt.int_val("width"), 70);
    assert_eq!(opt.str_val("name"), "abc");
    assert!(matches!(opt.get("jobs"), OptValue::Unset));
}

#[test]
fn a_command_line_is_read_against_the_spec() {
    let o = Options::new(SPEC);
    let (opt, extra) = o.parse(&args(&["-j4", "-dd", "all", "--no-log", "--", "-x"])).ok().unwrap();
    assert_eq!(opt.int_val("jobs"), 4);
    assert_eq!(opt.int_val("debug"), 2);
    assert!(!opt.bool_val("log"));
    assert!(opt.bool_val("no_log"));
    assert_eq!(extra, vec!["all", "-x"]);
}

#[test]
fn long_options_with_values() {
    let o = Options::new(SPEC);
    let (opt, _) = o.parse(&args(&["--jobs=8", "--name", "xyz", "--color", "--width", "12"])).ok().unwrap();
    assert_eq!(opt.int_val("jobs"), 8);
    assert_eq!(opt.str_val("name"), "xyz");
    assert_eq!(opt.int_val("color"), 2);
    assert_eq!(opt.int_val("width"), 12);
    let (opt2, _) = o.parse(&args(&["-wfoo"])).ok().unwrap();
    assert_eq!(opt2.str_val("width"), "foo");
    assert_eq!(opt2.int_val("width"), 0);
}

#[test]
fn unknown_options_and_help_stop() {
    let o = Options::new(SPEC);
    assert!(matches!(o.parse(&args(&["--bogus"])), Err(ParseExit::UnknownLong(ref n)) if n == "bogus"));
    assert!(matches!(o.parse(&args(&["-z"])), Err(ParseExit::UnknownShort('z'))));
    assert!(matches!(o.parse(&args(&["-h"])), Err(ParseExit::Usage)));
    assert!(matches!(o.parse(&args(&["--usage"])), Err(ParseExit::Usage)));
}

#[test]
fn usage_lists_the_options() {
    let o = Options::new(SPEC);
    let u = o.usage();
    assert_eq!(u[0], "Options:");
    assert_eq!(u[1], "  -j, --jobs ...");
    assert_eq!(u[2], "  -d, --debug");
    assert_eq!(u[3], "      --log");
    assert_eq!(u.len(), 7);
}

#[test]
fn set_and_get_with_negation() {
    let mut d = OptDict::new();
    d.set("x", OptValue::Int(3));
    assert_eq!(d.int_val("x"), 3);
    assert!(!d.bool_val("no_x"));
    d.set("no_y", OptValue::Bool(true));
    assert!(!d.bool_val("y"));
    assert!(d.bool_val("no-y"));
    d.set("no-z", OptValue::Int(0));
    assert!(d.bool_val("z"));
    assert!(matches!(d.get("missing"), OptValue::Unset));
    assert!(!d.bool_val("no_missing"));
    assert_eq!(OptValue::Bool(true).as_str(), "true");
    assert_eq!(OptValue::Str("12".to_string()).as_i64(), 12);
    assert_eq!(OptValue::Str("x".to_string()).as_i64(), 0);
    assert!(!OptValue::Str(String::new()).as_bool());
    assert_eq!(OptValue::Unset.as_str(), "");
}
