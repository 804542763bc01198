use redo::env::{base_candidates, common_prefix, search_path, start_dirs, Env, Session};
use redo::logs::{
    check_tty, debug, debug2, debug3, err, log_setup, log_write, meta, pretty_write, warn, Colors,
    LogMode,
};

fn vars(v: &[(&str, &str)]) -> Vec<(String, String)> {
    v.iter().map(|(a, b)| (a.to_string(), b.to_string())).collect()
}

fn env_with(pairs: &[(&str, &str)]) -> Env {
    let mut v = vec![("REDO_BASE", "/b")];
    v.extend_from_slice(pairs);
    Env::from_environment(&vars(&v))
}

fn no_colors() -> Colors {
    check_tty(false, "xterm", 0)
}

#[test]
fn settings_from_the_environment() {
    let e = Env::from_environment(&vars(&[
        ("REDO_BASE", "/proj//"),
        ("REDO_DEBUG", " 2 "),
        ("REDO_DEBUG_PIDS", "x"),
        ("REDO_RUNID", "17"),
        ("REDO_DEPTH", "  "),
        ("REDO_TARGET", "all"),
    ]));
    assert_eq!(e.base, "/proj");
    assert_eq!(e.debug, 2);
    assert!(e.debug_pids);
    assert!(!e.debug_locks);
    assert_eq!(e.runid, Some(17));
    assert_eq!(e.depth, "  ");
    assert_eq!(e.target, "all");
    assert_eq!(e.log, 1);
    assert_eq!(e.pwd, "");
    let e2 = env_with(&[("REDO_RUNID", "0"), ("REDO_LOG", "0")]);
    assert_eq!(e2.runid, None);
    assert_eq!(e2.log, 0);
}

#[test]
fn the_first_setting_wins() {
    let e = Env::from_environment(&vars(&[("REDO_BASE", "/a"), ("REDO_BASE", "/b")]));
    assert_eq!(e.base, "/a");
}

#[test]
fn session_reads_and_changes_the_settings() {
    let mut s = Session::new();
    assert!(!s.is_toplevel());
    s.v = Some(env_with(&[("REDO_DEPTH", "  ")]));
    let d = s.with_env(|e: &Env| e.depth.clone());
    assert_eq!(d, "  ");
    let old = s.with_env_mut(|mut e: Env| {
        let o = e.depth.clone();
        e.depth = "    ".to_string();
        (e, o)
    });
    assert_eq!(old, "  ");
    assert_eq!(s.v.as_ref().unwrap().depth, "    ");
}

#[test]
fn common_prefix_cuts_at_slashes() {
    let p = vec!["/a/bc/d".to_string(), "/a/bx".to_string(), "/a/bc".to_string()];
    assert_eq!(common_prefix(&p), "/a");
    assert_eq!(common_prefix(&vec!["/x/y".to_string()]), "/x/y");
    assert_eq!(common_prefix(&vec![]), "");
    assert_eq!(common_prefix(&vec!["a".to_string(), "b".to_string()]), "");
}

#[test]
fn base_is_searched_upwards() {
    assert_eq!(base_candidates("/a/b/c"), vec!["/a/b", "/a", ""]);
    assert_eq!(base_candidates("/"), vec![""]);
}

#[test]
fn start_directories() {
    let d = start_dirs(&vec!["x/y".to_string(), "/abs/t".to_string()], "/cwd");
    assert_eq!(d, vec!["/cwd/x", "/abs", "/cwd"]);
    let d2 = start_dirs(&vec![], "/cwd");
    assert_eq!(d2, vec!["/cwd", "/cwd"]);
}

#[test]
fn search_path_lists_each_directory_once() {
    let dirs = vec!["/a".to_string(), "/b".to_string(), "/a".to_string()];
    assert_eq!(search_path(&dirs, "/usr/bin"), "/a:/b:/usr/bin");
}

#[test]
fn meta_lines() {
    assert_eq!(meta("do", "t.o", 42, "1.0000"), "@@REDO:do:42:1.0000@@ t.o");
    assert_eq!(err("bad  \n", 1, "2.0000"), "@@REDO:error:1:2.0000@@ bad");
    assert_eq!(warn("w", 1, "2.0000"), "@@REDO:warning:1:2.0000@@ w");
    assert_eq!(debug(0, "d", 1, "0"), None);
    assert_eq!(debug(1, "d ", 1, "0"), Some("@@REDO:debug:1:0@@ d".to_string()));
    assert_eq!(debug2(1, "d", 1, "0"), None);
    assert_eq!(debug2(2, "d", 1, "0"), Some("@@REDO:debug:1:0@@ d".to_string()));
    assert_eq!(debug3(2, "d", 1, "0"), None);
    assert!(debug3(3, "d", 1, "0").is_some());
}

#[test]
fn colours_only_on_capable_terminals() {
    let c = check_tty(true, "xterm", 1);
    assert_eq!(c.red, "\x1b[31m");
    assert_eq!(c.plain, "\x1b[m");
    let d = check_tty(true, "dumb", 1);
    assert_eq!(d.red, "");
    let f = check_tty(false, "dumb", 2);
    assert_eq!(f.green, "\x1b[32m");
    let cfg = log_setup(true, false, 1, 0, true, "xterm");
    assert!(cfg.mode == LogMode::Pretty);
    assert!(!cfg.to_stdout);
    let raw = log_setup(false, true, 1, 2, true, "xterm");
    assert!(raw.mode == LogMode::Raw);
    assert!(raw.to_stdout);
    assert_eq!(raw.colors.bold, "");
}

#[test]
fn pretty_rendering() {
    let e = env_with(&[("REDO_DEPTH", "  ")]);
    let c = no_colors();
    assert_eq!(pretty_write(&e, &c, "@@REDO:do:5:1.0@@ a/b"), "redo    a/b\n");
    assert_eq!(pretty_write(&e, &c, "@@REDO:check:5:1.0@@ x"), "redo    (x)\n");
    assert_eq!(pretty_write(&e, &c, "@@REDO:done:5:1.0@@ 0 x"), "");
    assert_eq!(pretty_write(&e, &c, "@@REDO:done:5:1.0@@ 2 x"), "redo    x (exit 2)\n");
    assert_eq!(pretty_write(&e, &c, "@@REDO:unchanged:5:1.0@@ u"), "redo    u (unchanged)\n");
    assert_eq!(pretty_write(&e, &c, "@@REDO:locked:5:1.0@@ u"), "");
    assert_eq!(pretty_write(&e, &c, "@@REDO:error:5:1.0@@ oops"), "redo: oops\n");
    assert_eq!(pretty_write(&e, &c, "plain text"), "plain text\n");
    assert_eq!(pretty_write(&e, &c, "pre@@REDO:do@@ z"), "prepre@@REDO:do@@ z\n");
    assert_eq!(pretty_write(&e, &c, "p@@REDO:other:1:2@@ z"), "pp@@REDO:other:1:2@@ z\n");
    let v = env_with(&[("REDO_VERBOSE", "1"), ("REDO_DEBUG_PIDS", "1")]);
    assert_eq!(pretty_write(&v, &c, "@@REDO:done:7:1.0@@ 0 x"), "7      redo  x (done)\n\n");
    let q = env_with(&[("REDO_LOG", "0")]);
    assert_eq!(pretty_write(&q, &c, "@@REDO:unchanged:5:1.0@@ u"), "");
    let colored = check_tty(true, "xterm", 1);
    assert_eq!(
        pretty_write(&q, &colored, "@@REDO:do:5:1.0@@ a"),
        "\x1b[32mredo  \x1b[1ma\x1b[m\n"
    );
}

#[test]
fn raw_and_pretty_writes() {
    let e = env_with(&[]);
    let raw = log_setup(true, true, 0, 0, false, "xterm");
    assert_eq!(log_write(&raw, &e, "@@REDO:do:5:1.0@@ a"), "@@REDO:do:5:1.0@@ a\n");
    let pretty = log_setup(true, false, 1, 0, false, "xterm");
    assert_eq!(log_write(&pretty, &e, "@@REDO:do:5:1.0@@ a"), "redo  a\n");
}
