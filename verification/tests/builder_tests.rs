use redo::builder::{
    abs_path_exec, check_outputs, check_targets, child_env, child_log, cyclic_message, do_argv,
    done_text, failed_elsewhere_message, log_reader_argv, no_dofile, output_plan, record_built,
    shuffle_targets, start_build_checks, tmpname, unlocked_argv, ChildLog, EnvChange, FirstPass,
    OutputPlan, PassStep, EMPTY_TARGET_MESSAGE,
};
use redo::builder::{
    first_pass_step, second_pass_step, FirstPassAction, FirstPassEvent, LockedEvent,
    SecondPassAction,
};
use redo::state::File;

fn strings(v: &[&str]) -> Vec<String> {
    v.iter().map(|s| s.to_string()).collect()
}

fn file(name: &str) -> File {
    File {
        id: 3,
        name: name.to_string(),
        is_generated: false,
        is_override: false,
        checked_runid: None,
        changed_runid: None,
        failed_runid: None,
        stamp: None,
        csum: None,
    }
}

#[test]
fn names_with_newlines_are_refused() {
    assert_eq!(check_targets(&strings(&["a", "b"])), None);
    assert_eq!(
        check_targets(&strings(&["a", "b\nc", "d\n"])),
        Some("\"b\\nc\": filenames containing newlines are not allowed.".to_string())
    );
}

#[test]
fn shuffle_is_a_permutation() {
    let t = strings(&["a", "b", "c", "d"]);
    let s = shuffle_targets(&t, 5);
    let mut v = t.clone();
    for i in (1..v.len()).rev() {
        let j = (5 + i * 31) % (i + 1);
        v.swap(i, j);
    }
    assert_eq!(s, v);
    let mut sorted = s.clone();
    sorted.sort();
    assert_eq!(sorted, t);
}

#[test]
fn first_pass_skips_repeats_and_stops_at_empty() {
    let t = strings(&["a", "b", "a", "", "c"]);
    let mut p = FirstPass::new();
    assert_eq!(p.next(&t), PassStep::Target(0));
    assert_eq!(p.next(&t), PassStep::Target(1));
    assert_eq!(p.next(&t), PassStep::EmptyTarget(3));
    let t2 = strings(&["x", "x"]);
    let mut q = FirstPass::new();
    assert_eq!(q.next(&t2), PassStep::Target(0));
    assert_eq!(q.next(&t2), PassStep::Finished);
    assert_eq!(EMPTY_TARGET_MESSAGE, "cannot build the empty target (\"\").");
}

#[test]
fn a_hand_edited_target_is_left_alone() {
    let mut f = file("t");
    f.is_generated = true;
    f.stamp = Some("1.0-5-1-1-1-1".to_string());
    let c = start_build_checks(&mut f, "2.0-5-1-1-1-1", "t", true, false, Some(4));
    assert!(c.is_static);
    assert!(c.save);
    assert_eq!(
        c.warnings,
        vec![
            "t - you modified it; skipping".to_string(),
            "t - old: Some(\"1.0-5-1-1-1-1\")".to_string(),
            "t - new: \"2.0-5-1-1-1-1\"".to_string(),
        ]
    );
    assert!(f.is_override);
    let again = start_build_checks(&mut f, "2.0-5-1-1-1-1", "t", true, false, Some(5));
    assert_eq!(again.warnings, vec!["t - you modified it; skipping".to_string()]);
    assert!(again.is_static);
}

#[test]
fn sources_are_not_built_and_targets_are() {
    let mut src = file("s");
    let c = start_build_checks(&mut src, "9-9-9-9-9-9", "s", true, false, Some(1));
    assert!(c.is_static && c.save && c.warnings.is_empty());
    assert_eq!(src.stamp.as_deref(), Some("9-9-9-9-9-9"));
    let mut tgt = file("t");
    tgt.is_generated = true;
    tgt.stamp = Some("1-1-1-1-1-1".to_string());
    let c2 = start_build_checks(&mut tgt, "1-1-1-1-1-1", "t", true, false, Some(1));
    assert!(!c2.is_static && !c2.save);
    let mut missing = file("m");
    let c3 = start_build_checks(&mut missing, "0", "m", false, false, Some(1));
    assert!(!c3.is_static);
}

#[test]
fn without_a_do_file() {
    let mut f = file("x");
    assert_eq!(no_dofile(&mut f, "x", true, "s", Some(2)), None);
    assert!(!f.is_generated);
    let mut g = file("y");
    assert_eq!(no_dofile(&mut g, "y", false, "0", Some(2)), Some("no rule to redo \"y\"".to_string()));
    assert_eq!(g.failed_runid, Some(2));
}

#[test]
fn do_script_command_lines() {
    assert_eq!(tmpname("/d", "out", ".o"), "/d/out.o.redo.tmp");
    assert_eq!(abs_path_exec("/cwd", "a/b"), "/cwd/a/b");
    assert_eq!(abs_path_exec("/cwd", "/a"), "/a");
    assert_eq!(
        do_argv("default.o.do", "out", ".o", "out.o.redo.tmp", true, true, "echo\n"),
        strings(&["sh", "-evx", "default.o.do", "out.o", "out", "out.o.redo.tmp"])
    );
    assert_eq!(
        do_argv("x.do", "x", "", "x.redo.tmp", false, false, "  #!/usr/bin/env  python3 -u\n"),
        strings(&["/usr/bin/env", "python3", "-u", "x.do", "x", "x", "x.redo.tmp"])
    );
    assert_eq!(
        do_argv("x.do", "x", "", "t", false, false, "#!python"),
        strings(&["sh", "-e", "x.do", "x", "x", "t"])
    );
}

#[test]
fn child_environment() {
    assert_eq!(child_log(1, "", "5"), ChildLog::NewLogFile);
    assert_eq!(child_log(1, "5", "5"), ChildLog::NewLogFile);
    assert_eq!(child_log(1, "5", "6"), ChildLog::Inherit);
    assert_eq!(child_log(0, "5", "5"), ChildLog::Off);
    let ch = child_env("sub", "t.o", "  ", 1, 0, ChildLog::Off, "");
    let got: Vec<(String, Option<String>)> = ch
        .into_iter()
        .map(|c| match c {
            EnvChange::Put(k, v) => (k, Some(v)),
            EnvChange::Remove(k) => (k, None),
        })
        .collect();
    let want: Vec<(String, Option<String>)> = vec![
        ("CDPATH".to_string(), None),
        ("REDO_PWD".to_string(), Some("sub".to_string())),
        ("REDO_TARGET".to_string(), Some("t.o".to_string())),
        ("REDO_DEPTH".to_string(), Some("    ".to_string())),
        ("REDO_VERBOSE".to_string(), Some("0".to_string())),
        ("REDO_LOG_INODE".to_string(), None),
        ("REDO_LOG".to_string(), Some("".to_string())),
    ];
    assert_eq!(got, want);
}

#[test]
fn judging_the_outputs() {
    let (rv, msgs) = check_outputs("t", 0, Some(1), Some((2, false)), 0, false);
    assert_eq!(rv, 206);
    assert_eq!(msgs[0], "dofile modified t directly!");
    let (rv, msgs) = check_outputs("t", 0, Some(1), Some((1, false)), 5, true);
    assert_eq!(rv, 207);
    assert_eq!(msgs, vec![
        "dofile wrote to stdout *and* created $3.".to_string(),
        "...you should write status messages to stderr, not stdout.".to_string(),
    ]);
    let (rv, msgs) = check_outputs("t", 3, None, None, 0, false);
    assert_eq!((rv, msgs.len()), (3, 0));
    let (rv, _) = check_outputs("t", 0, None, Some((9, true)), 0, true);
    assert_eq!(rv, 0);
    assert_eq!(output_plan(5, false), OutputPlan::CopyStdout);
    assert_eq!(output_plan(5, true), OutputPlan::Rename);
    assert_eq!(output_plan(0, true), OutputPlan::Rename);
    assert_eq!(output_plan(0, false), OutputPlan::Unlink);
    assert_eq!(done_text(-2, "a/b"), "-2 a/b");
}

#[test]
fn recording_a_build() {
    let mut f = file("t");
    f.is_override = true;
    f.csum = Some("c".to_string());
    record_built(&mut f, "st", Some(6));
    assert!(f.is_generated && !f.is_override);
    assert_eq!(f.csum, None);
    assert_eq!(f.changed_runid, Some(6));
    assert_eq!(f.stamp.as_deref(), Some("st"));
    let mut g = file("u");
    g.checked_runid = Some(6);
    g.csum = Some("c".to_string());
    record_built(&mut g, "st2", Some(6));
    assert_eq!(g.csum.as_deref(), Some("c"));
    assert_eq!(g.changed_runid, None);
    assert_eq!(g.stamp.as_deref(), Some("st2"));
}

#[test]
fn dependency_check_command() {
    assert_eq!(
        unlocked_argv("t", &strings(&["a", "b", "a", "t"])),
        strings(&["redo-unlocked", "t", "a", "b", "t"])
    );
}

#[test]
fn log_reader_command() {
    assert_eq!(
        log_reader_argv(7, true, false, true, 1, 1, false, true),
        strings(&[
            "redo-log", "--recursive", "--follow", "--ack-fd", "7", "--no-status", "--details",
            "--pretty", "--no-debug-locks", "--debug-pids", "-",
        ])
    );
    assert_eq!(
        log_reader_argv(7, true, true, false, 0, 2, true, false),
        strings(&[
            "redo-log", "--recursive", "--follow", "--ack-fd", "7", "--status", "--no-details",
            "--no-pretty", "--debug-locks", "--no-debug-pids", "--color", "-",
        ])
    );
    assert_eq!(log_reader_argv(3, false, false, false, 0, 0, false, false)[10], "--no-color");
}

#[test]
fn messages() {
    assert_eq!(failed_elsewhere_message("x"), "x: failed in another thread");
    assert_eq!(cyclic_message("x"), "cyclic dependency while building x");
}

#[test]
fn second_pass_decisions() {
    let resumed = |any_locked| LockedEvent::Resumed { any_locked };
    assert_eq!(second_pass_step(false, 1, resumed(true)), SecondPassAction::Stop);
    assert_eq!(second_pass_step(true, 1, resumed(true)), SecondPassAction::CheckSane);
    assert_eq!(second_pass_step(false, 0, resumed(false)), SecondPassAction::KeepWaiting);
    assert_eq!(
        second_pass_step(false, 0, LockedEvent::SaneChecked { sane: false }),
        SecondPassAction::Fail(205)
    );
    assert_eq!(
        second_pass_step(false, 0, LockedEvent::SaneChecked { sane: true }),
        SecondPassAction::TakeNext
    );
    assert_eq!(second_pass_step(true, 0, LockedEvent::Cycle), SecondPassAction::Exit(208));
    assert_eq!(
        second_pass_step(false, 0, LockedEvent::Acquired { failed: true }),
        SecondPassAction::FailedElsewhere(2)
    );
    assert_eq!(
        second_pass_step(false, 0, LockedEvent::Acquired { failed: false }),
        SecondPassAction::Build
    );
}

#[test]
fn first_pass_decisions() {
    assert_eq!(first_pass_step(false, 1, FirstPassEvent::TokenHeld), FirstPassAction::Stop);
    assert_eq!(first_pass_step(true, 1, FirstPassEvent::TokenHeld), FirstPassAction::CheckSane);
    assert_eq!(first_pass_step(false, 0, FirstPassEvent::TokenHeld), FirstPassAction::CheckSane);
    assert_eq!(
        first_pass_step(false, 0, FirstPassEvent::SaneChecked { sane: false }),
        FirstPassAction::Fail(205)
    );
    assert_eq!(
        first_pass_step(false, 0, FirstPassEvent::SaneChecked { sane: true }),
        FirstPassAction::TryLock
    );
    assert_eq!(
        first_pass_step(false, 0, FirstPassEvent::LockTried { owned: false }),
        FirstPassAction::Defer
    );
    assert_eq!(
        first_pass_step(false, 0, FirstPassEvent::LockTried { owned: true }),
        FirstPassAction::Build
    );
}
