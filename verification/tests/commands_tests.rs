use redo::builder::ShouldBuildResult;
use redo::commands::{
    command_of, diff_paths, ifcreate_check, jobs_value, mark_always, my_target_path, ood,
    redo_default_vars, redo_flag_vars, should_build, sources, stamp, unlocked_commands,
    whichdo_path, Command,
};
use redo::deps::{isdirty, CheckMode, DepGraph, DepMode, DepNode, DirtyResult, DirtyState};
use redo::options::{OptDict, OptValue};
use redo::state::File;

fn file(id: i64, name: &str) -> File {
    File {
        id,
        name: name.to_string(),
        is_generated: false,
        is_override: false,
        checked_runid: None,
        changed_runid: None,
        failed_runid: None,
        stamp: None,
        csum: None,
    }
}

fn node(f: File, deps: Vec<(DepMode, i64)>, stamp: &str) -> DepNode {
    let nice = f.name.clone();
    DepNode { file: f, deps, stamp: stamp.to_string(), exists: stamp != "0", nicename: nice }
}

fn state_for(g: &DepGraph) -> DirtyState {
    DirtyState {
        records: g.nodes.iter().map(|n| n.file.duplicate()).collect(),
        cache: vec![],
        effects: vec![],
    }
}

#[test]
fn program_names_select_commands() {
    assert_eq!(command_of("/usr/bin/redo-ifchange").0, Command::IfChange);
    assert_eq!(command_of("redo").0, Command::Redo);
    assert_eq!(command_of("./redo-log").0, Command::Log);
    let (c, n) = command_of("/x/frob");
    assert_eq!(c, Command::Unknown);
    assert_eq!(n, "frob");
    assert_eq!(command_of("").0, Command::Redo);
}

#[test]
fn stamping_records_the_checksum() {
    let mut f = file(1, "t");
    let changed = stamp(&mut f, b"hello", Some(4));
    assert!(changed);
    assert_eq!(f.csum.as_deref(), Some("aaf4c61ddcc5e8a2dabede0f3b482cd9aea9434d"));
    assert_eq!(f.changed_runid, Some(4));
    assert!(f.is_generated);
    let again = stamp(&mut f, b"hello", Some(5));
    assert!(!again);
    assert_eq!(f.checked_runid, Some(5));
    assert_eq!(f.changed_runid, Some(4));
    assert!(stamp(&mut f, b"", Some(6)));
    assert_eq!(f.csum.as_deref(), Some("da39a3ee5e6b4b0d3255bfef95601890afd80709"));
}

#[test]
fn always_is_changed() {
    let mut a = file(1, "//ALWAYS");
    mark_always(&mut a, Some(9));
    assert_eq!(a.stamp.as_deref(), Some("0"));
    assert_eq!(a.changed_runid, Some(9));
}

#[test]
fn ifcreate_refuses_existing_files() {
    assert!(ifcreate_check("x", false).is_ok());
    assert_eq!(ifcreate_check("x", true).err().unwrap(), (1, "redo-ifcreate: error: \"x\" already exists".to_string()));
    assert_eq!(ifcreate_check("", false).err().unwrap().0, 204);
    assert_eq!(my_target_path("/s", "p", "t"), "/s/p/t");
}

#[test]
fn jobs_and_settings_from_options() {
    let mut d = OptDict::new();
    d.set("jobs", OptValue::Int(4));
    d.set("debug", OptValue::Int(2));
    d.set("keep_going", OptValue::Int(1));
    d.set("log", OptValue::Bool(true));
    d.set("pretty", OptValue::Bool(false));
    d.set("color", OptValue::Int(1));
    assert_eq!(jobs_value(&d), (4, None));
    assert_eq!(
        redo_flag_vars(&d),
        vec![
            ("REDO_DEBUG".to_string(), "2".to_string()),
            ("REDO_KEEP_GOING".to_string(), "1".to_string()),
        ]
    );
    assert_eq!(
        redo_default_vars(&d),
        vec![
            ("REDO_LOG".to_string(), "1".to_string()),
            ("REDO_PRETTY".to_string(), "0".to_string()),
            ("REDO_COLOR".to_string(), "1".to_string()),
        ]
    );
    d.set("jobs", OptValue::Int(1001));
    assert_eq!(jobs_value(&d), (0, Some("invalid --jobs value: \"1001\"".to_string())));
    d.set("jobs", OptValue::Str("x".to_string()));
    assert_eq!(jobs_value(&d), (0, None));
}

#[test]
fn unlocked_runs_dependencies_then_target() {
    let (a, b) = unlocked_commands(&vec!["t".to_string(), "d1".to_string(), "d2".to_string()]);
    assert_eq!(a, vec!["redo-ifchange", "d1", "d2"]);
    assert_eq!(b, vec!["redo-ifchange", "t"]);
}

#[test]
fn whichdo_paths() {
    assert_eq!(whichdo_path("/a/b", "x.do"), "/a/b/x.do");
    assert_eq!(whichdo_path("/", "default.do"), "//default.do");
    assert_eq!(whichdo_path("", "x.do"), "/x.do");
    assert_eq!(diff_paths("/a/b/c.do", "/a/x"), "../b/c.do");
    assert_eq!(diff_paths("/a/b.do", "/a"), "b.do");
    assert_eq!(diff_paths("/a", "/a"), "");
}

#[test]
fn failed_targets_and_dirtiness() {
    let runid = Some(10);
    let mut failed = file(1, "f");
    failed.failed_runid = Some(10);
    failed.is_generated = true;
    let mut unbuilt = file(2, "u");
    unbuilt.is_generated = true;
    let mut checked = file(3, "c");
    checked.is_generated = true;
    checked.changed_runid = Some(3);
    checked.checked_runid = Some(10);
    checked.stamp = Some("s".to_string());
    let g = DepGraph {
        nodes: vec![
            node(failed.duplicate(), vec![], "s"),
            node(unbuilt.duplicate(), vec![], "s"),
            node(checked.duplicate(), vec![], "s"),
        ],
        runid,
        mode: CheckMode::Recorded,
        debug: false,
    };
    let mut st = state_for(&g);
    assert!(should_build(&g, &mut st, &failed).is_none());
    let (gen, sb) = should_build(&g, &mut st, &unbuilt).unwrap();
    assert!(gen);
    assert!(matches!(sb, ShouldBuildResult::Dirty));
    let (_, sb) = should_build(&g, &mut st, &checked).unwrap();
    assert!(matches!(sb, ShouldBuildResult::Clean));
}

#[test]
fn a_changed_dependency_makes_the_target_dirty() {
    let runid = Some(20);
    let mut src = file(1, "a.c");
    src.changed_runid = Some(5);
    src.stamp = Some("old".to_string());
    let mut tgt = file(2, "a.o");
    tgt.is_generated = true;
    tgt.changed_runid = Some(5);
    tgt.stamp = Some("t".to_string());
    let g = DepGraph {
        nodes: vec![
            node(src.duplicate(), vec![], "new"),
            node(tgt.duplicate(), vec![(DepMode::Modified, 1)], "t"),
        ],
        runid,
        mode: CheckMode::Recorded,
        debug: false,
    };
    let mut st = state_for(&g);
    let r = isdirty(&g, &mut st, &tgt, "", 20, &vec![]);
    assert!(matches!(r, Ok(DirtyResult::Dirty)));
    assert!(r.unwrap().is_dirty());
    let g2 = DepGraph {
        nodes: vec![
            node(src.duplicate(), vec![], "old"),
            node(tgt.duplicate(), vec![(DepMode::Modified, 1)], "t"),
        ],
        runid,
        mode: CheckMode::Recorded,
        debug: false,
    };
    let mut st2 = state_for(&g2);
    let r2 = isdirty(&g2, &mut st2, &tgt, "", 20, &vec![]);
    assert!(matches!(r2, Ok(DirtyResult::Clean)));
    assert!(r2.unwrap().is_clean());
}

#[test]
fn listing_sources_and_out_of_date_targets() {
    let runid = Some(30);
    let mut src = file(1, "a.c");
    src.changed_runid = Some(5);
    src.stamp = Some("old".to_string());
    let mut tgt = file(2, "a.o");
    tgt.is_generated = true;
    tgt.changed_runid = Some(5);
    tgt.stamp = Some("t".to_string());
    let g = DepGraph {
        nodes: vec![
            node(src.duplicate(), vec![], "new"),
            node(tgt.duplicate(), vec![(DepMode::Modified, 1)], "t"),
        ],
        runid,
        mode: CheckMode::Cached,
        debug: false,
    };
    assert_eq!(sources(&g), vec![0]);
    let mut st = state_for(&g);
    assert_eq!(ood(&g, &mut st), vec![1]);
}

#[test]
fn cycles_and_earlier_failures_in_dirtiness() {
    let runid = Some(40);
    let mut f = file(1, "x");
    f.is_generated = true;
    f.changed_runid = Some(2);
    f.failed_runid = Some(3);
    let mut b = file(2, "built_later");
    b.is_generated = true;
    b.changed_runid = Some(39);
    let g = DepGraph {
        nodes: vec![node(f.duplicate(), vec![], "s"), node(b.duplicate(), vec![], "s")],
        runid,
        mode: CheckMode::Recorded,
        debug: false,
    };
    let mut st = state_for(&g);
    assert!(isdirty(&g, &mut st, &f, "", 40, &vec![1]).is_err());
    assert!(matches!(isdirty(&g, &mut st, &f, "", 40, &vec![]), Ok(DirtyResult::Dirty)));
    assert!(matches!(isdirty(&g, &mut st, &b, "", 10, &vec![]), Ok(DirtyResult::Dirty)));
}
