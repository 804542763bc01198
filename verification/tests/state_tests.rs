use redo::paths::{find_do_file, possible_do_files};
use redo::deps::DepMode;
use redo::state::{
    check_sane, commit, detect_broken_locks, detect_override, is_flushed, logname,
    normalize_path, read_stamp, relpath, rollback, warn_override, DbState, File, Lock,
    LockRegistry, StatInfo, ALWAYS,
};
use redo::state::{
    lock_request, lock_result, note_add_file, LockFile, LockKind, LockOutcome, RowChange,
};

fn file(name: &str) -> File {
    File {
        id: 7,
        name: name.to_string(),
        is_generated: false,
        is_override: false,
        checked_runid: None,
        changed_runid: None,
        failed_runid: None,
        stamp: None,
        csum: None,
    }
}

#[test]
fn normalize_like_normpath() {
    assert_eq!(normalize_path("/a/./b/../c//d/"), "/a/c/d");
    assert_eq!(normalize_path("a/../../b"), "../b");
    assert_eq!(normalize_path("/../x"), "/x");
    assert_eq!(normalize_path(""), ".");
    assert_eq!(normalize_path("./"), ".");
}

#[test]
fn relative_paths() {
    assert_eq!(relpath("/a/b/c", "/a"), "b/c");
    assert_eq!(relpath("/a/b", "/a/x/y"), "../../b");
    assert_eq!(relpath("/a/b", "/a/b"), ".");
    assert_eq!(relpath("/", "/a"), "../");
}

#[test]
fn overrides_compare_time_and_size() {
    assert!(!detect_override("1.5-10-3-4-5-6", "1.5-10-3-4-5-6"));
    assert!(!detect_override("1.5-10-3-4-5-6", "1.5-10-99-4-5-6"));
    assert!(detect_override("1.5-10-3-4-5-6", "2.5-10-3-4-5-6"));
    assert!(detect_override("1.5-10-3-4-5-6", "1.5-11-3-4-5-6"));
    assert!(detect_override("", "0"));
    assert_eq!(warn_override("x"), "x - you modified it; skipping");
}

#[test]
fn log_names() {
    assert_eq!(logname("/b", 12), "/b/.redo/log.12");
}

#[test]
fn stamps_from_stat() {
    let e = StatInfo::Entry {
        is_link: false,
        mtime: "12.500000".to_string(),
        size: 3,
        ino: 4,
        mode: 33188,
        uid: 0,
        gid: 1,
    };
    assert_eq!(read_stamp(&e, &StatInfo::Missing), "12.500000-3-4-33188-0-1");
    assert_eq!(read_stamp(&StatInfo::Missing, &StatInfo::Missing), "0");
    assert_eq!(read_stamp(&StatInfo::Dir, &StatInfo::Missing), "dir");
    let l = StatInfo::Entry {
        is_link: true,
        mtime: "1.000000".to_string(),
        size: 1,
        ino: 2,
        mode: 41471,
        uid: 0,
        gid: 0,
    };
    assert_eq!(read_stamp(&l, &StatInfo::Dir), "1.000000-1-2-41471-0-0+dir");
}

#[test]
fn file_marks_follow_the_run() {
    let mut f = file("t");
    assert!(!f.is_checked(Some(5)));
    f.set_checked(Some(5));
    assert!(f.is_checked(Some(5)));
    assert!(!f.is_checked(Some(6)));
    assert!(!f.is_checked(None));
    f.set_changed(Some(5));
    assert!(f.is_changed(Some(5)));
    assert!(!f.is_failed(Some(5)));
}

#[test]
fn a_new_stamp_marks_the_file_changed() {
    let mut f = file("t");
    f.update_stamp("s1", false, Some(3));
    assert_eq!(f.stamp.as_deref(), Some("s1"));
    assert_eq!(f.changed_runid, Some(3));
    f.update_stamp("s1", false, Some(4));
    assert_eq!(f.changed_runid, Some(3));
}

#[test]
fn failed_static_override() {
    let mut f = file("t");
    f.set_failed("0", Some(9));
    assert_eq!(f.failed_runid, Some(9));
    assert!(!f.is_generated);
    f.set_failed("s", Some(9));
    assert!(f.is_generated);
    f.set_static("s2", Some(10));
    assert!(!f.is_generated);
    assert_eq!(f.failed_runid, None);
    f.set_override("s3", Some(11));
    assert!(f.is_override);
    assert_eq!(f.stamp.as_deref(), Some("s3"));
}

#[test]
fn sources_and_targets() {
    let mut f = file("t");
    assert!(f.is_source("s", Some(1)));
    assert!(!f.is_source("0", Some(1)));
    f.is_generated = true;
    f.stamp = Some("s".to_string());
    assert!(!f.is_source("s", Some(1)));
    assert!(f.is_target("s", Some(1)));
    assert!(f.is_source("other", Some(1)));
    let g = file("//ALWAYS");
    assert!(!g.is_source("s", Some(1)));
}

#[test]
fn always_is_changed_in_every_run() {
    let f = File::from_row(1, ALWAYS.to_string(), Some(0), None, None, Some(3), None, None, None, Some(8));
    assert_eq!(f.changed_runid, Some(8));
    let g = File::from_row(2, "x".to_string(), Some(1), Some(0), None, Some(3), None, None, None, Some(8));
    assert_eq!(g.changed_runid, Some(3));
    assert!(g.is_generated);
    assert!(!g.is_override);
    let d = g.duplicate();
    assert_eq!(d.name, "x");
}

#[test]
fn write_bookkeeping() {
    let mut st = DbState::new();
    assert!(is_flushed(&st));
    let f = file("t");
    assert!(f.save(&mut st));
    assert!(!is_flushed(&st));
    assert!(commit(&mut st));
    assert!(is_flushed(&st));
    assert!(!commit(&mut st));
    assert!(f.zap_deps1(&mut st));
    assert!(rollback(&mut st));
    assert!(is_flushed(&st));
    assert!(!check_sane(&mut st, false));
    assert!(!check_sane(&mut st, true));
    assert!(!f.zap_deps2(&mut st));
    assert!(is_flushed(&st));
    let mut g = file("u");
    assert!(!g.set_checked_save(Some(2), &mut st));
    assert_eq!(g.checked_runid, Some(2));
    assert!(!detect_broken_locks());
}

#[test]
fn locks_refuse_cycles() {
    let mut reg = LockRegistry::new();
    let lk = Lock::new(&mut reg, 3, 42);
    assert!(reg.contains(42));
    assert!(!lk.owned);
    assert!(lk.check("1:42").is_err());
    assert!(lk.check("1:4").is_ok());
    let mut lf = LockFile::new(3);
    lk.release(&mut reg, &mut lf);
    assert_eq!(lf.descriptor(), 3);
    assert!(!reg.contains(42));
}

#[test]
fn do_file_candidates() {
    let c = possible_do_files("a/b.c", "/base");
    let want = vec![
        ("/base/a", "b.c.do", "", "b.c", ""),
        ("/base/a", "default.c.do", "", "b", ".c"),
        ("/base/a", "default.do", "", "b.c", ""),
        ("/base", "default.c.do", "a", "a/b", ".c"),
        ("/base", "default.do", "a", "a/b.c", ""),
        ("/", "default.c.do", "base/a", "base/a/b", ".c"),
        ("/", "default.do", "base/a", "base/a/b.c", ""),
    ];
    let got: Vec<(&str, &str, &str, &str, &str)> = c
        .iter()
        .map(|(a, b, x, y, z)| (a.as_str(), b.as_str(), x.as_str(), y.as_str(), z.as_str()))
        .collect();
    assert_eq!(got, want);
}

#[test]
fn the_first_existing_do_file_is_used() {
    let c = possible_do_files("x", "/p");
    assert_eq!(c.len(), 3);
    let exists = vec![false, true, false];
    let (k, deps) = find_do_file(&c, &exists);
    assert_eq!(k, Some(1));
    assert_eq!(deps.len(), 2);
    assert!(deps[0].0 == DepMode::Created);
    assert_eq!(deps[0].1, "/p/x.do");
    assert!(deps[1].0 == DepMode::Modified);
    assert_eq!(deps[1].1, "/p/default.do");
    let none = vec![false, false, false];
    let (k2, deps2) = find_do_file(&c, &none);
    assert_eq!(k2, None);
    assert_eq!(deps2.len(), 3);
    assert_eq!(deps2[2].1, "//default.do");
}

#[test]
fn normalize_twice_is_normalize_once() {
    for p in ["/a/./b/../c//d/", "a/../../b", "../../x/./y/..", "", "/", ".", "a/b/"] {
        let once = normalize_path(p);
        assert_eq!(normalize_path(&once), once);
    }
}

#[test]
fn lock_result_for_each_answer() {
    assert_eq!(lock_result(LockKind::Write, true, LockOutcome::Granted).unwrap(), true);
    assert_eq!(lock_result(LockKind::Write, true, LockOutcome::Busy).unwrap(), false);
    assert_eq!(lock_result(LockKind::Write, false, LockOutcome::Busy).unwrap_err().errno, 11);
    assert_eq!(lock_result(LockKind::Read, false, LockOutcome::Failed(9)).unwrap_err().errno, 9);
    assert_eq!(lock_result(LockKind::Unlock, false, LockOutcome::Failed(9)).unwrap(), true);
    assert_eq!(lock_result(LockKind::Unlock, true, LockOutcome::Busy).unwrap(), false);
    assert_eq!(lock_result(LockKind::Unlock, false, LockOutcome::Busy).unwrap(), true);
}

#[test]
fn lock_request_waits_only_for_blocking_locks() {
    let q = lock_request(5, LockKind::Write, false, 1, 42);
    assert!(q.fd == 5 && q.start == 42 && q.len == 1 && q.wait && q.kind == LockKind::Write);
    assert!(!lock_request(5, LockKind::Write, true, 1, 42).wait);
    assert!(!lock_request(5, LockKind::Unlock, false, 1, 42).wait);
    assert!(lock_request(6, LockKind::Read, false, 3, 7).wait);
}

#[test]
fn rollback_drops_an_added_file() {
    let mut st = DbState::new();
    assert!(note_add_file(&mut st, "a"));
    assert!(!is_flushed(&st));
    assert!(matches!(&st.pending[0], RowChange::AddFile(n) if n == "a"));
    assert!(rollback(&mut st));
    assert!(is_flushed(&st));
    assert!(st.pending.is_empty());
}

#[test]
fn dependency_changes_are_recorded_in_order() {
    let mut st = DbState::new();
    let t = file("t");
    let mut s = file("s");
    s.id = 8;
    assert!(t.zap_deps1(&mut st));
    assert!(t.add_dep(&mut st, "m", &s));
    assert!(t.zap_deps2(&mut st));
    assert_eq!(st.wrote, 3);
    assert!(matches!(st.pending[0], RowChange::MarkDeps(7)));
    assert!(matches!(&st.pending[1], RowChange::AddDep(7, m, 8) if m == "m"));
    assert!(matches!(st.pending[2], RowChange::DropMarkedDeps(7)));
    assert!(commit(&mut st));
    assert!(st.pending.is_empty());
}
