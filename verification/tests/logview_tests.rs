use redo::logs::meta;
use redo::logview::{join_piece, leftover_line, log_dir, ShownLogs};
use redo::logview::{
    catlog_line, depth_indent, log_normalize, parse_redo_line, rel, show_status, status_line,
    width_from, CatlogOpts, LogEmit, LineOutcome,
};
use redo::text::to_chars;

fn opts(recursive: bool, details: bool, unchanged: bool, debug_locks: bool) -> CatlogOpts {
    CatlogOpts { recursive, details, unchanged, debug_locks }
}

fn emits(o: &LineOutcome) -> Vec<String> {
    o.emits
        .iter()
        .map(|e| match e {
            LogEmit::Meta { kind, text, pid } => format!("meta {} {} {}", kind, text, pid),
            LogEmit::Raw(s) => format!("raw {}", s),
            LogEmit::Resumed => "resumed".to_string(),
        })
        .collect()
}

#[test]
fn meta_lines_are_read_back() {
    let line = meta("do", "sub/t.o", 77, "123.4567");
    let (k, p, t) = parse_redo_line(&to_chars(&line)).unwrap();
    assert_eq!(k.iter().collect::<String>(), "do");
    assert_eq!(p, 77);
    assert_eq!(t.iter().collect::<String>(), "sub/t.o");
    let (_, _, t2) = parse_redo_line(&to_chars("x@@REDO:done:1:2@@ 0 a\n\n")).unwrap();
    assert_eq!(t2.iter().collect::<String>(), "0 a");
    assert!(parse_redo_line(&to_chars("@@REDO:do@@ a")).is_none());
    assert!(parse_redo_line(&to_chars("plain")).is_none());
    let (_, p3, _) = parse_redo_line(&to_chars("@@REDO:do:abc:1@@ a")).unwrap();
    assert_eq!(p3, 0);
}

#[test]
fn names_relative_to_the_top() {
    assert_eq!(rel("/top", "sub", "t.o"), "sub/t.o");
    assert_eq!(rel("/top", "", "t.o"), "t.o");
    assert_eq!(rel("/top", ".", "t.o"), "t.o");
    assert_eq!(log_normalize("a/./b/../c"), "a/c");
    assert_eq!(log_normalize("/x/"), "x");
    assert_eq!(log_normalize("../y"), "y");
}

#[test]
fn do_lines_are_shown_once_and_followed() {
    let line = "@@REDO:do:5:1.0@@ t.o\n";
    let o = catlog_line(line, "/top", "sub", &vec![], &opts(true, true, false, false), 0);
    assert_eq!(emits(&o), vec!["meta do sub/t.o 5"]);
    assert_eq!(o.recurse.as_deref(), Some("sub/t.o"));
    assert_eq!(o.remember.as_deref(), Some("sub/t.o"));
    assert_eq!((o.lines, o.interrupted), (1, 1));
    let seen = vec!["sub/t.o".to_string()];
    let o2 = catlog_line(line, "/top", "sub", &seen, &opts(false, true, false, false), 0);
    assert!(o2.emits.is_empty());
    assert_eq!(o2.recurse, None);
    assert_eq!((o2.lines, o2.interrupted), (0, 0));
    let o3 = catlog_line("@@REDO:waiting:5:1.0@@ t.o", "/top", "", &seen, &opts(false, true, false, true), 0);
    assert_eq!(emits(&o3), vec!["meta waiting t.o 5", "raw @@REDO:waiting:5:1.0@@ t.o"]);
}

#[test]
fn unchanged_lines_need_the_option() {
    let line = "@@REDO:unchanged:5:1.0@@ u";
    let o = catlog_line(line, "/top", "", &vec![], &opts(true, true, false, false), 0);
    assert!(o.emits.is_empty());
    assert_eq!(o.recurse, None);
    assert_eq!(o.remember.as_deref(), Some("u"));
    let o2 = catlog_line(line, "/top", "", &vec![], &opts(true, true, true, false), 0);
    assert_eq!(emits(&o2), vec!["meta do u 5"]);
    assert_eq!(o2.recurse.as_deref(), Some("u"));
    assert_eq!(o2.lines, 0);
}

#[test]
fn done_lines_are_renamed() {
    let o = catlog_line("@@REDO:done:5:1.0@@ 1 t.o", "/top", "sub", &vec![], &opts(true, true, false, false), 0);
    assert_eq!(emits(&o), vec!["meta done 1 sub/t.o 5"]);
    assert_eq!(o.lines, 1);
    let o2 = catlog_line("@@REDO:done:5:1.0@@ 1", "/top", "sub", &vec![], &opts(true, true, false, false), 0);
    assert!(o2.emits.is_empty());
    assert_eq!(o2.lines, 0);
}

#[test]
fn script_output_and_resumption() {
    let o = catlog_line("compiling...  \n", "/top", "", &vec![], &opts(true, true, false, false), 3);
    assert_eq!(emits(&o), vec!["resumed", "raw compiling..."]);
    assert!(o.reset_interrupted);
    let o2 = catlog_line("more\n", "/top", "", &vec![], &opts(true, true, false, false), 0);
    assert_eq!(emits(&o2), vec!["raw more"]);
    let o3 = catlog_line("more\n", "/top", "", &vec![], &opts(true, false, false, false), 2);
    assert!(o3.emits.is_empty());
    assert_eq!(o3.lines, 0);
    let o4 = catlog_line("@@REDO:error:5:1.0@@ bad  ", "/top", "", &vec![], &opts(true, false, false, false), 0);
    assert_eq!(emits(&o4), vec!["raw @@REDO:error:5:1.0@@ bad"]);
}

#[test]
fn the_status_line() {
    let depth = vec!["all".to_string(), "-".to_string(), "sub/x".to_string()];
    assert_eq!(status_line(12, &depth, 80), "redo 12 all sub/x");
    assert_eq!(status_line(12, &depth, 10), "redo 12 sub/x");
    assert_eq!(status_line(0, &vec![], 80), "redo 0 ");
}

#[test]
fn widths_and_indents() {
    assert_eq!(width_from(120, Some("50")), 120);
    assert_eq!(width_from(0, Some("50")), 50);
    assert_eq!(width_from(0, Some("+7")), 7);
    assert_eq!(width_from(0, Some("x")), 70);
    assert_eq!(width_from(0, Some("-1")), 70);
    assert_eq!(width_from(0, None), 70);
    assert_eq!(depth_indent(3), "      ");
    assert!(!show_status(1, true, false));
    assert!(show_status(2, true, false));
    assert!(show_status(1, true, true));
    assert!(!show_status(1, false, true));
}

#[test]
fn pieces_join_into_lines() {
    let (done, head) = join_piece("", "par");
    assert!(done.is_none());
    assert_eq!(head, "par");
    let (done, head) = join_piece(&head, "tial\n");
    assert_eq!(done.as_deref(), Some("partial\n"));
    assert_eq!(head, "");
    assert_eq!(leftover_line("tail").as_deref(), Some("tail"));
    assert!(leftover_line("").is_none());
}

#[test]
fn shown_logs_enter_once_and_leave() {
    let mut s = ShownLogs::new();
    assert!(s.enter("a/x"));
    assert!(!s.enter("a/x"));
    assert_eq!(s.depth, vec!["a/x".to_string()]);
    assert!(s.enter("-"));
    assert_eq!(s.depth.len(), 1);
    s.remember("b");
    s.remember("b");
    assert_eq!(s.already, vec!["a/x".to_string(), "-".to_string(), "b".to_string()]);
    s.leave("-");
    assert_eq!(s.depth.len(), 1);
    s.leave("a/x");
    assert!(s.depth.is_empty());
}

#[test]
fn log_dir_is_the_targets_directory() {
    assert_eq!(log_dir("a/b/c"), "a/b");
    assert_eq!(log_dir("x"), "");
    assert_eq!(log_dir("/"), "");
}
