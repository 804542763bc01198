//! `redo-log`: how each line of a build log is shown. Meta lines about
//! other targets become `do` lines (followed, when recursive, by that
//! target's own log), `done` lines get their target renamed relative to the
//! top directory, and the script's own output is shown when details are
//! wanted, after a `resumed` line if other logs came in between.
use vstd::prelude::*;
use crate::builder::strs;
use crate::logs::{captures, captures_spec, kind_and_pid, meta_spec, parse_i32_or0};
use crate::paths::{or_empty, parent_of, path_parent, trim_end_char, trim_end_char_exec};
use crate::state::{opt_str, rel_path, relpath};
use crate::text::{
    append_slice, contains_chars, find, find_exec, from_chars, join, join_chars, lemma_find_from_props,
    lemma_seqs_push, occurs_at, seqs, slice_prefix, slice_range, split, split_chars, to_chars,
    trim_end, trim_end_chars, utf8_len, utf8_len_exec, lemma_utf8_len_bounds, all_digits,
    digits_value, is_digit, free_of, int_str, lemma_find_first, lemma_int_str_plain,
    lemma_parse_int_str,
};

verus! {

// ---------------------------------------------------------------------------
// Names
// ---------------------------------------------------------------------------

/// What `Path::strip_prefix` gives for `full` and `top`, as text.
pub uninterp spec fn path_strip_prefix(full: Seq<char>, top: Seq<char>) -> Option<Seq<char>>;

/// `Path::new(full).strip_prefix(top)`, read back as text. Its component
/// rules are not restated here; the result depends on the two paths alone.
#[verifier::external_body]
fn strip_prefix_of(full: &str, top: &str) -> (r: Option<String>)
    ensures
        opt_str(r) == path_strip_prefix(full@, top@),
{
    std::path::Path::new(full).strip_prefix(std::path::Path::new(top)).ok().map(
        |p| p.to_string_lossy().to_string(),
    )
}

/// `top/mydir/path`.
pub open spec fn full_name(top: Seq<char>, mydir: Seq<char>, path: Seq<char>) -> Seq<char> {
    top + "/"@ + mydir + "/"@ + path
}

/// The name of `mydir/path` as shown under the top directory: the part of
/// the full path after `top`, or else the relative path to it.
pub open spec fn rel_spec(top: Seq<char>, mydir: Seq<char>, path: Seq<char>) -> Seq<char> {
    let full = full_name(top, mydir, path);
    match path_strip_prefix(full, top) {
        Some(r) => r,
        None => rel_path(full, top),
    }
}

pub fn rel(top: &str, mydir: &str, path: &str) -> (r: String)
    ensures
        r@ == rel_spec(top@, mydir@, path@),
{
    let mut v = to_chars(top);
    let s = to_chars("/");
    append_slice(&mut v, s.as_slice());
    let d = to_chars(mydir);
    append_slice(&mut v, d.as_slice());
    append_slice(&mut v, s.as_slice());
    let p = to_chars(path);
    append_slice(&mut v, p.as_slice());
    let full = from_chars(v.as_slice());
    match strip_prefix_of(full.as_str(), top) {
        Some(r) => r,
        None => relpath(full.as_str(), top),
    }
}

/// One step of the lexical normalization `redo-log` uses to remember
/// names: empty and `.` pieces are dropped, `..` drops the last piece kept.
pub open spec fn fold_pieces(pieces: Seq<Seq<char>>) -> Seq<Seq<char>>
    decreases pieces.len(),
{
    if pieces.len() == 0 {
        Seq::empty()
    } else {
        let kept = fold_pieces(pieces.drop_last());
        let p = pieces.last();
        if p.len() == 0 || p == "."@ {
            kept
        } else if p == ".."@ {
            if kept.len() > 0 {
                kept.drop_last()
            } else {
                kept
            }
        } else {
            kept.push(p)
        }
    }
}

/// The remembered form of a path: its pieces folded, joined with `/`.
pub open spec fn log_norm(path: Seq<char>) -> Seq<char> {
    join(fold_pieces(split(path, '/')), "/"@)
}

fn is_lit(v: &[char], s: &str) -> (r: bool)
    ensures
        r == (v@ == s@),
{
    let c = to_chars(s);
    crate::text::eq_chars(v, c.as_slice())
}

pub fn log_normalize(path: &str) -> (r: String)
    ensures
        r@ == log_norm(path@),
{
    let pv = to_chars(path);
    let pieces = split_chars(pv.as_slice(), '/');
    let mut kept: Vec<Vec<char>> = Vec::new();
    let mut i: usize = 0;
    while i < pieces.len()
        invariant
            i <= pieces@.len(),
            seqs(kept@) == fold_pieces(seqs(pieces@).take(i as int)),
        decreases pieces@.len() - i,
    {
        let p = &pieces[i];
        assert(seqs(pieces@).take(i + 1).drop_last() =~= seqs(pieces@).take(i as int));
        assert(seqs(pieces@).take(i + 1).last() == p@);
        if p.len() == 0 || is_lit(p.as_slice(), ".") {
        } else if is_lit(p.as_slice(), "..") {
            if kept.len() > 0 {
                let ghost before = seqs(kept@);
                kept.pop();
                assert(seqs(kept@) =~= before.drop_last());
            }
        } else {
            let ghost before = kept@;
            let c = crate::text::copy_chars(p.as_slice());
            kept.push(c);
            proof {
                lemma_seqs_push(before, c);
            }
        }
        i = i + 1;
    }
    assert(seqs(pieces@).take(i as int) =~= seqs(pieces@));
    let sep = to_chars("/");
    let j = join_chars(&kept, sep.as_slice());
    from_chars(j.as_slice())
}

/// The target whose log a meta line names, seen from the directory of the
/// log being read.
pub open spec fn sub_target(mydir: Seq<char>, text: Seq<char>) -> Seq<char> {
    if mydir.len() == 0 {
        text
    } else {
        mydir + "/"@ + text
    }
}

fn sub_target_exec(mydir: &[char], text: &[char]) -> (r: Vec<char>)
    ensures
        r@ == sub_target(mydir@, text@),
{
    if mydir.len() == 0 {
        crate::text::copy_chars(text)
    } else {
        let mut v = crate::text::copy_chars(mydir);
        v.push('/');
        append_slice(&mut v, text);
        proof {
            reveal_strlit("/");
        }
        assert(v@ =~= mydir@ + "/"@ + text@);
        v
    }
}

// ---------------------------------------------------------------------------
// Reading a meta line
// ---------------------------------------------------------------------------

/// The kind, pid and text of a meta line (the text without its trailing
/// newlines).
pub open spec fn parse_redo_line_spec(line: Seq<char>) -> Option<(Seq<char>, i32, Seq<char>)> {
    match captures_spec(line) {
        None => None,
        Some((prefix, words, rest)) => match kind_and_pid(words) {
            None => None,
            Some((kind, pidtxt)) => Some(
                (kind, parse_i32_or0(pidtxt), trim_end_char(rest, '\n')),
            ),
        },
    }
}

pub fn parse_redo_line(line: &[char]) -> (r: Option<(Vec<char>, i32, Vec<char>)>)
    ensures
        match r {
            None => parse_redo_line_spec(line@) is None,
            Some((k, p, t)) => parse_redo_line_spec(line@) == Some((k@, p, t@)),
        },
{
    match captures(line) {
        None => None,
        Some((_prefix, words, rest)) => match crate::logs::kind_and_pid_chars(words.as_slice()) {
            None => None,
            Some((kind, pidtxt)) => {
                let pid = crate::logs::parse_i32_or0_chars(pidtxt.as_slice());
                let text = trim_end_char_exec(rest.as_slice(), '\n');
                Some((kind, pid, text))
            },
        },
    }
}

// ---------------------------------------------------------------------------
// Showing one line
// ---------------------------------------------------------------------------

/// The options of `redo-log` that decide how lines are shown.
pub struct CatlogOpts {
    pub recursive: bool,
    pub details: bool,
    pub unchanged: bool,
    pub debug_locks: bool,
}

/// Something to write while showing a line.
pub enum LogEmit {
    /// A meta line of this kind and text, from this pid.
    Meta { kind: String, text: String, pid: i32 },
    /// This text, written as a log line.
    Raw(String),
    /// A `resumed` meta line for the log being read, one level less
    /// indented.
    Resumed,
}

pub enum EmitView {
    Meta(Seq<char>, Seq<char>, i32),
    Raw(Seq<char>),
    Resumed,
}

impl View for LogEmit {
    type V = EmitView;

    open spec fn view(&self) -> EmitView {
        match self {
            LogEmit::Meta { kind, text, pid } => EmitView::Meta(kind@, text@, *pid),
            LogEmit::Raw(s) => EmitView::Raw(s@),
            LogEmit::Resumed => EmitView::Resumed,
        }
    }
}

pub open spec fn emit_views(v: Seq<LogEmit>) -> Seq<EmitView> {
    Seq::new(v.len(), |i: int| v[i]@)
}

/// What showing one complete line does: these writes, then (when set) the
/// log of `recurse`, whose line count is added to both counters, then
/// `remember` joins the names already shown.
pub struct LineOutcome {
    pub emits: Vec<LogEmit>,
    pub recurse: Option<String>,
    pub remember: Option<String>,
    pub lines: u64,
    pub interrupted: u64,
    pub reset_interrupted: bool,
}

pub struct OutcomeView {
    pub emits: Seq<EmitView>,
    pub recurse: Option<Seq<char>>,
    pub remember: Option<Seq<char>>,
    pub lines: int,
    pub interrupted: int,
    pub reset_interrupted: bool,
}

impl View for LineOutcome {
    type V = OutcomeView;

    open spec fn view(&self) -> OutcomeView {
        OutcomeView {
            emits: emit_views(self.emits@),
            recurse: opt_str(self.recurse),
            remember: opt_str(self.remember),
            lines: self.lines as int,
            interrupted: self.interrupted as int,
            reset_interrupted: self.reset_interrupted,
        }
    }
}

/// How a line of a log is shown. `already` holds the names shown so far;
/// `interrupted` counts the lines of other logs since the script's own
/// output was last shown.
pub open spec fn line_spec(
    line: Seq<char>,
    topdir: Seq<char>,
    mydir: Seq<char>,
    already: Seq<Seq<char>>,
    o: CatlogOpts,
    interrupted: int,
) -> OutcomeView {
    match parse_redo_line_spec(line) {
        Some((kind, pid, text)) => {
            let relname = rel_spec(topdir, mydir, text);
            let fixname = log_norm(mydir + "/"@ + text);
            let seen = already.contains(fixname);
            let sub = sub_target(mydir, text);
            if kind == "unchanged"@ {
                if o.unchanged {
                    OutcomeView {
                        emits: if o.debug_locks {
                            seq![EmitView::Meta(kind, relname, pid)]
                        } else if !seen {
                            seq![EmitView::Meta("do"@, relname, pid)]
                        } else {
                            Seq::empty()
                        },
                        recurse: if o.recursive {
                            Some(sub)
                        } else {
                            None
                        },
                        remember: Some(fixname),
                        lines: 0,
                        interrupted: 0,
                        reset_interrupted: false,
                    }
                } else {
                    OutcomeView {
                        emits: Seq::empty(),
                        recurse: None,
                        remember: Some(fixname),
                        lines: 0,
                        interrupted: 0,
                        reset_interrupted: false,
                    }
                }
            } else if kind == "do"@ || kind == "waiting"@ || kind == "locked"@ || kind
                == "unlocked"@ {
                let shown = o.debug_locks || !seen;
                OutcomeView {
                    emits: if o.debug_locks {
                        seq![EmitView::Meta(kind, relname, pid), EmitView::Raw(trim_end(line))]
                    } else if !seen {
                        seq![EmitView::Meta("do"@, relname, pid)]
                    } else {
                        Seq::empty()
                    },
                    recurse: if o.recursive {
                        Some(sub)
                    } else {
                        None
                    },
                    remember: Some(fixname),
                    lines: if shown {
                        1
                    } else {
                        0
                    },
                    interrupted: if shown {
                        1
                    } else {
                        0
                    },
                    reset_interrupted: false,
                }
            } else if kind == "done"@ {
                match find(text, " "@) {
                    Some(sp) => OutcomeView {
                        emits: seq![
                            EmitView::Meta(
                                kind,
                                text.take(sp) + " "@ + rel_spec(topdir, mydir, text.skip(sp + 1)),
                                pid,
                            ),
                        ],
                        recurse: None,
                        remember: None,
                        lines: 1,
                        interrupted: 0,
                        reset_interrupted: false,
                    },
                    None => OutcomeView {
                        emits: Seq::empty(),
                        recurse: None,
                        remember: None,
                        lines: 0,
                        interrupted: 0,
                        reset_interrupted: false,
                    },
                }
            } else {
                OutcomeView {
                    emits: seq![EmitView::Raw(trim_end(line))],
                    recurse: None,
                    remember: None,
                    lines: 1,
                    interrupted: 0,
                    reset_interrupted: false,
                }
            }
        },
        None => if o.details {
            OutcomeView {
                emits: if interrupted > 0 {
                    seq![EmitView::Resumed, EmitView::Raw(trim_end(line))]
                } else {
                    seq![EmitView::Raw(trim_end(line))]
                },
                recurse: None,
                remember: None,
                lines: 1,
                interrupted: 0,
                reset_interrupted: interrupted > 0,
            }
        } else {
            OutcomeView {
                emits: Seq::empty(),
                recurse: None,
                remember: None,
                lines: 0,
                interrupted: 0,
                reset_interrupted: false,
            }
        },
    }
}

fn meta_emit(kind: &[char], text: &str, pid: i32) -> (r: LogEmit)
    ensures
        r@ == EmitView::Meta(kind@, text@, pid),
{
    LogEmit::Meta { kind: from_chars(kind), text: String::from_str(text), pid }
}

fn raw_line(line: &[char]) -> (r: LogEmit)
    ensures
        r@ == EmitView::Raw(trim_end(line@)),
{
    let t = trim_end_chars(line);
    LogEmit::Raw(from_chars(t.as_slice()))
}

fn no_outcome() -> (r: LineOutcome)
    ensures
        r@.emits == Seq::<EmitView>::empty(),
        r@.recurse is None,
        r@.remember is None,
        r@.lines == 0,
        r@.interrupted == 0,
        !r@.reset_interrupted,
{
    let v: Vec<LogEmit> = Vec::new();
    assert(emit_views(v@) =~= Seq::empty());
    LineOutcome { emits: v, recurse: None, remember: None, lines: 0, interrupted: 0, reset_interrupted: false }
}

/// Decides how the complete line `line` of a log in directory `mydir` is
/// shown (see `line_spec`).
pub fn catlog_line(
    line: &str,
    topdir: &str,
    mydir: &str,
    already: &Vec<String>,
    o: &CatlogOpts,
    interrupted: u64,
) -> (r: LineOutcome)
    ensures
        r@ == line_spec(line@, topdir@, mydir@, strs(already@), *o, interrupted as int),
{
    let lv = to_chars(line);
    let md = to_chars(mydir);
    proof {
        reveal_strlit("/");
        reveal_strlit(" ");
    }
    match parse_redo_line(lv.as_slice()) {
        Some((kind, pid, text)) => {
            let ts = from_chars(text.as_slice());
            let relname = rel(topdir, mydir, ts.as_str());
            let mut fv = crate::text::copy_chars(md.as_slice());
            fv.push('/');
            append_slice(&mut fv, text.as_slice());
            assert(fv@ =~= mydir@ + "/"@ + text@);
            let fs = from_chars(fv.as_slice());
            let fixname = log_normalize(fs.as_str());
            let seen_v = crate::builder::strings_as_chars(already);
            let fx = to_chars(fixname.as_str());
            let seen = contains_chars(&seen_v, fx.as_slice());
            let subv = sub_target_exec(md.as_slice(), text.as_slice());
            let sub = from_chars(subv.as_slice());
            if is_lit(kind.as_slice(), "unchanged") {
                if o.unchanged {
                    let mut emits: Vec<LogEmit> = Vec::new();
                    if o.debug_locks {
                        emits.push(meta_emit(kind.as_slice(), relname.as_str(), pid));
                    } else if !seen {
                        let dk = to_chars("do");
                        emits.push(meta_emit(dk.as_slice(), relname.as_str(), pid));
                    }
                    proof {
                        assert(emit_views(emits@) =~= if o.debug_locks {
                            seq![EmitView::Meta(kind@, relname@, pid)]
                        } else if !seen {
                            seq![EmitView::Meta("do"@, relname@, pid)]
                        } else {
                            Seq::empty()
                        });
                    }
                    LineOutcome {
                        emits,
                        recurse: if o.recursive {
                            Some(sub)
                        } else {
                            None
                        },
                        remember: Some(fixname),
                        lines: 0,
                        interrupted: 0,
                        reset_interrupted: false,
                    }
                } else {
                    let v: Vec<LogEmit> = Vec::new();
                    assert(emit_views(v@) =~= Seq::empty());
                    LineOutcome {
                        emits: v,
                        recurse: None,
                        remember: Some(fixname),
                        lines: 0,
                        interrupted: 0,
                        reset_interrupted: false,
                    }
                }
            } else if is_lit(kind.as_slice(), "do") || is_lit(kind.as_slice(), "waiting") || is_lit(
                kind.as_slice(),
                "locked",
            ) || is_lit(kind.as_slice(), "unlocked") {
                let shown = o.debug_locks || !seen;
                let mut emits: Vec<LogEmit> = Vec::new();
                if o.debug_locks {
                    emits.push(meta_emit(kind.as_slice(), relname.as_str(), pid));
                    emits.push(raw_line(lv.as_slice()));
                } else if !seen {
                    let dk = to_chars("do");
                    emits.push(meta_emit(dk.as_slice(), relname.as_str(), pid));
                }
                proof {
                    assert(emit_views(emits@) =~= if o.debug_locks {
                        seq![EmitView::Meta(kind@, relname@, pid), EmitView::Raw(trim_end(line@))]
                    } else if !seen {
                        seq![EmitView::Meta("do"@, relname@, pid)]
                    } else {
                        Seq::empty()
                    });
                }
                LineOutcome {
                    emits,
                    recurse: if o.recursive {
                        Some(sub)
                    } else {
                        None
                    },
                    remember: Some(fixname),
                    lines: if shown {
                        1
                    } else {
                        0
                    },
                    interrupted: if shown {
                        1
                    } else {
                        0
                    },
                    reset_interrupted: false,
                }
            } else if is_lit(kind.as_slice(), "done") {
                let space = to_chars(" ");
                let n = text.len();
                match find_exec(text.as_slice(), space.as_slice()) {
                    Some(sp) => {
                        proof {
                            lemma_find_from_props(text@, space@, 0);
                            assert(occurs_at(text@, space@, sp as int));
                        }
                        let rv = slice_prefix(text.as_slice(), sp);
                        let name = slice_range(text.as_slice(), sp + 1, n);
                        assert(name@ =~= text@.skip(sp + 1));
                        let ns = from_chars(name.as_slice());
                        let rn = rel(topdir, mydir, ns.as_str());
                        let mut t2 = rv;
                        t2.push(' ');
                        let rnv = to_chars(rn.as_str());
                        append_slice(&mut t2, rnv.as_slice());
                        let t2s = from_chars(t2.as_slice());
                        let mut emits: Vec<LogEmit> = Vec::new();
                        emits.push(meta_emit(kind.as_slice(), t2s.as_str(), pid));
                        proof {
                            assert(t2s@ =~= text@.take(sp as int) + " "@ + rel_spec(
                                topdir@,
                                mydir@,
                                text@.skip(sp + 1),
                            ));
                            assert(emit_views(emits@) =~= seq![
                                EmitView::Meta(
                                    kind@,
                                    text@.take(sp as int) + " "@ + rel_spec(
                                        topdir@,
                                        mydir@,
                                        text@.skip(sp + 1),
                                    ),
                                    pid,
                                ),
                            ]);
                        }
                        LineOutcome {
                            emits,
                            recurse: None,
                            remember: None,
                            lines: 1,
                            interrupted: 0,
                            reset_interrupted: false,
                        }
                    },
                    None => no_outcome(),
                }
            } else {
                let mut emits: Vec<LogEmit> = Vec::new();
                emits.push(raw_line(lv.as_slice()));
                assert(emit_views(emits@) =~= seq![EmitView::Raw(trim_end(line@))]);
                LineOutcome {
                    emits,
                    recurse: None,
                    remember: None,
                    lines: 1,
                    interrupted: 0,
                    reset_interrupted: false,
                }
            }
        },
        None => {
            if o.details {
                let mut emits: Vec<LogEmit> = Vec::new();
                if interrupted > 0 {
                    emits.push(LogEmit::Resumed);
                }
                emits.push(raw_line(lv.as_slice()));
                assert(emit_views(emits@) =~= if interrupted > 0 {
                    seq![EmitView::Resumed, EmitView::Raw(trim_end(line@))]
                } else {
                    seq![EmitView::Raw(trim_end(line@))]
                });
                LineOutcome {
                    emits,
                    recurse: None,
                    remember: None,
                    lines: 1,
                    interrupted: 0,
                    reset_interrupted: interrupted > 0,
                }
            } else {
                no_outcome()
            }
        },
    }
}

// ---------------------------------------------------------------------------
// The status line, the width, the indent
// ---------------------------------------------------------------------------

/// The names of the chain of logs being followed, innermost first, as far
/// as they fit: `tail_from(depth, head_len, width, k)` builds the tail from
/// the `k` outermost entries of the reversed walk.
pub open spec fn status_tail(depth: Seq<Seq<char>>, head_len: int, width: int, i: int, tail: Seq<char>) -> Seq<char>
    decreases i,
{
    if i <= 0 {
        tail
    } else {
        let n = depth[i - 1];
        let t2 = if n != "-"@ {
            if tail.len() == 0 {
                n
            } else {
                n + " "@ + tail
            }
        } else {
            tail
        };
        if head_len + utf8_len(t2) >= width {
            t2
        } else {
            status_tail(depth, head_len, width, i - 1, t2)
        }
    }
}

/// The status line `redo-log --follow` shows: `redo N ` and the names of
/// the logs being followed, from the innermost outwards, while they fit in
/// `width` bytes.
pub open spec fn status_line_spec(lines: u64, depth: Seq<Seq<char>>, width: int) -> Seq<char> {
    let head = "redo "@ + crate::text::int_str(lines as int) + " "@;
    head + status_tail(depth, utf8_len(head) as int, width, depth.len() as int, Seq::empty())
}

pub fn status_line(lines: u64, depth: &Vec<String>, width: usize) -> (r: String)
    ensures
        r@ == status_line_spec(lines, strs(depth@), width as int),
{
    let mut head = to_chars("redo ");
    let n = crate::text::u64_chars(lines);
    append_slice(&mut head, n.as_slice());
    head.push(' ');
    proof {
        reveal_strlit("redo ");
        reveal_strlit(" ");
    }
    assert(head@ =~= "redo "@ + crate::text::int_str(lines as int) + " "@);
    let hl = utf8_len_exec(head.as_slice());
    proof {
        lemma_utf8_len_bounds(head@);
    }
    let ghost ds = strs(depth@);
    let mut tail: Vec<char> = Vec::new();
    let mut i: usize = depth.len();
    while i > 0
        invariant
            i <= depth@.len(),
            ds == strs(depth@),
            head@ == "redo "@ + crate::text::int_str(lines as int) + " "@,
            hl == utf8_len(head@),
            status_tail(ds, hl as int, width as int, depth@.len() as int, Seq::empty())
                == status_tail(ds, hl as int, width as int, i as int, tail@),
        decreases i,
    {
        proof {
            reveal_strlit(" ");
            reveal_strlit("-");
        }
        let ghost old_tail = tail@;
        let nm = to_chars(depth[i - 1].as_str());
        assert(nm@ == ds[i - 1]);
        let t2: Vec<char> = if !is_lit(nm.as_slice(), "-") {
            if tail.len() == 0 {
                nm
            } else {
                let mut x = nm;
                x.push(' ');
                append_slice(&mut x, tail.as_slice());
                assert(x@ =~= ds[i - 1] + " "@ + tail@);
                x
            }
        } else {
            tail
        };
        let tl = utf8_len_exec(t2.as_slice());
        proof {
            lemma_utf8_len_bounds(t2@);
        }
        tail = t2;
        assert(tail@ == (if ds[i - 1] != "-"@ {
            if old_tail.len() == 0 {
                ds[i - 1]
            } else {
                ds[i - 1] + " "@ + old_tail
            }
        } else {
            old_tail
        }));
        if tl >= width as u128 || hl >= width as u128 - tl {
            assert(status_tail(ds, hl as int, width as int, i as int, old_tail) == tail@);
            let mut r = head;
            append_slice(&mut r, tail.as_slice());
            return from_chars(r.as_slice());
        }
        i = i - 1;
    }
    let mut r = head;
    append_slice(&mut r, tail.as_slice());
    from_chars(r.as_slice())
}

/// `str::parse::<usize>`: an optional `+`, then one or more decimal digits
/// whose value fits.
pub open spec fn parse_usize_spec(s: Seq<char>) -> Option<usize> {
    let d = if s.len() > 0 && s[0] == '+' {
        s.drop_first()
    } else {
        s
    };
    if d.len() == 0 || !all_digits(d) || digits_value(d) > usize::MAX {
        None
    } else {
        Some(digits_value(d) as usize)
    }
}

fn parse_usize_exec(s: &[char]) -> (r: Option<usize>)
    ensures
        r == parse_usize_spec(s@),
{
    let start: usize = if s.len() > 0 && s[0] == '+' {
        1
    } else {
        0
    };
    let n = s.len();
    let d = slice_range(s, start, n);
    assert(d@ =~= if s@.len() > 0 && s@[0] == '+' {
        s@.drop_first()
    } else {
        s@
    });
    if d.len() == 0 {
        return None;
    }
    let mut v: usize = 0;
    let mut i: usize = 0;
    while i < d.len()
        invariant
            i <= d@.len(),
            d@ == if s@.len() > 0 && s@[0] == '+' {
                s@.drop_first()
            } else {
                s@
            },
            all_digits(d@.take(i as int)),
            v == digits_value(d@.take(i as int)),
        decreases d@.len() - i,
    {
        let c = d[i];
        assert(d@.take(i + 1).drop_last() =~= d@.take(i as int));
        assert(d@.take(i + 1).last() == c);
        if !('0' <= c && c <= '9') {
            assert(!is_digit(d@[i as int]));
            assert(!all_digits(d@));
            return None;
        }
        let dv = (c as u32 - 48) as usize;
        assert(digits_value(d@.take(i + 1)) == v * 10 + dv);
        if v > (usize::MAX - dv) / 10 {
            assert(v * 10 + dv > usize::MAX) by (nonlinear_arith)
                requires
                    v > (usize::MAX - dv) / 10,
                    dv <= 9,
            ;
            proof {
                if all_digits(d@) {
                    lemma_digits_prefix_bound(d@, i as int + 1);
                }
            }
            return None;
        }
        assert(v * 10 + dv <= usize::MAX) by (nonlinear_arith)
            requires
                v <= (usize::MAX - dv) / 10,
                dv <= 9,
        ;
        v = v * 10 + dv;
        assert forall|j: int| 0 <= j < i + 1 implies is_digit(#[trigger] d@.take(i + 1)[j]) by {
            if j < i {
                assert(d@.take(i + 1)[j] == d@.take(i as int)[j]);
            }
        }
        i = i + 1;
    }
    assert(d@.take(i as int) =~= d@);
    Some(v)
}

/// The value of a digit string is at least that of any of its prefixes.
pub proof fn lemma_digits_prefix_bound(d: Seq<char>, k: int)
    requires
        0 <= k <= d.len(),
        all_digits(d),
    ensures
        digits_value(d.take(k)) <= digits_value(d),
    decreases d.len() - k,
{
    if k < d.len() {
        lemma_digits_prefix_bound(d, k + 1);
        assert(d.take(k + 1).drop_last() =~= d.take(k));
        crate::text::lemma_digits_value_nonneg(d.take(k));
        assert(is_digit(d[k]));
    } else {
        assert(d.take(k) =~= d);
    }
}

/// The width of the terminal: its column count when known, else the
/// number in `WIDTH`, else 70.
pub fn width_from(ws_col: u16, width_env: Option<&str>) -> (r: usize)
    ensures
        r == if ws_col > 0 {
            ws_col as usize
        } else {
            match width_env {
                Some(w) => match parse_usize_spec(w@) {
                    Some(n) => n,
                    None => 70,
                },
                None => 70,
            }
        },
{
    if ws_col > 0 {
        ws_col as usize
    } else {
        match width_env {
            Some(w) => {
                let wv = to_chars(w);
                match parse_usize_exec(wv.as_slice()) {
                    Some(n) => n,
                    None => 70,
                }
            },
            None => 70,
        }
    }
}

/// Whether `--status` is shown: not off a terminal unless forced with a
/// count of 2 or more.
pub fn show_status(status_count: i64, status_on: bool, is_tty: bool) -> (r: bool)
    ensures
        r == if status_count < 2 && !is_tty {
            false
        } else {
            status_on
        },
{
    if status_count < 2 && !is_tty {
        false
    } else {
        status_on
    }
}

/// Two spaces of indent per level.
pub open spec fn indent(n: nat) -> Seq<char> {
    Seq::new(2 * n, |i: int| ' ')
}

pub fn depth_indent(n: usize) -> (r: String)
    requires
        2 * n <= usize::MAX,
    ensures
        r@ == indent(n as nat),
{
    let mut v: Vec<char> = Vec::new();
    let mut i: usize = 0;
    while i < n
        invariant
            i <= n,
            2 * n <= usize::MAX,
            v@ == indent(i as nat),
        decreases n - i,
    {
        v.push(' ');
        v.push(' ');
        assert(v@ =~= indent((i + 1) as nat));
        i = i + 1;
    }
    from_chars(v.as_slice())
}

// ---------------------------------------------------------------------------
// Laws
// ---------------------------------------------------------------------------

/// In a text whose first `n` characters avoid the pattern's first
/// character, the pattern occurs nowhere before `n`.
proof fn lemma_no_early(s: Seq<char>, pat: Seq<char>, n: int)
    requires
        pat.len() > 0,
        n <= s.len(),
        forall|j: int| 0 <= j < n ==> s[j] != pat[0],
    ensures
        forall|j: int| 0 <= j < n ==> !occurs_at(s, pat, j),
{
    assert forall|j: int| 0 <= j < n implies !occurs_at(s, pat, j) by {
        if occurs_at(s, pat, j) {
            assert(s.subrange(j, j + pat.len())[0] == s[j]);
        }
    }
}

/// What a process writes as a meta line, `redo-log` reads back: its kind,
/// its pid and its text. (The kind holds no `:` or `@`, the text no
/// newline, the time no `@`.)
pub proof fn law_meta_read_back(kind: Seq<char>, s: Seq<char>, pid: i32, now: Seq<char>)
    requires
        free_of(kind, ':'),
        free_of(kind, '@'),
        free_of(s, '\n'),
        free_of(now, '@'),
    ensures
        parse_redo_line_spec(meta_spec(kind, s, pid, now)) == Some((kind, pid, s)),
{
    reveal_strlit("@@REDO:");
    reveal_strlit(":");
    reveal_strlit("@@ ");
    let ps = int_str(pid as int);
    lemma_int_str_plain(pid as int);
    let line = meta_spec(kind, s, pid, now);
    let open = "@@REDO:"@;
    assert(line.subrange(0, 7) =~= open);
    lemma_find_first(line, open, 0);
    let rest = line.skip(7);
    assert(rest =~= kind + seq![':'] + ps + seq![':'] + now + "@@ "@ + s);
    let p: int = (kind.len() + 1 + ps.len() + 1 + now.len()) as int;
    let close = "@@ "@;
    assert(rest.subrange(p, p + 3) =~= close);
    assert forall|j: int| 0 <= j < p implies rest[j] != close[0] by {
        if j < kind.len() {
            assert(rest[j] == kind[j]);
        } else if j == kind.len() {
        } else if j < kind.len() + 1 + ps.len() {
            assert(rest[j] == ps[j - kind.len() - 1]);
        } else if j == kind.len() + 1 + ps.len() {
        } else {
            assert(rest[j] == now[j - kind.len() - 2 - ps.len()]);
        }
    }
    lemma_no_early(rest, close, p);
    lemma_find_first(rest, close, p);
    let words = rest.take(p);
    assert(words =~= kind + seq![':'] + ps + seq![':'] + now);
    assert(rest.skip(p + 3) =~= s);
    assert(line.take(0) =~= Seq::<char>::empty());
    let colon = ":"@;
    assert(words.subrange(kind.len() as int, kind.len() as int + 1) =~= colon);
    assert forall|j: int| 0 <= j < kind.len() implies words[j] != colon[0] by {
        assert(words[j] == kind[j]);
    }
    lemma_no_early(words, colon, kind.len() as int);
    lemma_find_first(words, colon, kind.len() as int);
    let after = words.skip(kind.len() as int + 1);
    assert(after =~= ps + seq![':'] + now);
    assert(after.subrange(ps.len() as int, ps.len() as int + 1) =~= colon);
    assert forall|j: int| 0 <= j < ps.len() implies after[j] != colon[0] by {
        assert(after[j] == ps[j]);
    }
    lemma_no_early(after, colon, ps.len() as int);
    lemma_find_first(after, colon, ps.len() as int);
    assert(words.take(kind.len() as int) =~= kind);
    assert(after.take(ps.len() as int) =~= ps);
    lemma_parse_int_str(pid as i64);
    if s.len() > 0 {
        assert(s.last() != '\n');
    }
}

// ---------------------------------------------------------------------------
// Reading a log: joining pieces into lines, and the logs being shown
// ---------------------------------------------------------------------------

/// What a piece read from a log gives, after the unfinished line `head`: a
/// piece that ends a line completes `head + piece`, and the next line starts
/// empty; any other piece is kept for the next read.
pub open spec fn join_piece_spec(head: Seq<char>, piece: Seq<char>) -> (Option<Seq<char>>, Seq<char>) {
    if piece.len() > 0 && piece.last() == '\n' {
        (Some(head + piece), Seq::empty())
    } else {
        (None, head + piece)
    }
}

/// Joins the piece `piece` to the unfinished line `head` (see
/// `join_piece_spec`): gives the completed line, if any, and the new head.
pub fn join_piece(head: &str, piece: &str) -> (r: (Option<String>, String))
    ensures
        (opt_str(r.0), r.1@) == join_piece_spec(head@, piece@),
{
    let mut v = to_chars(head);
    let p = to_chars(piece);
    append_slice(&mut v, p.as_slice());
    let joined = from_chars(v.as_slice());
    if p.len() > 0 && p[p.len() - 1] == '\n' {
        (Some(joined), String::new())
    } else {
        (None, joined)
    }
}

/// What is left at the end of a log: an unfinished last line is still
/// shown.
pub fn leftover_line(head: &str) -> (r: Option<String>)
    ensures
        opt_str(r) == if head@.len() > 0 {
            Some(head@)
        } else {
            None::<Seq<char>>
        },
{
    let v = to_chars(head);
    if v.len() == 0 {
        None
    } else {
        Some(String::from_str(head))
    }
}

/// The names already shown, which are not shown again, and the chain of
/// logs being shown, outermost first.
pub struct ShownLogs {
    pub already: Vec<String>,
    pub depth: Vec<String>,
}

impl ShownLogs {
    pub fn new() -> (r: ShownLogs)
        ensures
            r.already@.len() == 0,
            r.depth@.len() == 0,
    {
        ShownLogs { already: Vec::new(), depth: Vec::new() }
    }

    /// Remembers that `name` was shown (once).
    pub fn remember(&mut self, name: &str)
        ensures
            strs(final(self).already@) == if strs(old(self).already@).contains(name@) {
                strs(old(self).already@)
            } else {
                strs(old(self).already@).push(name@)
            },
            final(self).depth@ == old(self).depth@,
    {
        let seen = crate::builder::strings_as_chars(&self.already);
        let n = to_chars(name);
        if !contains_chars(&seen, n.as_slice()) {
            let ghost before = self.already@;
            let x = String::from_str(name);
            self.already.push(x);
            proof {
                crate::builder::lemma_strs_push(before, x);
            }
        }
    }

    /// Starts showing the log of `t`: nothing is shown (`false`) when it
    /// was shown already; otherwise `t` is remembered and, unless it is
    /// standard input (`-`), entered into the chain.
    pub fn enter(&mut self, t: &str) -> (r: bool)
        ensures
            r == !strs(old(self).already@).contains(t@),
            strs(final(self).already@) == if r {
                strs(old(self).already@).push(t@)
            } else {
                strs(old(self).already@)
            },
            strs(final(self).depth@) == if r && t@ != "-"@ {
                strs(old(self).depth@).push(t@)
            } else {
                strs(old(self).depth@)
            },
    {
        let seen = crate::builder::strings_as_chars(&self.already);
        let tv = to_chars(t);
        if contains_chars(&seen, tv.as_slice()) {
            return false;
        }
        let dash = to_chars("-");
        if !crate::text::eq_chars(tv.as_slice(), dash.as_slice()) {
            let ghost before = self.depth@;
            let x = String::from_str(t);
            self.depth.push(x);
            proof {
                crate::builder::lemma_strs_push(before, x);
            }
        }
        let ghost before = self.already@;
        let y = String::from_str(t);
        self.already.push(y);
        proof {
            crate::builder::lemma_strs_push(before, y);
        }
        true
    }

    /// Ends showing the log of `t`, the innermost of the chain (standard
    /// input never entered it).
    pub fn leave(&mut self, t: &str)
        requires
            t@ != "-"@ ==> old(self).depth@.len() > 0 && old(self).depth@.last()@ == t@,
        ensures
            final(self).already@ == old(self).already@,
            final(self).depth@ == if t@ != "-"@ {
                old(self).depth@.drop_last()
            } else {
                old(self).depth@
            },
    {
        let tv = to_chars(t);
        let dash = to_chars("-");
        if !crate::text::eq_chars(tv.as_slice(), dash.as_slice()) {
            self.depth.pop();
        }
    }
}


/// The directory of the log's target `t`, against which the names in its
/// log are read (empty when `t` has none).
pub fn log_dir(t: &str) -> (r: String)
    ensures
        r@ == or_empty(path_parent(t@)),
{
    match parent_of(t) {
        Some(p) => p,
        None => String::new(),
    }
}

} // verus!
