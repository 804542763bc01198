//! Log lines. Every message a redo process reports is a "meta" line,
//! `@@REDO:kind:pid:time@@ text`, which the top-level process either passes
//! on unchanged or renders for a terminal, with colours where wanted.
use vstd::prelude::*;
use crate::env::Env;
use crate::text::{
    append_slice, find, find_exec, free_of, from_chars, i64_chars, int_str, lemma_find_from_props,
    occurs_at, parse_i64, parse_i64_chars, slice_prefix, slice_range, to_chars, trim_end,
    trim_end_chars, eq_chars,
};

verus! {

/// How log lines are written: as they are, or rendered for people.
#[derive(PartialEq, Eq, Structural, Debug, Clone, Copy)]
pub enum LogMode {
    Raw,
    Pretty,
}

/// The escape sequences used to colour rendered lines (all empty when
/// colour is off).
pub struct Colors {
    pub red: String,
    pub green: String,
    pub yellow: String,
    pub bold: String,
    pub plain: String,
}

pub open spec fn esc(code: Seq<char>) -> Seq<char> {
    seq!['\x1b', '['] + code + seq!['m']
}

pub open spec fn colors_on(c: Colors) -> bool {
    &&& c.red@ == esc("31"@)
    &&& c.green@ == esc("32"@)
    &&& c.yellow@ == esc("33"@)
    &&& c.bold@ == esc("1"@)
    &&& c.plain@ == esc(""@)
}

pub open spec fn colors_off(c: Colors) -> bool {
    &&& c.red@.len() == 0
    &&& c.green@.len() == 0
    &&& c.yellow@.len() == 0
    &&& c.bold@.len() == 0
    &&& c.plain@.len() == 0
}

/// Colour is used when asked for (`color` nonzero) on a terminal whose
/// `TERM` is not `dumb`, or always when `color` is 2 or more.
pub open spec fn wants_color(is_tty: bool, term: Seq<char>, color: i64) -> bool {
    (color != 0 && (is_tty && term != "dumb"@)) || color >= 2
}

fn esc_string(code: &str) -> (r: String)
    ensures
        r@ == esc(code@),
{
    let mut v: Vec<char> = vec!['\x1b', '['];
    let c = to_chars(code);
    append_slice(&mut v, c.as_slice());
    v.push('m');
    assert(v@ =~= esc(code@));
    from_chars(v.as_slice())
}

/// The colours for a terminal (`is_tty`) of type `term`.
pub fn check_tty(is_tty: bool, term: &str, color: i64) -> (r: Colors)
    ensures
        wants_color(is_tty, term@, color) ==> colors_on(r),
        !wants_color(is_tty, term@, color) ==> colors_off(r),
{
    let t = to_chars(term);
    let dumb = to_chars("dumb");
    let color_ok = is_tty && !eq_chars(t.as_slice(), dumb.as_slice());
    if (color != 0 && color_ok) || color >= 2 {
        Colors {
            red: esc_string("31"),
            green: esc_string("32"),
            yellow: esc_string("33"),
            bold: esc_string("1"),
            plain: esc_string(""),
        }
    } else {
        proof {
            reveal_strlit("");
        }
        Colors {
            red: String::from_str(""),
            green: String::from_str(""),
            yellow: String::from_str(""),
            bold: String::from_str(""),
            plain: String::from_str(""),
        }
    }
}

/// How this process writes its log lines.
pub struct LogConfig {
    pub mode: LogMode,
    pub to_stdout: bool,
    pub colors: Colors,
}

/// Chooses the log mode: lines are rendered when `pretty` is asked for and
/// no parent process collects them; they go to stdout unless the terminal
/// is stderr. `is_tty` says whether that stream is a terminal.
pub fn log_setup(
    tty_is_stderr: bool,
    parent_logs: bool,
    pretty: i64,
    color: i64,
    is_tty: bool,
    term: &str,
) -> (r: LogConfig)
    ensures
        r.mode == (if pretty != 0 && !parent_logs {
            LogMode::Pretty
        } else {
            LogMode::Raw
        }),
        r.to_stdout == !tty_is_stderr,
        r.mode == LogMode::Pretty ==> (wants_color(is_tty, term@, color) ==> colors_on(r.colors)),
        r.mode == LogMode::Pretty ==> (!wants_color(is_tty, term@, color) ==> colors_off(
            r.colors,
        )),
        r.mode == LogMode::Raw ==> colors_off(r.colors),
{
    if pretty != 0 && !parent_logs {
        LogConfig { mode: LogMode::Pretty, to_stdout: !tty_is_stderr, colors: check_tty(is_tty, term, color) }
    } else {
        LogConfig { mode: LogMode::Raw, to_stdout: !tty_is_stderr, colors: check_tty(false, term, 0) }
    }
}

// ---------------------------------------------------------------------------
// Meta lines
// ---------------------------------------------------------------------------

/// `@@REDO:kind:pid:time@@ s`.
pub open spec fn meta_spec(kind: Seq<char>, s: Seq<char>, pid: i32, now: Seq<char>) -> Seq<char> {
    "@@REDO:"@ + kind + ":"@ + int_str(pid as int) + ":"@ + now + "@@ "@ + s
}

/// The meta line of kind `kind` with text `s` from process `pid` at time
/// `now` (seconds since the epoch, written with four decimals).
pub fn meta(kind: &str, s: &str, pid: i32, now: &str) -> (r: String)
    requires
        free_of(kind@, ':'),
        free_of(kind@, '@'),
        free_of(s@, '\n'),
    ensures
        r@ == meta_spec(kind@, s@, pid, now@),
{
    let mut v = to_chars("@@REDO:");
    let k = to_chars(kind);
    append_slice(&mut v, k.as_slice());
    let colon = to_chars(":");
    append_slice(&mut v, colon.as_slice());
    let p = i64_chars(pid as i64);
    append_slice(&mut v, p.as_slice());
    append_slice(&mut v, colon.as_slice());
    let n = to_chars(now);
    append_slice(&mut v, n.as_slice());
    let mark = to_chars("@@ ");
    append_slice(&mut v, mark.as_slice());
    let t = to_chars(s);
    append_slice(&mut v, t.as_slice());
    from_chars(v.as_slice())
}

fn meta_trimmed(kind: &str, s: &str, pid: i32, now: &str) -> (r: String)
    requires
        free_of(kind@, ':'),
        free_of(kind@, '@'),
        free_of(trim_end(s@), '\n'),
    ensures
        r@ == meta_spec(kind@, trim_end(s@), pid, now@),
{
    let c = to_chars(s);
    let t = trim_end_chars(c.as_slice());
    let ts = from_chars(t.as_slice());
    meta(kind, ts.as_str(), pid, now)
}

/// An error message: its text without trailing whitespace, as an `error`
/// meta line.
pub fn err(s: &str, pid: i32, now: &str) -> (r: String)
    requires
        free_of(trim_end(s@), '\n'),
    ensures
        r@ == meta_spec("error"@, trim_end(s@), pid, now@),
{
    proof {
        reveal_strlit("error");
    }
    meta_trimmed("error", s, pid, now)
}

/// A warning, as a `warning` meta line.
pub fn warn(s: &str, pid: i32, now: &str) -> (r: String)
    requires
        free_of(trim_end(s@), '\n'),
    ensures
        r@ == meta_spec("warning"@, trim_end(s@), pid, now@),
{
    proof {
        reveal_strlit("warning");
    }
    meta_trimmed("warning", s, pid, now)
}

fn debug_at(min_level: i64, level: i64, s: &str, pid: i32, now: &str) -> (r: Option<String>)
    requires
        level >= min_level ==> free_of(trim_end(s@), '\n'),
    ensures
        level >= min_level ==> (r matches Some(m) && m@ == meta_spec("debug"@, trim_end(s@), pid, now@)),
        level < min_level ==> r is None,
{
    if level >= min_level {
        proof {
            reveal_strlit("debug");
        }
        Some(meta_trimmed("debug", s, pid, now))
    } else {
        None
    }
}

/// A debug message, written when the debug level is at least 1.
pub fn debug(level: i64, s: &str, pid: i32, now: &str) -> (r: Option<String>)
    requires
        level >= 1 ==> free_of(trim_end(s@), '\n'),
    ensures
        level >= 1 ==> (r matches Some(m) && m@ == meta_spec("debug"@, trim_end(s@), pid, now@)),
        level < 1 ==> r is None,
{
    debug_at(1, level, s, pid, now)
}

/// A debug message, written when the debug level is at least 2.
pub fn debug2(level: i64, s: &str, pid: i32, now: &str) -> (r: Option<String>)
    requires
        level >= 2 ==> free_of(trim_end(s@), '\n'),
    ensures
        level >= 2 ==> (r matches Some(m) && m@ == meta_spec("debug"@, trim_end(s@), pid, now@)),
        level < 2 ==> r is None,
{
    debug_at(2, level, s, pid, now)
}

/// A debug message, written when the debug level is at least 3.
pub fn debug3(level: i64, s: &str, pid: i32, now: &str) -> (r: Option<String>)
    requires
        level >= 3 ==> free_of(trim_end(s@), '\n'),
    ensures
        level >= 3 ==> (r matches Some(m) && m@ == meta_spec("debug"@, trim_end(s@), pid, now@)),
        level < 3 ==> r is None,
{
    debug_at(3, level, s, pid, now)
}

// ---------------------------------------------------------------------------
// Reading and rendering meta lines
// ---------------------------------------------------------------------------

/// The parts of a line that holds a meta line: the text before it, the
/// words between `@@REDO:` and the first `@@ ` after it, and the text after
/// that.
pub open spec fn captures_spec(s: Seq<char>) -> Option<(Seq<char>, Seq<char>, Seq<char>)> {
    match find(s, "@@REDO:"@) {
        None => None,
        Some(start) => {
            let rest = s.skip(start + 7);
            match find(rest, "@@ "@) {
                None => None,
                Some(end) => Some((s.take(start), rest.take(end), rest.skip(end + 3))),
            }
        },
    }
}

/// Finds the meta line in `s`, if there is one.
pub fn captures(s: &[char]) -> (r: Option<(Vec<char>, Vec<char>, Vec<char>)>)
    ensures
        match r {
            None => captures_spec(s@) is None,
            Some((a, b, c)) => captures_spec(s@) == Some((a@, b@, c@)),
        },
{
    let open = to_chars("@@REDO:");
    proof {
        reveal_strlit("@@REDO:");
        reveal_strlit("@@ ");
    }
    let n = s.len();
    match find_exec(s, open.as_slice()) {
        None => None,
        Some(start) => {
            proof {
                lemma_find_from_props(s@, open@, 0);
                assert(occurs_at(s@, open@, start as int));
            }
            let rest = slice_range(s, start + 7, n);
            assert(rest@ =~= s@.skip(start + 7));
            let close = to_chars("@@ ");
            let rn = rest.len();
            match find_exec(rest.as_slice(), close.as_slice()) {
                None => None,
                Some(end) => {
                    proof {
                        lemma_find_from_props(rest@, close@, 0);
                        assert(occurs_at(rest@, close@, end as int));
                    }
                    let prefix = slice_prefix(s, start);
                    let words = slice_prefix(rest.as_slice(), end);
                    let text = slice_range(rest.as_slice(), end + 3, rn);
                    assert(text@ =~= rest@.skip(end + 3));
                    Some((prefix, words, text))
                },
            }
        },
    }
}

/// `str::parse::<i32>`, with 0 for anything it refuses.
pub open spec fn parse_i32_or0(s: Seq<char>) -> i32 {
    match parse_i64(s) {
        Some(v) => if i32::MIN <= v && v <= i32::MAX {
            v as i32
        } else {
            0
        },
        None => 0,
    }
}

pub fn parse_i32_or0_chars(s: &[char]) -> (r: i32)
    ensures
        r == parse_i32_or0(s@),
{
    match parse_i64_chars(s) {
        Some(v) => if i32::MIN as i64 <= v && v <= i32::MAX as i64 {
            v as i32
        } else {
            0
        },
        None => 0,
    }
}

/// The first two words of `w` split at colons, when there are at least
/// three: the kind and the pid.
pub open spec fn kind_and_pid(w: Seq<char>) -> Option<(Seq<char>, Seq<char>)> {
    match find(w, ":"@) {
        None => None,
        Some(i1) => {
            let after = w.skip(i1 + 1);
            match find(after, ":"@) {
                None => None,
                Some(i2) => Some((w.take(i1), after.take(i2))),
            }
        },
    }
}

/// `s` padded with spaces to at least six characters (`{:<6}`).
pub open spec fn pad6(s: Seq<char>) -> Seq<char> {
    if s.len() >= 6 {
        s
    } else {
        s + Seq::new((6 - s.len()) as nat, |i: int| ' ')
    }
}

/// One rendered line: colour, `redo`, the depth indent, bold (when
/// coloured), the message, and the colour reset.
pub open spec fn pretty_line(
    e: Env,
    c: Colors,
    pid: i32,
    color: Seq<char>,
    msg: Seq<char>,
) -> Seq<char> {
    let prefix = if e.debug_pids {
        pad6(int_str(pid as int)) + " redo  "@
    } else {
        "redo  "@
    };
    color + prefix + e.depth@ + (if color.len() > 0 {
        c.bold@
    } else {
        Seq::empty()
    }) + msg + c.plain@ + "\n"@
}

/// What a `done` line renders as: a failure in red, a success only when
/// verbose.
pub open spec fn render_done(e: Env, c: Colors, pid: i32, text: Seq<char>) -> Seq<char> {
    match find(text, " "@) {
        None => Seq::empty(),
        Some(sp) => {
            let rv = parse_i32_or0(text.take(sp));
            let name = text.skip(sp + 1);
            if rv != 0 {
                pretty_line(e, c, pid, c.red@, name + " (exit "@ + int_str(rv as int) + ")"@)
            } else if e.verbose != 0 || e.xtrace != 0 || e.debug != 0 {
                pretty_line(e, c, pid, c.green@, name + " (done)"@) + "\n"@
            } else {
                Seq::empty()
            }
        },
    }
}

/// What a meta line of kind `kind` renders as.
pub open spec fn render_kind(
    e: Env,
    c: Colors,
    s: Seq<char>,
    kind: Seq<char>,
    pid: i32,
    text: Seq<char>,
) -> Seq<char> {
    if kind == "unchanged"@ {
        if e.log != 0 || e.debug != 0 {
            pretty_line(e, c, pid, Seq::empty(), text + " (unchanged)"@)
        } else {
            Seq::empty()
        }
    } else if kind == "check"@ {
        pretty_line(e, c, pid, c.green@, "("@ + text + ")"@)
    } else if kind == "do"@ {
        pretty_line(e, c, pid, c.green@, text)
    } else if kind == "done"@ {
        render_done(e, c, pid, text)
    } else if kind == "resumed"@ {
        pretty_line(e, c, pid, c.green@, text + " (resumed)"@)
    } else if kind == "locked"@ {
        if e.debug_locks {
            pretty_line(e, c, pid, c.green@, text + " (locked...)"@)
        } else {
            Seq::empty()
        }
    } else if kind == "waiting"@ {
        if e.debug_locks {
            pretty_line(e, c, pid, c.green@, text + " (WAITING)"@)
        } else {
            Seq::empty()
        }
    } else if kind == "unlocked"@ {
        if e.debug_locks {
            pretty_line(e, c, pid, c.green@, text + " (...unlocked!)"@)
        } else {
            Seq::empty()
        }
    } else if kind == "error"@ {
        c.red@ + "redo: "@ + c.bold@ + text + c.plain@ + "\n"@
    } else if kind == "warning"@ {
        c.yellow@ + "redo: "@ + c.bold@ + text + c.plain@ + "\n"@
    } else if kind == "debug"@ {
        pretty_line(e, c, pid, Seq::empty(), text)
    } else {
        s + "\n"@
    }
}

/// What the line `s` renders as for a terminal: the text before a meta
/// line as it is, then the meta line rendered by its kind; any other line
/// as it is.
pub open spec fn pretty_spec(e: Env, c: Colors, s: Seq<char>) -> Seq<char> {
    match captures_spec(s) {
        None => s + "\n"@,
        Some((prefix, words, text)) => prefix + match kind_and_pid(words) {
            None => s + "\n"@,
            Some((kind, pidtxt)) => render_kind(e, c, s, kind, parse_i32_or0(pidtxt), text),
        },
    }
}

/// What the line `s` is written as, in the given mode.
pub open spec fn log_write_spec(cfg: LogConfig, e: Env, s: Seq<char>) -> Seq<char> {
    match cfg.mode {
        LogMode::Raw => s + "\n"@,
        LogMode::Pretty => pretty_spec(e, cfg.colors, s),
    }
}

fn push_str(v: &mut Vec<char>, s: &str)
    ensures
        final(v)@ == old(v)@ + s@,
{
    let c = to_chars(s);
    append_slice(v, c.as_slice());
}

fn pretty_line_exec(e: &Env, c: &Colors, pid: i32, color: &[char], msg: &[char]) -> (r: Vec<char>)
    ensures
        r@ == pretty_line(*e, *c, pid, color@, msg@),
{
    let mut v: Vec<char> = Vec::new();
    append_slice(&mut v, color);
    if e.debug_pids {
        let p = i64_chars(pid as i64);
        let plen = p.len();
        append_slice(&mut v, p.as_slice());
        let mut k: usize = plen;
        let ghost base = v@;
        while k < 6
            invariant
                plen <= k <= 6 || (plen >= 6 && k == plen),
                v@ == base + Seq::new((k - plen) as nat, |i: int| ' '),
            decreases 6 - k,
        {
            v.push(' ');
            assert(v@ =~= base + Seq::new((k + 1 - plen) as nat, |i: int| ' '));
            k = k + 1;
        }
        proof {
            if plen >= 6 {
                assert(v@ =~= base);
            }
            assert(base + Seq::new((k - plen) as nat, |i: int| ' ') =~= v@);
        }
        push_str(&mut v, " redo  ");
    } else {
        push_str(&mut v, "redo  ");
    }
    push_str(&mut v, e.depth.as_str());
    if color.len() > 0 {
        push_str(&mut v, c.bold.as_str());
    }
    append_slice(&mut v, msg);
    push_str(&mut v, c.plain.as_str());
    push_str(&mut v, "\n");
    proof {
        reveal_strlit("");
    }
    assert(v@ =~= pretty_line(*e, *c, pid, color@, msg@));
    v
}

fn concat3(a: &[char], b: &str, c: &[char]) -> (r: Vec<char>)
    ensures
        r@ == a@ + b@ + c@,
{
    let mut v: Vec<char> = Vec::new();
    append_slice(&mut v, a);
    push_str(&mut v, b);
    append_slice(&mut v, c);
    v
}

fn with_suffix(a: &[char], b: &str) -> (r: Vec<char>)
    ensures
        r@ == a@ + b@,
{
    let mut v: Vec<char> = Vec::new();
    append_slice(&mut v, a);
    push_str(&mut v, b);
    v
}

fn is_kind(k: &[char], name: &str) -> (r: bool)
    ensures
        r == (k@ == name@),
{
    let n = to_chars(name);
    eq_chars(k, n.as_slice())
}

fn render_done_exec(e: &Env, c: &Colors, pid: i32, text: &[char]) -> (r: Vec<char>)
    ensures
        r@ == render_done(*e, *c, pid, text@),
{
    let space = to_chars(" ");
    let n = text.len();
    match find_exec(text, space.as_slice()) {
        None => Vec::new(),
        Some(sp) => {
            proof {
                reveal_strlit(" ");
                lemma_find_from_props(text@, space@, 0);
                assert(occurs_at(text@, space@, sp as int));
            }
            let rvtxt = slice_prefix(text, sp);
            let rv = parse_i32_or0_chars(rvtxt.as_slice());
            let name = slice_range(text, sp + 1, n);
            assert(name@ =~= text@.skip(sp + 1));
            if rv != 0 {
                let digits = i64_chars(rv as i64);
                let mut msg = with_suffix(name.as_slice(), " (exit ");
                append_slice(&mut msg, digits.as_slice());
                push_str(&mut msg, ")");
                let red = to_chars(c.red.as_str());
                pretty_line_exec(e, c, pid, red.as_slice(), msg.as_slice())
            } else if e.verbose != 0 || e.xtrace != 0 || e.debug != 0 {
                let msg = with_suffix(name.as_slice(), " (done)");
                let green = to_chars(c.green.as_str());
                let mut v = pretty_line_exec(e, c, pid, green.as_slice(), msg.as_slice());
                push_str(&mut v, "\n");
                v
            } else {
                Vec::new()
            }
        },
    }
}

pub fn kind_and_pid_chars(w: &[char]) -> (r: Option<(Vec<char>, Vec<char>)>)
    ensures
        match r {
            None => kind_and_pid(w@) is None,
            Some((k, p)) => kind_and_pid(w@) == Some((k@, p@)),
        },
{
    let colon = to_chars(":");
    let n = w.len();
    match find_exec(w, colon.as_slice()) {
        None => None,
        Some(i1) => {
            proof {
                reveal_strlit(":");
                lemma_find_from_props(w@, colon@, 0);
                assert(occurs_at(w@, colon@, i1 as int));
            }
            let after = slice_range(w, i1 + 1, n);
            assert(after@ =~= w@.skip(i1 + 1));
            match find_exec(after.as_slice(), colon.as_slice()) {
                None => None,
                Some(i2) => {
                    proof {
                        lemma_find_from_props(after@, colon@, 0);
                    }
                    let kind = slice_prefix(w, i1);
                    let pid = slice_prefix(after.as_slice(), i2);
                    Some((kind, pid))
                },
            }
        },
    }
}

fn render_kind_exec(e: &Env, c: &Colors, s: &[char], kind: &[char], pid: i32, text: &[char]) -> (r:
    Vec<char>)
    ensures
        r@ == render_kind(*e, *c, s@, kind@, pid, text@),
{
    let empty: Vec<char> = Vec::new();
    let green = to_chars(c.green.as_str());
    if is_kind(kind, "unchanged") {
        if e.log != 0 || e.debug != 0 {
            let msg = with_suffix(text, " (unchanged)");
            pretty_line_exec(e, c, pid, empty.as_slice(), msg.as_slice())
        } else {
            Vec::new()
        }
    } else if is_kind(kind, "check") {
        let open = to_chars("(");
        let msg = concat3(open.as_slice(), "", text);
        let msg2 = with_suffix(msg.as_slice(), ")");
        proof {
            reveal_strlit("");
        }
        assert(msg2@ =~= "("@ + text@ + ")"@);
        pretty_line_exec(e, c, pid, green.as_slice(), msg2.as_slice())
    } else if is_kind(kind, "do") {
        pretty_line_exec(e, c, pid, green.as_slice(), text)
    } else if is_kind(kind, "done") {
        render_done_exec(e, c, pid, text)
    } else if is_kind(kind, "resumed") {
        let msg = with_suffix(text, " (resumed)");
        pretty_line_exec(e, c, pid, green.as_slice(), msg.as_slice())
    } else if is_kind(kind, "locked") {
        if e.debug_locks {
            let msg = with_suffix(text, " (locked...)");
            pretty_line_exec(e, c, pid, green.as_slice(), msg.as_slice())
        } else {
            Vec::new()
        }
    } else if is_kind(kind, "waiting") {
        if e.debug_locks {
            let msg = with_suffix(text, " (WAITING)");
            pretty_line_exec(e, c, pid, green.as_slice(), msg.as_slice())
        } else {
            Vec::new()
        }
    } else if is_kind(kind, "unlocked") {
        if e.debug_locks {
            let msg = with_suffix(text, " (...unlocked!)");
            pretty_line_exec(e, c, pid, green.as_slice(), msg.as_slice())
        } else {
            Vec::new()
        }
    } else if is_kind(kind, "error") || is_kind(kind, "warning") {
        let mut v: Vec<char> = if is_kind(kind, "error") {
            to_chars(c.red.as_str())
        } else {
            to_chars(c.yellow.as_str())
        };
        push_str(&mut v, "redo: ");
        push_str(&mut v, c.bold.as_str());
        append_slice(&mut v, text);
        push_str(&mut v, c.plain.as_str());
        push_str(&mut v, "\n");
        v
    } else if is_kind(kind, "debug") {
        pretty_line_exec(e, c, pid, empty.as_slice(), text)
    } else {
        with_suffix(s, "\n")
    }
}

/// Renders the line `s` for a terminal.
pub fn pretty_write(e: &Env, c: &Colors, s: &str) -> (r: String)
    ensures
        r@ == pretty_spec(*e, *c, s@),
{
    let sv = to_chars(s);
    match captures(sv.as_slice()) {
        None => {
            let v = with_suffix(sv.as_slice(), "\n");
            from_chars(v.as_slice())
        },
        Some((prefix, words, text)) => {
            let mut v = prefix;
            match kind_and_pid_chars(words.as_slice()) {
                None => {
                    append_slice(&mut v, sv.as_slice());
                    push_str(&mut v, "\n");
                },
                Some((kind, pidtxt)) => {
                    let pid = parse_i32_or0_chars(pidtxt.as_slice());
                    let body = render_kind_exec(e, c, sv.as_slice(), kind.as_slice(), pid, text.as_slice());
                    append_slice(&mut v, body.as_slice());
                },
            }
            from_chars(v.as_slice())
        },
    }
}

/// The text to write for the log line `s`: the line itself in raw mode,
/// its rendering in pretty mode. (`cfg.to_stdout` says where it goes.)
pub fn log_write(cfg: &LogConfig, e: &Env, s: &str) -> (r: String)
    ensures
        r@ == log_write_spec(*cfg, *e, s@),
{
    match cfg.mode {
        LogMode::Raw => {
            let sv = to_chars(s);
            let v = with_suffix(sv.as_slice(), "\n");
            from_chars(v.as_slice())
        },
        LogMode::Pretty => pretty_write(e, &cfg.colors, s),
    }
}

} // verus!
