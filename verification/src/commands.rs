//! The logic of the individual redo commands: which command a program name
//! selects, when `redo-ifchange` rebuilds, what `redo-stamp`, `redo-always`
//! and `redo-ifcreate` record, which files `redo-ood` and `redo-sources`
//! list, what `redo-unlocked` runs and what `redo-whichdo` prints.
use vstd::prelude::*;
use crate::builder::{lemma_strs_push, strs, EnvChange, ShouldBuildResult, EMPTY_TARGET_MESSAGE};
use crate::cycles::CyclicDependencyError;
use crate::deps::{
    chain_ok, dirty, in_graph, isdirty, result_view, state_wf, DepGraph, DirtyResult, DirtyState,
    DirtyView, StView,
};
use crate::options::{as_i64_spec, get_spec as opt_get, OptDict, OptVal};
use crate::paths::{file_name_of, path_file_name};
use crate::state::{
    changed_view, is_source_spec, reached, stamp_missing, File, FileView, STAMP_MISSING,
};
use crate::text::{
    append_slice, debug_str, eq_chars, from_chars, i64_chars, int_str, join, join_chars, quoted,
    seqs, to_chars,
};

verus! {

// ---------------------------------------------------------------------------
// Which command
// ---------------------------------------------------------------------------

/// The commands of the multi-call program.
#[derive(PartialEq, Eq, Structural, Debug, Clone, Copy)]
pub enum Command {
    Redo,
    IfChange,
    IfCreate,
    Always,
    Stamp,
    Log,
    WhichDo,
    Targets,
    Sources,
    Ood,
    Unlocked,
    Unknown,
}

/// The command a program name selects.
pub open spec fn command_of_name(n: Seq<char>) -> Command {
    if n == "redo"@ {
        Command::Redo
    } else if n == "redo-ifchange"@ {
        Command::IfChange
    } else if n == "redo-ifcreate"@ {
        Command::IfCreate
    } else if n == "redo-always"@ {
        Command::Always
    } else if n == "redo-stamp"@ {
        Command::Stamp
    } else if n == "redo-log"@ {
        Command::Log
    } else if n == "redo-whichdo"@ {
        Command::WhichDo
    } else if n == "redo-targets"@ {
        Command::Targets
    } else if n == "redo-sources"@ {
        Command::Sources
    } else if n == "redo-ood"@ {
        Command::Ood
    } else if n == "redo-unlocked"@ {
        Command::Unlocked
    } else {
        Command::Unknown
    }
}

fn is_name(n: &[char], s: &str) -> (r: bool)
    ensures
        r == (n@ == s@),
{
    let v = to_chars(s);
    eq_chars(n, v.as_slice())
}

/// The command that `argv[0]` runs: chosen by its file name, `redo` when it
/// has none. Returns the name too, for the error on an unknown one.
pub fn command_of(argv0: &str) -> (r: (Command, String))
    ensures
        r.1@ == match path_file_name(argv0@) {
            Some(n) => n,
            None => "redo"@,
        },
        r.0 == command_of_name(r.1@),
{
    let name = match file_name_of(argv0) {
        Some(n) => n,
        None => String::from_str("redo"),
    };
    let n = to_chars(name.as_str());
    let c = if is_name(n.as_slice(), "redo") {
        Command::Redo
    } else if is_name(n.as_slice(), "redo-ifchange") {
        Command::IfChange
    } else if is_name(n.as_slice(), "redo-ifcreate") {
        Command::IfCreate
    } else if is_name(n.as_slice(), "redo-always") {
        Command::Always
    } else if is_name(n.as_slice(), "redo-stamp") {
        Command::Stamp
    } else if is_name(n.as_slice(), "redo-log") {
        Command::Log
    } else if is_name(n.as_slice(), "redo-whichdo") {
        Command::WhichDo
    } else if is_name(n.as_slice(), "redo-targets") {
        Command::Targets
    } else if is_name(n.as_slice(), "redo-sources") {
        Command::Sources
    } else if is_name(n.as_slice(), "redo-ood") {
        Command::Ood
    } else if is_name(n.as_slice(), "redo-unlocked") {
        Command::Unlocked
    } else {
        Command::Unknown
    };
    (c, name)
}

// ---------------------------------------------------------------------------
// redo-ifchange
// ---------------------------------------------------------------------------

/// What a check of dependencies means for `redo-ifchange`.
pub enum ShouldView {
    Clean,
    Dirty,
    NeedsBuild(Seq<FileView>),
}

impl View for ShouldBuildResult {
    type V = ShouldView;

    open spec fn view(&self) -> ShouldView {
        match self {
            ShouldBuildResult::Clean => ShouldView::Clean,
            ShouldBuildResult::Dirty => ShouldView::Dirty,
            ShouldBuildResult::NeedsBuild(v) => ShouldView::NeedsBuild(
                crate::deps::file_views(v@),
            ),
        }
    }
}

/// A cycle or a list that holds only the target itself means the target
/// is rebuilt now.
pub open spec fn should_build_spec(f: FileView, d: Result<DirtyView, ()>) -> ShouldView {
    match d {
        Ok(DirtyView::Clean) => ShouldView::Clean,
        Ok(DirtyView::Dirty) => ShouldView::Dirty,
        Ok(DirtyView::NeedsBuild(fs)) => if fs.len() == 1 && fs[0].id == f.id {
            ShouldView::Dirty
        } else {
            ShouldView::NeedsBuild(fs)
        },
        Err(_) => ShouldView::Dirty,
    }
}

pub open spec fn runid_or0(runid: Option<i64>) -> i64 {
    match runid {
        Some(r) => r,
        None => 0,
    }
}

/// Whether the target `f` must be built: `None` when it already failed in
/// this run (the command then exits with 32); otherwise whether it is
/// generated and what the dependency check says.
pub fn should_build(g: &DepGraph, st: &mut DirtyState, f: &File) -> (r: Option<
    (bool, ShouldBuildResult),
>)
    requires
        state_wf(g, old(st)@),
        in_graph(g, f.id),
    ensures
        state_wf(g, final(st)@),
        reached(f.failed_runid, g.runid) ==> r is None && final(st)@ == old(st)@,
        !reached(f.failed_runid, g.runid) ==> ({
            let (d, s2) = dirty(g, old(st)@, f@, Seq::empty(), runid_or0(g.runid), Seq::empty());
            &&& r matches Some((generated, sb)) && generated == f.is_generated && sb@
                == should_build_spec(f@, d)
            &&& final(st)@ == s2
        }),
{
    if f.is_failed(g.runid) {
        return None;
    }
    let runid = match g.runid {
        Some(r) => r,
        None => 0,
    };
    let none: Vec<i64> = Vec::new();
    proof {
        assert(chain_ok(g, none@));
        reveal_strlit("");
    }
    let ghost st0 = st@;
    let d = isdirty(g, st, f, "", runid, &none);
    let ghost res = dirty(g, st0, f@, Seq::empty(), runid_or0(g.runid), Seq::empty());
    assert(""@ =~= Seq::<char>::empty());
    assert(none@ =~= Seq::<i64>::empty());
    assert(runid == runid_or0(g.runid));
    assert((result_view(d), st@) == dirty(g, st0, f@, ""@, runid, none@));
    assert(result_view(d) == res.0 && st@ == res.1);
    let sb = match d {
        Ok(DirtyResult::Clean) => ShouldBuildResult::Clean,
        Ok(DirtyResult::Dirty) => ShouldBuildResult::Dirty,
        Ok(DirtyResult::NeedsBuild(files)) => {
            if files.len() == 1 && files[0].id == f.id {
                ShouldBuildResult::Dirty
            } else {
                ShouldBuildResult::NeedsBuild(files)
            }
        },
        Err(_) => ShouldBuildResult::Dirty,
    };
    Some((f.is_generated, sb))
}

// ---------------------------------------------------------------------------
// redo-stamp, redo-always, redo-ifcreate
// ---------------------------------------------------------------------------

/// The SHA-1 of `data` as `sha1_smol` writes it (40 lowercase hex digits).
pub uninterp spec fn sha1_hex(data: Seq<u8>) -> Seq<char>;

pub open spec fn is_lower_hex(c: char) -> bool {
    ('0' <= c && c <= '9') || ('a' <= c && c <= 'f')
}

/// `sha1_smol::Sha1::from(data).digest()` written with `Display`: the
/// checksum of `data`, five 32-bit words as eight lowercase hex digits each.
#[verifier::external_body]
fn sha1_digest(data: &[u8]) -> (r: String)
    ensures
        r@ == sha1_hex(data@),
        r@.len() == 40,
        forall|i: int| 0 <= i < r@.len() ==> is_lower_hex(#[trigger] r@[i]),
{
    sha1_smol::Sha1::from(data).digest().to_string()
}

/// The record after `redo-stamp` with checksum `csum`: generated, not
/// overridden, not failed; changed (with the new checksum) when the
/// checksum differs, otherwise checked.
pub open spec fn stamped_csum_view(f: FileView, csum: Seq<char>, runid: Option<i64>) -> FileView {
    let g = FileView { is_generated: true, is_override: false, failed_runid: None, ..f };
    if f.csum != Some(csum) {
        FileView { csum: Some(csum), ..changed_view(g, runid) }
    } else {
        FileView { checked_runid: runid, ..g }
    }
}

/// Records the checksum of the data a `.do` script piped to `redo-stamp`;
/// returns whether it changed.
pub fn stamp(f: &mut File, data: &[u8], runid: Option<i64>) -> (r: bool)
    ensures
        r == (old(f)@.csum != Some(sha1_hex(data@))),
        final(f)@ == stamped_csum_view(old(f)@, sha1_hex(data@), runid),
{
    let csum = sha1_digest(data);
    let changed = match &f.csum {
        Some(c) => {
            let a = to_chars(c.as_str());
            let b = to_chars(csum.as_str());
            !eq_chars(a.as_slice(), b.as_slice())
        },
        None => true,
    };
    f.is_generated = true;
    f.is_override = false;
    f.failed_runid = None;
    if changed {
        f.set_changed(runid);
        f.csum = Some(csum);
    } else {
        f.set_checked(runid);
    }
    changed
}

/// `redo-always`: the `//ALWAYS` pseudo-file gets the missing stamp and
/// counts as changed in this run.
pub fn mark_always(always: &mut File, runid: Option<i64>)
    ensures
        final(always)@ == changed_view(
            FileView { stamp: Some(stamp_missing()), ..old(always)@ },
            runid,
        ),
{
    let mut m = String::new();
    crate::text::string_push(&mut m, '0');
    assert(m@ =~= stamp_missing());
    always.stamp = Some(m);
    always.set_changed(runid);
}

/// `redo-ifcreate` on `t`: `Err((exit code, message))` for an empty name
/// (204) or a file that exists (1); otherwise the dependency is recorded.
pub fn ifcreate_check(t: &str, exists: bool) -> (r: Result<(), (i32, String)>)
    ensures
        t@.len() == 0 ==> (r matches Err((code, m)) && code == 204 && m@
            == EMPTY_TARGET_MESSAGE@),
        t@.len() > 0 && exists ==> (r matches Err((code, m)) && code == 1 && m@
            == "redo-ifcreate: error: "@ + debug_str(t@) + " already exists"@),
        t@.len() > 0 && !exists ==> r is Ok,
{
    let tv = to_chars(t);
    if tv.len() == 0 {
        return Err((204, String::from_str(EMPTY_TARGET_MESSAGE)));
    }
    if exists {
        let mut v = to_chars("redo-ifcreate: error: ");
        let q = quoted(t);
        let qv = to_chars(q.as_str());
        append_slice(&mut v, qv.as_slice());
        let tail = to_chars(" already exists");
        append_slice(&mut v, tail.as_slice());
        Err((1, from_chars(v.as_slice())))
    } else {
        Ok(())
    }
}

/// The name under which a `.do` script's own target is recorded.
pub fn my_target_path(startdir: &str, pwd: &str, target: &str) -> (r: String)
    ensures
        r@ == startdir@ + "/"@ + pwd@ + "/"@ + target@,
{
    let mut v = to_chars(startdir);
    let s = to_chars("/");
    append_slice(&mut v, s.as_slice());
    let p = to_chars(pwd);
    append_slice(&mut v, p.as_slice());
    append_slice(&mut v, s.as_slice());
    let t = to_chars(target);
    append_slice(&mut v, t.as_slice());
    from_chars(v.as_slice())
}

// ---------------------------------------------------------------------------
// redo
// ---------------------------------------------------------------------------

/// The `-j` value: `opt["jobs"]` cut to 32 bits, replaced by 0 (with an
/// error message) when it is negative or over 1000.
pub fn jobs_value(opt: &OptDict) -> (r: (i32, Option<String>))
    requires
        opt.wf(),
    ensures
        ({
            let j = as_i64_spec(opt_get(opt.map(), "jobs"@)) as i32;
            if j < 0 || j > 1000 {
                &&& r.0 == 0
                &&& r.1 matches Some(m) && m@ == "invalid --jobs value: "@ + debug_str(
                    crate::options::as_str_spec(opt_get(opt.map(), "jobs"@)),
                )
            } else {
                r.0 == j && r.1 is None
            }
        }),
{
    let j64 = opt.int_val("jobs");
    let j = #[verifier::truncate] (j64 as i32);
    if j < 0 || j > 1000 {
        let s = opt.str_val("jobs");
        let mut v = to_chars("invalid --jobs value: ");
        let q = quoted(s.as_str());
        let qv = to_chars(q.as_str());
        append_slice(&mut v, qv.as_slice());
        (0, Some(from_chars(v.as_slice())))
    } else {
        (j, None)
    }
}

fn put(k: &str, v: String) -> (r: (String, String))
    ensures
        r.0@ == k@,
        r.1@ == v@,
{
    (String::from_str(k), v)
}

pub open spec fn pairs(v: Seq<(String, String)>) -> Seq<(Seq<char>, Seq<char>)> {
    Seq::new(v.len(), |i: int| (v[i].0@, v[i].1@))
}

/// The variable `name` set to the number given to the option `key`, when
/// the option is set.
pub open spec fn count_var(m: Map<Seq<char>, OptVal>, key: Seq<char>, name: Seq<char>) -> Seq<
    (Seq<char>, Seq<char>),
> {
    if crate::options::as_bool_spec(opt_get(m, key)) {
        seq![(name, int_str(as_i64_spec(opt_get(m, key)) as int))]
    } else {
        Seq::empty()
    }
}

/// The variable `name` set to `1` when the option `key` is set.
pub open spec fn flag_var(m: Map<Seq<char>, OptVal>, key: Seq<char>, name: Seq<char>) -> Seq<
    (Seq<char>, Seq<char>),
> {
    if crate::options::as_bool_spec(opt_get(m, key)) {
        seq![(name, "1"@)]
    } else {
        Seq::empty()
    }
}

fn push_var(r: &mut Vec<(String, String)>, opt: &OptDict, key: &str, name: &str, count: bool)
    requires
        opt.wf(),
    ensures
        pairs(final(r)@) == pairs(old(r)@) + if count {
            count_var(opt.map(), key@, name@)
        } else {
            flag_var(opt.map(), key@, name@)
        },
{
    let ghost before = pairs(r@);
    if opt.bool_val(key) {
        let v = if count {
            let n = i64_chars(opt.int_val(key));
            from_chars(n.as_slice())
        } else {
            String::from_str("1")
        };
        r.push(put(name, v));
    }
    assert(pairs(r@) =~= before + if count {
        count_var(opt.map(), key@, name@)
    } else {
        flag_var(opt.map(), key@, name@)
    });
}

/// The settings that `redo`'s options pass to every process of the build
/// through the environment.
pub fn redo_flag_vars(opt: &OptDict) -> (r: Vec<(String, String)>)
    requires
        opt.wf(),
    ensures
        pairs(r@) == count_var(opt.map(), "debug"@, "REDO_DEBUG"@) + count_var(
            opt.map(),
            "verbose"@,
            "REDO_VERBOSE"@,
        ) + count_var(opt.map(), "xtrace"@, "REDO_XTRACE"@) + flag_var(
            opt.map(),
            "keep_going"@,
            "REDO_KEEP_GOING"@,
        ) + flag_var(opt.map(), "shuffle"@, "REDO_SHUFFLE"@) + flag_var(
            opt.map(),
            "debug_locks"@,
            "REDO_DEBUG_LOCKS"@,
        ) + flag_var(opt.map(), "debug_pids"@, "REDO_DEBUG_PIDS"@),
{
    let mut r: Vec<(String, String)> = Vec::new();
    assert(pairs(r@) =~= Seq::empty());
    push_var(&mut r, opt, "debug", "REDO_DEBUG", true);
    push_var(&mut r, opt, "verbose", "REDO_VERBOSE", true);
    push_var(&mut r, opt, "xtrace", "REDO_XTRACE", true);
    push_var(&mut r, opt, "keep_going", "REDO_KEEP_GOING", false);
    push_var(&mut r, opt, "shuffle", "REDO_SHUFFLE", false);
    push_var(&mut r, opt, "debug_locks", "REDO_DEBUG_LOCKS", false);
    push_var(&mut r, opt, "debug_pids", "REDO_DEBUG_PIDS", false);
    assert(pairs(r@) =~= count_var(opt.map(), "debug"@, "REDO_DEBUG"@) + count_var(
        opt.map(),
        "verbose"@,
        "REDO_VERBOSE"@,
    ) + count_var(opt.map(), "xtrace"@, "REDO_XTRACE"@) + flag_var(
        opt.map(),
        "keep_going"@,
        "REDO_KEEP_GOING"@,
    ) + flag_var(opt.map(), "shuffle"@, "REDO_SHUFFLE"@) + flag_var(
        opt.map(),
        "debug_locks"@,
        "REDO_DEBUG_LOCKS"@,
    ) + flag_var(opt.map(), "debug_pids"@, "REDO_DEBUG_PIDS"@));
    r
}

/// The log settings `redo` gives its build unless the environment already
/// has them (each is set only where it is unset).
pub fn redo_default_vars(opt: &OptDict) -> (r: Vec<(String, String)>)
    requires
        opt.wf(),
    ensures
        pairs(r@) == seq![
            ("REDO_LOG"@, int_str(as_i64_spec(opt_get(opt.map(), "log"@)) as int)),
            ("REDO_PRETTY"@, int_str(as_i64_spec(opt_get(opt.map(), "pretty"@)) as int)),
            ("REDO_COLOR"@, int_str(as_i64_spec(opt_get(opt.map(), "color"@)) as int)),
        ],
{
    let mut r: Vec<(String, String)> = Vec::new();
    let a = i64_chars(opt.int_val("log"));
    r.push(put("REDO_LOG", from_chars(a.as_slice())));
    let b = i64_chars(opt.int_val("pretty"));
    r.push(put("REDO_PRETTY", from_chars(b.as_slice())));
    let c = i64_chars(opt.int_val("color"));
    r.push(put("REDO_COLOR", from_chars(c.as_slice())));
    assert(pairs(r@) =~= seq![
        ("REDO_LOG"@, int_str(as_i64_spec(opt_get(opt.map(), "log"@)) as int)),
        ("REDO_PRETTY"@, int_str(as_i64_spec(opt_get(opt.map(), "pretty"@)) as int)),
        ("REDO_COLOR"@, int_str(as_i64_spec(opt_get(opt.map(), "color"@)) as int)),
    ]);
    r
}

/// The warning for a named target that exists but was not made by redo.
pub fn not_generated_warning(nice: &str) -> (r: String)
    ensures
        r@ == nice@ + ": exists and not marked as generated; not redoing."@,
{
    let mut v = to_chars(nice);
    let tail = to_chars(": exists and not marked as generated; not redoing.");
    append_slice(&mut v, tail.as_slice());
    from_chars(v.as_slice())
}

pub const BROKEN_LOCKS_WARNING: &'static str = "detected broken fcntl locks; parallelism disabled.";

// ---------------------------------------------------------------------------
// redo-unlocked
// ---------------------------------------------------------------------------

/// `redo-unlocked target deps..`: first `redo-ifchange` of the
/// dependencies, then, unlocked, `redo-ifchange` of the target.
pub fn unlocked_commands(args: &Vec<String>) -> (r: (Vec<String>, Vec<String>))
    requires
        args@.len() >= 2,
        forall|i: int| 1 <= i < args@.len() ==> (#[trigger] args@[i])@ != args@[0]@,
    ensures
        strs(r.0@) == seq!["redo-ifchange"@] + strs(args@).skip(1),
        strs(r.1@) == seq!["redo-ifchange"@, args@[0]@],
{
    let mut first: Vec<String> = Vec::new();
    first.push(String::from_str("redo-ifchange"));
    let mut i: usize = 1;
    while i < args.len()
        invariant
            1 <= i <= args@.len(),
            strs(first@) == seq!["redo-ifchange"@] + strs(args@).subrange(1, i as int),
        decreases args@.len() - i,
    {
        let ghost before = first@;
        let x = args[i].clone();
        first.push(x);
        proof {
            lemma_strs_push(before, x);
            assert(strs(args@).subrange(1, i + 1) =~= strs(args@).subrange(1, i as int).push(
                args@[i as int]@,
            ));
        }
        i = i + 1;
    }
    assert(strs(args@).subrange(1, i as int) =~= strs(args@).skip(1));
    let mut second: Vec<String> = Vec::new();
    second.push(String::from_str("redo-ifchange"));
    second.push(args[0].clone());
    assert(strs(second@) =~= seq!["redo-ifchange"@, args@[0]@]);
    (first, second)
}

// ---------------------------------------------------------------------------
// redo-whichdo
// ---------------------------------------------------------------------------

/// `s` with each `//` replaced by `/`, scanning left to right
/// (`str::replace`).
pub open spec fn collapse_slashes(s: Seq<char>) -> Seq<char>
    decreases s.len(),
{
    if s.len() >= 2 && s[0] == '/' && s[1] == '/' {
        seq!['/'] + collapse_slashes(s.skip(2))
    } else if s.len() == 0 {
        s
    } else {
        seq![s[0]] + collapse_slashes(s.skip(1))
    }
}

fn collapse_slashes_exec(s: &[char]) -> (r: Vec<char>)
    ensures
        r@ == collapse_slashes(s@),
{
    let mut r: Vec<char> = Vec::new();
    let mut i: usize = 0;
    let n = s.len();
    assert(s@.skip(0) =~= s@);
    while i < n
        invariant
            i <= n,
            n == s@.len(),
            r@ + collapse_slashes(s@.skip(i as int)) == collapse_slashes(s@),
        decreases n - i,
    {
        if i + 1 < n && s[i] == '/' && s[i + 1] == '/' {
            assert(s@.skip(i as int).skip(2) =~= s@.skip(i + 2));
            r.push('/');
            assert(r@ + collapse_slashes(s@.skip(i + 2)) =~= collapse_slashes(s@));
            i = i + 2;
        } else {
            assert(s@.skip(i as int).skip(1) =~= s@.skip(i + 1));
            assert(s@.skip(i as int)[0] == s@[i as int]);
            r.push(s[i]);
            assert(r@ + collapse_slashes(s@.skip(i + 1)) =~= collapse_slashes(s@));
            i = i + 1;
        }
    }
    assert(s@.skip(i as int) =~= Seq::<char>::empty());
    assert(r@ =~= collapse_slashes(s@));
    r
}

/// Where `redo-whichdo` looks for a `.do` file: `/dodir/dofile` with doubled
/// slashes collapsed.
pub fn whichdo_path(dodir: &str, dofile: &str) -> (r: String)
    ensures
        r@ == collapse_slashes("/"@ + dodir@ + "/"@ + dofile@),
{
    let mut v = to_chars("/");
    let d = to_chars(dodir);
    append_slice(&mut v, d.as_slice());
    let s = to_chars("/");
    append_slice(&mut v, s.as_slice());
    let f = to_chars(dofile);
    append_slice(&mut v, f.as_slice());
    let c = collapse_slashes_exec(v.as_slice());
    from_chars(c.as_slice())
}

/// The components of a path as `Path::components` gives them, each as
/// text.
pub uninterp spec fn path_components(p: Seq<char>) -> Seq<Seq<char>>;

/// `Path::components`, each component read back as text. Its
/// normalization rules are not restated here; the result depends on the
/// path alone.
#[verifier::external_body]
fn components_of(p: &str) -> (r: Vec<String>)
    ensures
        strs(r@) == path_components(p@),
{
    std::path::Path::new(p).components().map(|c| c.as_os_str().to_string_lossy().to_string()).collect()
}

/// How many leading components two component lists share.
pub open spec fn shared_len(a: Seq<Seq<char>>, b: Seq<Seq<char>>) -> nat
    decreases a.len(),
{
    if a.len() == 0 || b.len() == 0 || a[0] != b[0] {
        0
    } else {
        1 + shared_len(a.drop_first(), b.drop_first())
    }
}

/// The path to `path` from `base`, from their components: `..` for each
/// component of `base` past the shared ones, then the rest of `path`,
/// joined with `/`.
pub open spec fn diff_paths_spec(path: Seq<char>, base: Seq<char>) -> Seq<char> {
    let a = path_components(path);
    let b = path_components(base);
    let k = crate::state::common_len(a, b) as int;
    join(Seq::new((b.len() - k) as nat, |i: int| ".."@) + a.skip(k), "/"@)
}

/// The relative path that `redo-whichdo` prints for `path`, seen from
/// `base` (both absolute).
pub fn diff_paths(path: &str, base: &str) -> (r: String)
    ensures
        r@ == diff_paths_spec(path@, base@),
{
    let pc = components_of(path);
    let bc = components_of(base);
    let pv = crate::builder::strings_as_chars(&pc);
    let bv = crate::builder::strings_as_chars(&bc);
    let k = crate::state::common_len_exec(&pv, &bv);
    proof {
        crate::state::lemma_common_len_bound(seqs(pv@), seqs(bv@));
    }
    let mut parts: Vec<Vec<char>> = Vec::new();
    let mut i: usize = k;
    while i < bv.len()
        invariant
            k <= i <= bv@.len(),
            seqs(parts@) == Seq::new((i - k) as nat, |j: int| ".."@),
        decreases bv@.len() - i,
    {
        let ghost before = parts@;
        let dd = to_chars("..");
        parts.push(dd);
        proof {
            crate::text::lemma_seqs_push(before, dd);
        }
        assert(seqs(parts@) =~= Seq::new((i + 1 - k) as nat, |j: int| ".."@));
        i = i + 1;
    }
    let ghost ups = seqs(parts@);
    let mut j: usize = k;
    while j < pv.len()
        invariant
            k <= j <= pv@.len(),
            seqs(parts@) == ups + seqs(pv@).subrange(k as int, j as int),
        decreases pv@.len() - j,
    {
        let ghost before = parts@;
        let c = crate::text::copy_chars(pv[j].as_slice());
        parts.push(c);
        proof {
            crate::text::lemma_seqs_push(before, c);
        }
        assert(seqs(pv@).subrange(k as int, j + 1) =~= seqs(pv@).subrange(k as int, j as int).push(
            pv@[j as int]@,
        ));
        j = j + 1;
    }
    assert(seqs(pv@).subrange(k as int, j as int) =~= seqs(pv@).skip(k as int));
    let sep = to_chars("/");
    let joined = join_chars(&parts, sep.as_slice());
    from_chars(joined.as_slice())
}

// ---------------------------------------------------------------------------
// redo-sources, redo-ood
// ---------------------------------------------------------------------------

/// The positions of the files that are sources, given each one's stamp on
/// disk now.
pub open spec fn source_positions(g: &DepGraph, k: int) -> Seq<int>
    decreases k,
{
    if k <= 0 {
        Seq::empty()
    } else {
        let rest = source_positions(g, k - 1);
        let n = g.nodes@[k - 1];
        if is_source_spec(n.file@, n.stamp@, g.runid) {
            rest.push(k - 1)
        } else {
            rest
        }
    }
}

/// The files `redo-sources` lists: those that are sources.
pub fn sources(g: &DepGraph) -> (r: Vec<usize>)
    ensures
        Seq::new(r@.len(), |i: int| r@[i] as int) == source_positions(g, g.nodes@.len() as int),
{
    let mut r: Vec<usize> = Vec::new();
    let mut k: usize = 0;
    while k < g.nodes.len()
        invariant
            k <= g.nodes@.len(),
            Seq::new(r@.len(), |i: int| r@[i] as int) == source_positions(g, k as int),
        decreases g.nodes@.len() - k,
    {
        let n = &g.nodes[k];
        let ghost before = r@;
        if n.file.is_source(n.stamp.as_str(), g.runid) {
            r.push(k);
            assert(Seq::new(r@.len(), |i: int| r@[i] as int) =~= Seq::new(
                before.len(),
                |i: int| before[i] as int,
            ).push(k as int));
        }
        k = k + 1;
    }
    r
}

/// The out-of-date targets, checked in turn with the state each check
/// leaves to the next: targets whose dependency check finds them dirty
/// (a cycle counts as not listed).
pub open spec fn ood_fold(g: &DepGraph, st: StView, k: int) -> (Seq<int>, StView)
    decreases k,
{
    if k <= 0 {
        (Seq::empty(), st)
    } else {
        let (rest, st1) = ood_fold(g, st, k - 1);
        let n = g.nodes@[k - 1];
        if n.file.is_generated && !is_source_spec(n.file@, n.stamp@, g.runid) {
            let (d, st2) = dirty(g, st1, n.file@, Seq::empty(), runid_or0(g.runid), Seq::empty());
            if d matches Ok(v) && !(v is Clean) {
                (rest.push(k - 1), st2)
            } else {
                (rest, st2)
            }
        } else {
            (rest, st1)
        }
    }
}

/// The targets `redo-ood` lists: those that a dependency check finds dirty.
pub fn ood(g: &DepGraph, st: &mut DirtyState) -> (r: Vec<usize>)
    requires
        state_wf(g, old(st)@),
        forall|k: int| 0 <= k < g.nodes@.len() ==> in_graph(g, (#[trigger] g.nodes@[k]).file.id),
    ensures
        Seq::new(r@.len(), |i: int| r@[i] as int) == ood_fold(g, old(st)@, g.nodes@.len() as int).0,
        final(st)@ == ood_fold(g, old(st)@, g.nodes@.len() as int).1,
{
    let mut r: Vec<usize> = Vec::new();
    let mut k: usize = 0;
    let runid = match g.runid {
        Some(x) => x,
        None => 0,
    };
    let none: Vec<i64> = Vec::new();
    proof {
        assert(chain_ok(g, none@));
    }
    while k < g.nodes.len()
        invariant
            k <= g.nodes@.len(),
            none@ == Seq::<i64>::empty(),
            runid == runid_or0(g.runid),
            chain_ok(g, none@),
            forall|k: int| 0 <= k < g.nodes@.len() ==> in_graph(g, (#[trigger] g.nodes@[k]).file.id),
            state_wf(g, st@),
            Seq::new(r@.len(), |i: int| r@[i] as int) == ood_fold(g, old(st)@, k as int).0,
            st@ == ood_fold(g, old(st)@, k as int).1,
        decreases g.nodes@.len() - k,
    {
        proof {
            reveal_strlit("");
        }
        let n = &g.nodes[k];
        let ghost before = r@;
        let ghost prev = ood_fold(g, old(st)@, k as int);
        let ghost st1 = st@;
        assert(in_graph(g, g.nodes@[k as int].file.id));
        if n.file.is_target(n.stamp.as_str(), g.runid) {
            let d = isdirty(g, st, &n.file, "", runid, &none);
            let ghost res = dirty(g, st1, n.file@, Seq::empty(), runid_or0(g.runid), Seq::empty());
            assert(""@ =~= Seq::<char>::empty());
            assert(none@ =~= Seq::<i64>::empty());
            assert((result_view(d), st@) == dirty(g, st1, n.file@, ""@, runid, none@));
            assert(result_view(d) == res.0 && st@ == res.1);
            match d {
                Ok(v) => {
                    if v.is_dirty() {
                        r.push(k);
                        assert(Seq::new(r@.len(), |i: int| r@[i] as int) =~= Seq::new(
                            before.len(),
                            |i: int| before[i] as int,
                        ).push(k as int));
                    }
                },
                Err(_) => {},
            }
        }
        k = k + 1;
    }
    r
}

} // verus!
