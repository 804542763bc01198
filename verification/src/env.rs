//! The settings that a redo process inherits from its parent through
//! `REDO_*` environment variables, and how the top-level process chooses
//! the base directory of a build.
use vstd::prelude::*;
use crate::helpers::{atoi_chars, atoi_spec};
use crate::options::{rfind_char, rfind_char_exec};
use crate::paths::{or_slash, parent_of, path_parent, trim_end_char, trim_end_char_exec};
use crate::state::opt_str;
use crate::text::{
    append_slice, eq_chars, from_chars, join, join_chars, seqs, split, split_chars, starts_with,
    starts_with_exec, to_chars, slice_prefix,
};

verus! {

/// The inherited settings of a redo process.
#[derive(Debug, Clone)]
pub struct Env {
    pub base: String,
    pub pwd: String,
    pub target: String,
    pub depth: String,
    pub debug: i64,
    pub debug_locks: bool,
    pub debug_pids: bool,
    pub locks_broken: bool,
    pub verbose: i64,
    pub xtrace: i64,
    pub keep_going: bool,
    pub log: i64,
    pub log_inode: String,
    pub color: i64,
    pub pretty: i64,
    pub shuffle: bool,
    pub startdir: String,
    pub runid: Option<i64>,
    pub unlocked: bool,
    pub no_oob: bool,
}

/// The value of the first variable called `name` in `vars`.
pub open spec fn lookup(vars: Seq<(String, String)>, name: Seq<char>) -> Option<Seq<char>>
    decreases vars.len(),
{
    if vars.len() == 0 {
        None
    } else if vars[0].0@ == name {
        Some(vars[0].1@)
    } else {
        lookup(vars.drop_first(), name)
    }
}

/// The value of `name`, or `default` when it is not set.
pub open spec fn get_spec(vars: Seq<(String, String)>, name: Seq<char>, default: Seq<char>) -> Seq<
    char,
> {
    match lookup(vars, name) {
        Some(v) => v,
        None => default,
    }
}

/// A number setting: the value read as by `atoi`.
pub open spec fn get_int_spec(vars: Seq<(String, String)>, name: Seq<char>, default: Seq<char>) -> i64 {
    atoi_spec(get_spec(vars, name, default))
}

/// A flag setting: set to anything but the empty text.
pub open spec fn get_bool_spec(vars: Seq<(String, String)>, name: Seq<char>) -> bool {
    get_spec(vars, name, Seq::empty()).len() > 0
}

fn lookup_exec(vars: &Vec<(String, String)>, name: &str) -> (r: Option<Vec<char>>)
    ensures
        match r {
            Some(v) => lookup(vars@, name@) == Some(v@),
            None => lookup(vars@, name@) is None,
        },
{
    let want = to_chars(name);
    let mut i: usize = 0;
    assert(vars@.skip(0) =~= vars@);
    while i < vars.len()
        invariant
            i <= vars@.len(),
            want@ == name@,
            lookup(vars@, name@) == lookup(vars@.skip(i as int), name@),
        decreases vars@.len() - i,
    {
        let key = to_chars(vars[i].0.as_str());
        assert(vars@.skip(i as int)[0] == vars@[i as int]);
        if eq_chars(key.as_slice(), want.as_slice()) {
            let v = to_chars(vars[i].1.as_str());
            return Some(v);
        }
        assert(vars@.skip(i as int).drop_first() =~= vars@.skip(i + 1));
        i = i + 1;
    }
    None
}

fn get_exec(vars: &Vec<(String, String)>, name: &str, default: &str) -> (r: Vec<char>)
    ensures
        r@ == get_spec(vars@, name@, default@),
{
    match lookup_exec(vars, name) {
        Some(v) => v,
        None => to_chars(default),
    }
}

fn get_string(vars: &Vec<(String, String)>, name: &str) -> (r: String)
    ensures
        r@ == get_spec(vars@, name@, ""@),
{
    let v = get_exec(vars, name, "");
    from_chars(v.as_slice())
}

fn get_int(vars: &Vec<(String, String)>, name: &str, default: &str) -> (r: i64)
    ensures
        r == get_int_spec(vars@, name@, default@),
{
    let v = get_exec(vars, name, default);
    atoi_chars(v.as_slice())
}

fn get_bool(vars: &Vec<(String, String)>, name: &str) -> (r: bool)
    ensures
        r == get_bool_spec(vars@, name@),
{
    let v = get_exec(vars, name, "");
    proof {
        reveal_strlit("");
    }
    v.len() > 0
}

/// The settings that a set of environment variables describes.
pub open spec fn env_spec(e: Env, vars: Seq<(String, String)>) -> bool {
    let runid = get_int_spec(vars, "REDO_RUNID"@, ""@);
    &&& e.base@ == trim_end_char(lookup(vars, "REDO_BASE"@).unwrap(), '/')
    &&& e.pwd@ == get_spec(vars, "REDO_PWD"@, ""@)
    &&& e.target@ == get_spec(vars, "REDO_TARGET"@, ""@)
    &&& e.depth@ == get_spec(vars, "REDO_DEPTH"@, ""@)
    &&& e.debug == get_int_spec(vars, "REDO_DEBUG"@, ""@)
    &&& e.debug_locks == get_bool_spec(vars, "REDO_DEBUG_LOCKS"@)
    &&& e.debug_pids == get_bool_spec(vars, "REDO_DEBUG_PIDS"@)
    &&& e.locks_broken == get_bool_spec(vars, "REDO_LOCKS_BROKEN"@)
    &&& e.verbose == get_int_spec(vars, "REDO_VERBOSE"@, ""@)
    &&& e.xtrace == get_int_spec(vars, "REDO_XTRACE"@, ""@)
    &&& e.keep_going == get_bool_spec(vars, "REDO_KEEP_GOING"@)
    &&& e.log == get_int_spec(vars, "REDO_LOG"@, "1"@)
    &&& e.log_inode@ == get_spec(vars, "REDO_LOG_INODE"@, ""@)
    &&& e.color == get_int_spec(vars, "REDO_COLOR"@, ""@)
    &&& e.pretty == get_int_spec(vars, "REDO_PRETTY"@, ""@)
    &&& e.shuffle == get_bool_spec(vars, "REDO_SHUFFLE"@)
    &&& e.startdir@ == get_spec(vars, "REDO_STARTDIR"@, ""@)
    &&& e.runid == (if runid != 0 {
        Some(runid)
    } else {
        None
    })
    &&& e.unlocked == get_bool_spec(vars, "REDO_UNLOCKED"@)
    &&& e.no_oob == get_bool_spec(vars, "REDO_NO_OOB"@)
}

impl Env {
    /// Reads the settings from the environment variables `vars`, which
    /// must set `REDO_BASE`.
    pub fn from_environment(vars: &Vec<(String, String)>) -> (r: Env)
        requires
            lookup(vars@, "REDO_BASE"@) is Some,
        ensures
            env_spec(r, vars@),
    {
        let base_raw = match lookup_exec(vars, "REDO_BASE") {
            Some(v) => v,
            None => Vec::new(),
        };
        let base_t = trim_end_char_exec(base_raw.as_slice(), '/');
        let runid_val = get_int(vars, "REDO_RUNID", "");
        Env {
            base: from_chars(base_t.as_slice()),
            pwd: get_string(vars, "REDO_PWD"),
            target: get_string(vars, "REDO_TARGET"),
            depth: get_string(vars, "REDO_DEPTH"),
            debug: get_int(vars, "REDO_DEBUG", ""),
            debug_locks: get_bool(vars, "REDO_DEBUG_LOCKS"),
            debug_pids: get_bool(vars, "REDO_DEBUG_PIDS"),
            locks_broken: get_bool(vars, "REDO_LOCKS_BROKEN"),
            verbose: get_int(vars, "REDO_VERBOSE", ""),
            xtrace: get_int(vars, "REDO_XTRACE", ""),
            keep_going: get_bool(vars, "REDO_KEEP_GOING"),
            log: get_int(vars, "REDO_LOG", "1"),
            log_inode: get_string(vars, "REDO_LOG_INODE"),
            color: get_int(vars, "REDO_COLOR", ""),
            pretty: get_int(vars, "REDO_PRETTY", ""),
            shuffle: get_bool(vars, "REDO_SHUFFLE"),
            startdir: get_string(vars, "REDO_STARTDIR"),
            runid: if runid_val != 0 {
                Some(runid_val)
            } else {
                None
            },
            unlocked: get_bool(vars, "REDO_UNLOCKED"),
            no_oob: get_bool(vars, "REDO_NO_OOB"),
        }
    }
}

/// The process-wide session: the inherited settings, once read, and
/// whether this process is the top-level redo.
pub struct Session {
    pub v: Option<Env>,
    pub toplevel: bool,
}

impl Session {
    pub fn new() -> (r: Session)
        ensures
            r.v is None,
            !r.toplevel,
    {
        Session { v: None, toplevel: false }
    }

    /// Runs `f` on the settings, which must have been read.
    pub fn with_env<R, F: FnOnce(&Env) -> R>(&self, f: F) -> (r: R)
        requires
            self.v is Some,
            f.requires((&self.v->0,)),
        ensures
            f.ensures((&self.v->0,), r),
    {
        match &self.v {
            Some(e) => f(e),
            None => {
                proof {
                    assert(false);
                }
                f(&self.v.as_ref().unwrap())
            },
        }
    }

    /// Runs `f` on the settings, which must have been read, and keeps what
    /// it changes.
    pub fn with_env_mut<R, F: FnOnce(Env) -> (Env, R)>(&mut self, f: F) -> (r: R)
        requires
            old(self).v is Some,
            f.requires((old(self).v->0,)),
        ensures
            final(self).v is Some,
            final(self).toplevel == old(self).toplevel,
            f.ensures((old(self).v->0,), (final(self).v->0, r)),
    {
        let e = self.v.take().unwrap();
        let (e2, r) = f(e);
        self.v = Some(e2);
        r
    }

    pub fn is_toplevel(&self) -> (r: bool)
        ensures
            r == self.toplevel,
    {
        self.toplevel
    }
}

// ---------------------------------------------------------------------------
// Choosing the base directory
// ---------------------------------------------------------------------------

/// `prefix` cut back at slashes until `p` starts with it (down to the empty
/// text when no slash is left).
pub open spec fn shrink_to(p: Seq<char>, prefix: Seq<char>) -> Seq<char>
    decreases prefix.len(),
{
    if starts_with(p, prefix) {
        prefix
    } else {
        match rfind_char(prefix, '/') {
            Some(pos) => if 0 <= pos < prefix.len() {
                shrink_to(p, prefix.take(pos))
            } else {
                Seq::empty()
            },
            None => Seq::empty(),
        }
    }
}

/// The common prefix of the paths, cut at slashes, as the first path
/// shortened for each following one in turn.
pub open spec fn common_prefix_spec(paths: Seq<Seq<char>>) -> Seq<char>
    decreases paths.len(),
{
    if paths.len() == 0 {
        Seq::empty()
    } else if paths.len() == 1 {
        paths[0]
    } else {
        shrink_to(paths.last(), common_prefix_spec(paths.drop_last()))
    }
}

pub proof fn lemma_rfind_char_bound(s: Seq<char>, c: char)
    ensures
        rfind_char(s, c) matches Some(k) ==> 0 <= k < s.len(),
    decreases s.len(),
{
    if s.len() > 0 && s.last() != c {
        lemma_rfind_char_bound(s.drop_last(), c);
    }
}

fn shrink_to_exec(p: &[char], prefix: Vec<char>) -> (r: Vec<char>)
    ensures
        r@ == shrink_to(p@, prefix@),
    decreases prefix@.len(),
{
    if starts_with_exec(p, prefix.as_slice()) {
        prefix
    } else {
        proof {
            lemma_rfind_char_bound(prefix@, '/');
        }
        match rfind_char_exec(prefix.as_slice(), '/') {
            Some(pos) => {
                let cut = slice_prefix(prefix.as_slice(), pos);
                shrink_to_exec(p, cut)
            },
            None => Vec::new(),
        }
    }
}

/// The longest prefix common to all the paths, cut at slashes.
pub fn common_prefix(paths: &Vec<String>) -> (r: String)
    ensures
        r@ == common_prefix_spec(Seq::new(paths@.len(), |i: int| paths@[i]@)),
{
    let ghost ps = Seq::new(paths@.len(), |i: int| paths@[i]@);
    if paths.len() == 0 {
        return String::new();
    }
    let mut prefix = to_chars(paths[0].as_str());
    let mut i: usize = 1;
    assert(ps.take(1).drop_last() =~= Seq::<Seq<char>>::empty());
    assert(common_prefix_spec(ps.take(1)) == ps[0]);
    while i < paths.len()
        invariant
            1 <= i <= paths@.len(),
            ps == Seq::new(paths@.len(), |i: int| paths@[i]@),
            prefix@ == common_prefix_spec(ps.take(i as int)),
        decreases paths@.len() - i,
    {
        let p = to_chars(paths[i].as_str());
        prefix = shrink_to_exec(p.as_slice(), prefix);
        assert(ps.take(i + 1).drop_last() =~= ps.take(i as int));
        i = i + 1;
    }
    assert(ps.take(i as int) =~= ps);
    from_chars(prefix.as_slice())
}

/// The directories tried as the base, nearest first: each proper prefix of
/// `base` that ends before one of its slashes, down to the first piece.
pub open spec fn base_candidates_spec(base: Seq<char>) -> Seq<Seq<char>> {
    let parts = split(base, '/');
    Seq::new(
        (if parts.len() >= 1 {
            parts.len() - 1
        } else {
            0
        }) as nat,
        |k: int| join(parts.take(parts.len() - 1 - k), seq!['/']),
    )
}

/// The directories in which the top-level redo looks for an existing
/// `.redo` directory; the base becomes the first of them that has one.
pub fn base_candidates(base: &str) -> (r: Vec<String>)
    ensures
        Seq::new(r@.len(), |i: int| r@[i]@) == base_candidates_spec(base@),
{
    let b = to_chars(base);
    let parts = split_chars(b.as_slice(), '/');
    let ghost ps = seqs(parts@);
    let sep: Vec<char> = vec!['/'];
    assert(sep@ =~= seq!['/']);
    let mut r: Vec<String> = Vec::new();
    let n = parts.len();
    if n == 0 {
        proof {
            assert(base_candidates_spec(base@).len() == 0);
        }
        assert(Seq::new(r@.len(), |i: int| r@[i]@) =~= base_candidates_spec(base@));
        return r;
    }
    let mut i: usize = n - 1;
    while i >= 1
        invariant
            n == parts@.len(),
            ps == seqs(parts@),
            ps == split(base@, '/'),
            sep@ == seq!['/'],
            0 <= i <= n - 1,
            r@.len() == n - 1 - i,
            forall|k: int|
                0 <= k < r@.len() ==> #[trigger] r@[k]@ == join(ps.take(n - 1 - k), seq!['/']),
        decreases i,
    {
        let mut head: Vec<Vec<char>> = Vec::new();
        let mut j: usize = 0;
        while j < i
            invariant
                j <= i <= n - 1,
                n == parts@.len(),
                ps == seqs(parts@),
                seqs(head@) == ps.take(j as int),
                head@.len() == j,
                ps.len() == n,
            decreases i - j,
        {
            let piece = crate::text::copy_chars(parts[j].as_slice());
            assert(piece@ == ps[j as int]);
            let ghost hb = head@;
            head.push(piece);
            assert forall|k: int| 0 <= k < j + 1 implies #[trigger] seqs(head@)[k] == ps.take(
                j + 1,
            )[k] by {
                if k < j {
                    assert(head@[k] == hb[k]);
                    assert(seqs(hb)[k] == ps.take(j as int)[k]);
                }
            }
            assert(seqs(head@) =~= ps.take(j + 1));
            j = j + 1;
        }
        let joined = join_chars(&head, sep.as_slice());
        let ghost before = r@;
        r.push(from_chars(joined.as_slice()));
        assert forall|k: int| 0 <= k < r@.len() implies #[trigger] r@[k]@ == join(
            ps.take(n - 1 - k),
            seq!['/'],
        ) by {
            if k < before.len() {
                assert(r@[k] == before[k]);
            }
        }
        i = i - 1;
    }
    assert(Seq::new(r@.len(), |i: int| r@[i]@) =~= base_candidates_spec(base@));
    r
}

/// The absolute form of `t` seen from `cwd`, as `Path::join` builds it.
pub open spec fn joined_path(cwd: Seq<char>, t: Seq<char>) -> Seq<char> {
    if t.len() > 0 && t[0] == '/' {
        t
    } else if cwd.len() > 0 && cwd.last() == '/' {
        cwd + t
    } else if cwd.len() == 0 {
        t
    } else {
        cwd + seq!['/'] + t
    }
}

/// The directories whose common prefix is the first guess at the base:
/// the parent of each target (or of `all` when there is none), then `cwd`.
pub open spec fn start_dirs_spec(targets: Seq<Seq<char>>, cwd: Seq<char>) -> Seq<Seq<char>> {
    let ts = if targets.len() == 0 {
        seq!["all"@]
    } else {
        targets
    };
    Seq::new(ts.len(), |i: int| or_slash(path_parent(joined_path(cwd, ts[i])))).push(cwd)
}

fn joined_path_exec(cwd: &[char], t: &[char]) -> (r: Vec<char>)
    ensures
        r@ == joined_path(cwd@, t@),
{
    if t.len() > 0 && t[0] == '/' {
        crate::text::copy_chars(t)
    } else if cwd.len() > 0 && cwd[cwd.len() - 1] == '/' {
        let mut r = crate::text::copy_chars(cwd);
        append_slice(&mut r, t);
        r
    } else if cwd.len() == 0 {
        crate::text::copy_chars(t)
    } else {
        let mut r = crate::text::copy_chars(cwd);
        r.push('/');
        append_slice(&mut r, t);
        r
    }
}

pub fn start_dirs(targets: &Vec<String>, cwd: &str) -> (r: Vec<String>)
    ensures
        Seq::new(r@.len(), |i: int| r@[i]@) == start_dirs_spec(
            Seq::new(targets@.len(), |i: int| targets@[i]@),
            cwd@,
        ),
{
    let ghost tv = Seq::new(targets@.len(), |i: int| targets@[i]@);
    let mut ts: Vec<String> = Vec::new();
    if targets.len() == 0 {
        ts.push(String::from_str("all"));
        proof {
            assert(ts@[0]@ == "all"@);
        }
    } else {
        let mut k: usize = 0;
        while k < targets.len()
            invariant
                k <= targets@.len(),
                ts@.len() == k,
                forall|j: int| 0 <= j < k ==> #[trigger] ts@[j]@ == targets@[j]@,
            decreases targets@.len() - k,
        {
            ts.push(targets[k].clone());
            k = k + 1;
        }
    }
    let ghost tsv = if tv.len() == 0 {
        seq!["all"@]
    } else {
        tv
    };
    assert(Seq::new(ts@.len(), |i: int| ts@[i]@) =~= tsv);
    let c = to_chars(cwd);
    let mut r: Vec<String> = Vec::new();
    let mut i: usize = 0;
    while i < ts.len()
        invariant
            i <= ts@.len(),
            c@ == cwd@,
            Seq::new(ts@.len(), |i: int| ts@[i]@) == tsv,
            r@.len() == i,
            forall|j: int|
                0 <= j < i ==> #[trigger] r@[j]@ == or_slash(path_parent(joined_path(cwd@, tsv[j]))),
        decreases ts@.len() - i,
    {
        let t = to_chars(ts[i].as_str());
        assert(t@ == tsv[i as int]);
        let j = joined_path_exec(c.as_slice(), t.as_slice());
        let js = from_chars(j.as_slice());
        let p = match parent_of(js.as_str()) {
            Some(p) => p,
            None => String::from_str("/"),
        };
        proof {
            reveal_strlit("/");
        }
        r.push(p);
        i = i + 1;
    }
    r.push(String::from_str(cwd));
    assert(Seq::new(r@.len(), |i: int| r@[i]@) =~= start_dirs_spec(tv, cwd@));
    r
}

/// The `PATH` of a top-level build: the directories redo's helpers may be
/// in, each once in the order found, then the old `PATH`.
pub fn search_path(dirs: &Vec<String>, old_path: &str) -> (r: String)
    ensures
        r@ == join(crate::builder::dedup(crate::builder::strs(dirs@)), ":"@) + ":"@ + old_path@,
{
    let mut kept: Vec<Vec<char>> = Vec::new();
    let mut i: usize = 0;
    while i < dirs.len()
        invariant
            i <= dirs@.len(),
            seqs(kept@) == crate::builder::dedup(crate::builder::strs(dirs@).take(i as int)),
        decreases dirs@.len() - i,
    {
        let d = to_chars(dirs[i].as_str());
        assert(crate::builder::strs(dirs@).take(i + 1).drop_last() =~= crate::builder::strs(
            dirs@,
        ).take(i as int));
        assert(crate::builder::strs(dirs@).take(i + 1).last() == d@);
        if !crate::text::contains_chars(&kept, d.as_slice()) {
            let ghost kb = kept@;
            kept.push(d);
            proof {
                crate::text::lemma_seqs_push(kb, d);
            }
        }
        i = i + 1;
    }
    assert(crate::builder::strs(dirs@).take(i as int) =~= crate::builder::strs(dirs@));
    let sep = to_chars(":");
    let mut v = join_chars(&kept, sep.as_slice());
    append_slice(&mut v, sep.as_slice());
    let o = to_chars(old_path);
    append_slice(&mut v, o.as_slice());
    from_chars(v.as_slice())
}

} // verus!
