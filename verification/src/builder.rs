//! The decisions of a build: which targets to try and in what order, when
//! a target is left alone as a source or a hand-edited file, the command
//! line that runs its `.do` script, the environment the script sees, and
//! how the outcome of the script is judged and recorded.
use vstd::prelude::*;
use crate::state::{
    detect_override, detect_override_spec, opt_str, stamp_missing, stamped_view, warn_override,
    File, FileView, reached, changed_view,
};
use crate::text::{
    append_slice, contains_chars, has_char, debug_opt, debug_str, free_of, from_chars, i64_chars, int_str,
    quoted, quoted_opt, seqs, starts_with, starts_with_exec, to_chars, trim, trim_chars, words,
    words_chars, copy_chars,
};

verus! {

/// What a check of a target's dependencies found.
pub enum ShouldBuildResult {
    /// Up to date.
    Clean,
    /// To be rebuilt.
    Dirty,
    /// These dependencies are targets that must be checked first.
    NeedsBuild(Vec<File>),
}

/// The views of a vector of strings.
pub open spec fn strs(v: Seq<String>) -> Seq<Seq<char>> {
    Seq::new(v.len(), |i: int| v[i]@)
}

pub proof fn lemma_strs_push(v: Seq<String>, x: String)
    ensures
        strs(v.push(x)) == strs(v).push(x@),
{
    assert(strs(v.push(x)) =~= strs(v).push(x@));
}

pub proof fn lemma_take_push(s: Seq<Seq<char>>, k: int)
    requires
        0 <= k < s.len(),
    ensures
        s.take(k + 1) == s.take(k).push(s[k]),
{
    assert(s.take(k + 1) =~= s.take(k).push(s[k]));
}

// ---------------------------------------------------------------------------
// The targets of a run
// ---------------------------------------------------------------------------

/// The first target whose name holds a newline, if any.
pub open spec fn first_newline(ts: Seq<Seq<char>>) -> Option<int>
    decreases ts.len(),
{
    if ts.len() == 0 {
        None
    } else {
        match first_newline(ts.drop_last()) {
            Some(i) => Some(i),
            None => if !free_of(ts.last(), '\n') {
                Some(ts.len() - 1)
            } else {
                None
            },
        }
    }
}

/// Refuses target names that hold a newline: the message for the first
/// such name (the run then fails with exit code 204), if there is one.
pub fn check_targets(targets: &Vec<String>) -> (r: Option<String>)
    ensures
        match first_newline(strs(targets@)) {
            None => r is None,
            Some(i) => r matches Some(m) && m@ == debug_str(targets@[i]@)
                + ": filenames containing newlines are not allowed."@,
        },
{
    let mut i: usize = 0;
    while i < targets.len()
        invariant
            i <= targets@.len(),
            first_newline(strs(targets@).take(i as int)) is None,
        decreases targets@.len() - i,
    {
        let t = to_chars(targets[i].as_str());
        let has_nl = has_char(t.as_slice(), '\n');
        assert(strs(targets@).take(i + 1).drop_last() =~= strs(targets@).take(i as int));
        if has_nl {
            assert(first_newline(strs(targets@).take(i + 1)) == Some(i as int));
            assert(first_newline(strs(targets@)) == Some(i as int)) by {
                lemma_first_newline_prefix(strs(targets@), i as int);
            }
            let q = quoted(targets[i].as_str());
            let mut v = to_chars(q.as_str());
            let tail = to_chars(": filenames containing newlines are not allowed.");
            append_slice(&mut v, tail.as_slice());
            return Some(from_chars(v.as_slice()));
        }
        i = i + 1;
    }
    assert(strs(targets@).take(i as int) =~= strs(targets@));
    None
}

pub proof fn lemma_first_newline_prefix(ts: Seq<Seq<char>>, i: int)
    requires
        0 <= i < ts.len(),
        first_newline(ts.take(i + 1)) == Some(i),
    ensures
        first_newline(ts) == Some(i),
    decreases ts.len(),
{
    if ts.len() > i + 1 {
        assert(ts.drop_last().take(i + 1) =~= ts.take(i + 1));
        lemma_first_newline_prefix(ts.drop_last(), i);
    } else {
        assert(ts.take(i + 1) =~= ts);
    }
}

/// The targets after the swaps at positions `i`, `i - 1`, .., `1`: position
/// `k` trades places with `(seed + 31 k) % (k + 1)`.
pub open spec fn shuffle_from(s: Seq<Seq<char>>, seed: nat, i: int) -> Seq<Seq<char>>
    decreases i,
{
    if i < 1 || i >= s.len() {
        s
    } else {
        let j = ((seed + i * 31) % (i + 1)) as int;
        shuffle_from(s.update(i, s[j]).update(j, s[i]), seed, i - 1)
    }
}

/// The targets in the order of a `REDO_SHUFFLE` run for the given seed.
pub fn shuffle_targets(targets: &Vec<String>, seed: usize) -> (r: Vec<String>)
    requires
        seed + 31 * targets@.len() <= usize::MAX,
    ensures
        strs(r@) == shuffle_from(strs(targets@), seed as nat, targets@.len() - 1),
{
    let mut v: Vec<String> = Vec::new();
    let mut k: usize = 0;
    while k < targets.len()
        invariant
            k <= targets@.len(),
            strs(v@) == strs(targets@).take(k as int),
        decreases targets@.len() - k,
    {
        let ghost before = v@;
        let x = targets[k].clone();
        v.push(x);
        proof {
            lemma_strs_push(before, x);
            lemma_take_push(strs(targets@), k as int);
        }
        k = k + 1;
    }
    assert(strs(targets@).take(k as int) =~= strs(targets@));
    let n = v.len();
    if n < 2 {
        return v;
    }
    let mut i: usize = n - 1;
    while i >= 1
        invariant
            1 <= n,
            n == v@.len(),
            i < n,
            seed + 31 * n <= usize::MAX,
            shuffle_from(strs(targets@), seed as nat, n - 1) == shuffle_from(
                strs(v@),
                seed as nat,
                i as int,
            ),
        decreases i,
    {
        let j = (seed + i * 31) % (i + 1);
        let a = v[i].clone();
        let b = v[j].clone();
        let ghost before = strs(v@);
        v.set(i, b);
        v.set(j, a);
        assert(strs(v@) =~= before.update(i as int, before[j as int]).update(
            j as int,
            before[i as int],
        ));
        i = i - 1;
    }
    v
}

/// Walks the targets of a run's first pass: each name once, in order; an
/// empty name ends the pass.
pub struct FirstPass {
    pub pos: usize,
    pub seen: Vec<String>,
}

/// What comes next in a run's first pass.
#[derive(PartialEq, Eq, Structural, Debug, Clone, Copy)]
pub enum PassStep {
    /// No target is left.
    Finished,
    /// The target at this position is empty: the run fails with 204.
    EmptyTarget(usize),
    /// Build the target at this position.
    Target(usize),
}

impl FirstPass {
    pub fn new() -> (r: FirstPass)
        ensures
            r.pos == 0,
            r.seen@.len() == 0,
    {
        FirstPass { pos: 0, seen: Vec::new() }
    }

    /// The next target to build: names already seen are passed over.
    pub fn next(&mut self, targets: &Vec<String>) -> (r: PassStep)
        requires
            old(self).pos <= targets@.len(),
        ensures
            final(self).pos <= targets@.len(),
            match r {
                PassStep::Finished => {
                    &&& final(self).pos == targets@.len()
                    &&& forall|k: int|
                        old(self).pos <= k < targets@.len() ==> targets@[k]@.len() > 0
                            && strs(final(self).seen@).contains(targets@[k]@)
                },
                PassStep::EmptyTarget(i) => {
                    &&& old(self).pos <= i < targets@.len()
                    &&& targets@[i as int]@.len() == 0
                    &&& final(self).pos == i
                },
                PassStep::Target(i) => {
                    &&& old(self).pos <= i < targets@.len()
                    &&& targets@[i as int]@.len() > 0
                    &&& !strs(old(self).seen@).contains(targets@[i as int]@)
                    &&& final(self).pos == i + 1
                    &&& strs(final(self).seen@) == strs(old(self).seen@).push(targets@[i as int]@)
                },
            },
            forall|k: int|
                old(self).pos <= k < final(self).pos && !(r matches PassStep::Target(i) && k == i)
                    ==> targets@[k]@.len() > 0 && strs(old(self).seen@).contains(targets@[k]@),
    {
        let ghost seen0 = strs(self.seen@);
        let ghost pos0 = self.pos as int;
        while self.pos < targets.len()
            invariant
                pos0 <= self.pos <= targets@.len(),
                pos0 == old(self).pos,
                seen0 == strs(old(self).seen@),
                strs(self.seen@) == seen0,
                forall|k: int|
                    pos0 <= k < self.pos ==> targets@[k]@.len() > 0 && seen0.contains(
                        targets@[k]@,
                    ),
            decreases targets@.len() - self.pos,
        {
            let i = self.pos;
            let t = to_chars(targets[i].as_str());
            assert(t@ == strs(targets@)[i as int]);
            if t.len() == 0 {
                return PassStep::EmptyTarget(i);
            }
            let seen_chars = strings_as_chars(&self.seen);
            if !contains_chars(&seen_chars, t.as_slice()) {
                let ghost before = self.seen@;
                let x = targets[i].clone();
                self.seen.push(x);
                proof {
                    lemma_strs_push(before, x);
                }
                self.pos = i + 1;
                return PassStep::Target(i);
            }
            self.pos = i + 1;
        }
        PassStep::Finished
    }
}

pub fn strings_as_chars(v: &Vec<String>) -> (r: Vec<Vec<char>>)
    ensures
        seqs(r@) == strs(v@),
{
    let mut r: Vec<Vec<char>> = Vec::new();
    let mut i: usize = 0;
    while i < v.len()
        invariant
            i <= v@.len(),
            seqs(r@) == strs(v@).take(i as int),
        decreases v@.len() - i,
    {
        let ghost before = r@;
        let x = to_chars(v[i].as_str());
        r.push(x);
        proof {
            crate::text::lemma_seqs_push(before, x);
            lemma_take_push(strs(v@), i as int);
        }
        i = i + 1;
    }
    assert(strs(v@).take(i as int) =~= strs(v@));
    r
}

pub const EMPTY_TARGET_MESSAGE: &'static str = "cannot build the empty target (\"\").";

pub const INSANE_MESSAGE: &'static str = ".redo directory disappeared; cannot continue.";

/// The error for a target that failed in another process (exit code 2).
pub fn failed_elsewhere_message(nice: &str) -> (r: String)
    ensures
        r@ == nice@ + ": failed in another thread"@,
{
    let mut v = to_chars(nice);
    let tail = to_chars(": failed in another thread");
    append_slice(&mut v, tail.as_slice());
    from_chars(v.as_slice())
}

/// The error for a dependency cycle found while waiting for a lock (exit
/// code 208).
pub fn cyclic_message(nice: &str) -> (r: String)
    ensures
        r@ == "cyclic dependency while building "@ + nice@,
{
    let mut v = to_chars("cyclic dependency while building ");
    let n = to_chars(nice);
    append_slice(&mut v, n.as_slice());
    from_chars(v.as_slice())
}

// ---------------------------------------------------------------------------
// The first pass: each target in turn
// ---------------------------------------------------------------------------

/// What happened to the current target of a run's first pass.
#[derive(PartialEq, Eq, Structural, Debug, Clone, Copy)]
pub enum FirstPassEvent {
    /// A token is held for the target.
    TokenHeld,
    /// The state directory was checked (`sane`: it is still there).
    SaneChecked { sane: bool },
    /// The target's lock was tried (`owned`: it is held now).
    LockTried { owned: bool },
}

/// What the first pass does next with the current target.
#[derive(PartialEq, Eq, Structural, Debug, Clone, Copy)]
pub enum FirstPassAction {
    /// Leave the pass; the exit code stays as it is.
    Stop,
    /// Check that the state directory is still there.
    CheckSane,
    /// Set the exit code to this and leave the pass.
    Fail(i32),
    /// Try the target's lock without waiting.
    TryLock,
    /// Another process holds the target: keep it for the second pass.
    Defer,
    /// Build the target (it holds the lock).
    Build,
}

/// The first pass's decisions: a failure ends it unless `keep_going`; a
/// missing state directory fails with 205; a target whose lock is held
/// elsewhere waits for the second pass; any other target is built.
pub open spec fn first_pass_spec(keep_going: bool, retcode: i32, ev: FirstPassEvent) -> FirstPassAction {
    match ev {
        FirstPassEvent::TokenHeld => if retcode != 0 && !keep_going {
            FirstPassAction::Stop
        } else {
            FirstPassAction::CheckSane
        },
        FirstPassEvent::SaneChecked { sane } => if sane {
            FirstPassAction::TryLock
        } else {
            FirstPassAction::Fail(205)
        },
        FirstPassEvent::LockTried { owned } => if owned {
            FirstPassAction::Build
        } else {
            FirstPassAction::Defer
        },
    }
}

/// The next step of the first pass (see `first_pass_spec`).
pub fn first_pass_step(keep_going: bool, retcode: i32, ev: FirstPassEvent) -> (r: FirstPassAction)
    ensures
        r == first_pass_spec(keep_going, retcode, ev),
{
    match ev {
        FirstPassEvent::TokenHeld => {
            if retcode != 0 && !keep_going {
                FirstPassAction::Stop
            } else {
                FirstPassAction::CheckSane
            }
        },
        FirstPassEvent::SaneChecked { sane } => {
            if sane {
                FirstPassAction::TryLock
            } else {
                FirstPassAction::Fail(205)
            }
        },
        FirstPassEvent::LockTried { owned } => {
            if owned {
                FirstPassAction::Build
            } else {
                FirstPassAction::Defer
            }
        },
    }
}

// ---------------------------------------------------------------------------
// The second pass: targets that another process held locked
// ---------------------------------------------------------------------------

/// What happened in the second pass of a run.
#[derive(PartialEq, Eq, Structural, Debug, Clone, Copy)]
pub enum LockedEvent {
    /// The running jobs were waited for and a token is held again;
    /// `any_locked` tells whether a target is still waiting for its lock.
    Resumed { any_locked: bool },
    /// The state directory was checked (`sane`: it is still there).
    SaneChecked { sane: bool },
    /// Waiting for a target's lock would wait on a build up the chain.
    Cycle,
    /// The waited-for target's lock is held; `failed` tells whether the
    /// other process's build of it failed in this run.
    Acquired { failed: bool },
}

/// What the second pass does next.
#[derive(PartialEq, Eq, Structural, Debug, Clone, Copy)]
pub enum SecondPassAction {
    /// Leave the pass; the exit code stays as it is.
    Stop,
    /// Nothing is locked: wait for the running jobs again.
    KeepWaiting,
    /// Check that the state directory is still there.
    CheckSane,
    /// Take the next locked target and wait for its lock.
    TakeNext,
    /// Set the exit code to this and leave the pass.
    Fail(i32),
    /// Return this exit code from the run at once.
    Exit(i32),
    /// Set the exit code to this, give the lock back, and go on.
    FailedElsewhere(i32),
    /// Build the target (it holds the lock).
    Build,
}

/// The second pass's decisions: a failure ends it unless `keep_going`;
/// a missing state directory fails with 205; a dependency cycle returns
/// 208; a target that failed in another process gives 2; any other
/// target whose lock is held is built.
pub open spec fn second_pass_spec(keep_going: bool, retcode: i32, ev: LockedEvent) -> SecondPassAction {
    match ev {
        LockedEvent::Resumed { any_locked } => if retcode != 0 && !keep_going {
            SecondPassAction::Stop
        } else if any_locked {
            SecondPassAction::CheckSane
        } else {
            SecondPassAction::KeepWaiting
        },
        LockedEvent::SaneChecked { sane } => if sane {
            SecondPassAction::TakeNext
        } else {
            SecondPassAction::Fail(205)
        },
        LockedEvent::Cycle => SecondPassAction::Exit(208),
        LockedEvent::Acquired { failed } => if failed {
            SecondPassAction::FailedElsewhere(2)
        } else {
            SecondPassAction::Build
        },
    }
}

/// The next step of the second pass (see `second_pass_spec`).
pub fn second_pass_step(keep_going: bool, retcode: i32, ev: LockedEvent) -> (r: SecondPassAction)
    ensures
        r == second_pass_spec(keep_going, retcode, ev),
{
    match ev {
        LockedEvent::Resumed { any_locked } => {
            if retcode != 0 && !keep_going {
                SecondPassAction::Stop
            } else if any_locked {
                SecondPassAction::CheckSane
            } else {
                SecondPassAction::KeepWaiting
            }
        },
        LockedEvent::SaneChecked { sane } => {
            if sane {
                SecondPassAction::TakeNext
            } else {
                SecondPassAction::Fail(205)
            }
        },
        LockedEvent::Cycle => SecondPassAction::Exit(208),
        LockedEvent::Acquired { failed } => {
            if failed {
                SecondPassAction::FailedElsewhere(2)
            } else {
                SecondPassAction::Build
            }
        },
    }
}

// ---------------------------------------------------------------------------
// Before a build: overrides and sources
// ---------------------------------------------------------------------------

/// A generated target whose stamp on disk is not the one redo recorded, in
/// its time or size, was modified by hand.
pub open spec fn is_overridden(f: FileView, newstamp: Seq<char>) -> bool {
    f.is_generated && newstamp != stamp_missing() && (f.is_override || detect_override_spec(
        match f.stamp {
            Some(s) => s,
            None => Seq::empty(),
        },
        newstamp,
    ))
}

/// A target that exists and is not a directory is left alone when it was
/// modified by hand or is not generated by redo.
pub open spec fn is_static_now(f: FileView, t_exists: bool, t_is_dir: bool) -> bool {
    t_exists && !t_is_dir && (f.is_override || !f.is_generated)
}

/// What the checks before a build decided.
pub struct StartCheck {
    /// Warnings to report, in order.
    pub warnings: Vec<String>,
    /// The record was changed and must be saved.
    pub save: bool,
    /// The target is left as it is; its lock is released.
    pub is_static: bool,
}

/// The checks at the start of a build, on the record `sf` of the target
/// whose display name is `nice` and whose stamp on disk is `newstamp`: a
/// target modified by hand is marked overridden (with warnings the first
/// time); a source or overridden file is then left alone.
pub fn start_build_checks(
    sf: &mut File,
    newstamp: &str,
    nice: &str,
    t_exists: bool,
    t_is_dir: bool,
    runid: Option<i64>,
) -> (r: StartCheck)
    requires
        t_exists ==> newstamp@ != stamp_missing(),
    ensures
        ({
            let over = is_overridden(old(sf)@, newstamp@);
            let mid = if over && !old(sf)@.is_override {
                FileView {
                    failed_runid: None,
                    is_override: true,
                    ..stamped_view(old(sf)@, newstamp@, runid)
                }
            } else {
                old(sf)@
            };
            let stat = is_static_now(mid, t_exists, t_is_dir);
            &&& r.is_static == stat
            &&& r.save == (over || stat)
            &&& final(sf)@ == if stat && !mid.is_override {
                FileView {
                    failed_runid: None,
                    is_override: false,
                    is_generated: false,
                    ..stamped_view(mid, newstamp@, runid)
                }
            } else {
                mid
            }
            &&& strs(r.warnings@) == if !over {
                Seq::<Seq<char>>::empty()
            } else if old(sf)@.is_override {
                seq![nice@ + " - you modified it; skipping"@]
            } else {
                seq![
                    nice@ + " - you modified it; skipping"@,
                    nice@ + " - old: "@ + debug_opt(old(sf)@.stamp),
                    nice@ + " - new: "@ + debug_str(newstamp@),
                ]
            }
        }),
{
    let mut warnings: Vec<String> = Vec::new();
    let nv = to_chars(newstamp);
    let missing = crate::state::is_missing_stamp(nv.as_slice());
    let old_stamp = match &sf.stamp {
        Some(s) => String::from_str(s.as_str()),
        None => String::new(),
    };
    proof {
        reveal_strlit("");
    }
    let over = sf.is_generated && !missing && (sf.is_override || detect_override(
        old_stamp.as_str(),
        newstamp,
    ));
    let mut save = false;
    if over {
        warnings.push(warn_override(nice));
        if !sf.is_override {
            let mut a = to_chars(nice);
            let oldtxt = to_chars(" - old: ");
            append_slice(&mut a, oldtxt.as_slice());
            let q = quoted_opt(&sf.stamp);
            let qv = to_chars(q.as_str());
            append_slice(&mut a, qv.as_slice());
            warnings.push(from_chars(a.as_slice()));
            let mut b = to_chars(nice);
            let newtxt = to_chars(" - new: ");
            append_slice(&mut b, newtxt.as_slice());
            let q2 = quoted(newstamp);
            let q2v = to_chars(q2.as_str());
            append_slice(&mut b, q2v.as_slice());
            warnings.push(from_chars(b.as_slice()));
            sf.set_override(newstamp, runid);
        }
        save = true;
    }
    let stat = t_exists && !t_is_dir && (sf.is_override || !sf.is_generated);
    if stat {
        if !sf.is_override {
            sf.set_static(newstamp, runid);
        }
        save = true;
    }
    assert(strs(warnings@) =~= if !over {
        Seq::<Seq<char>>::empty()
    } else if old(sf)@.is_override {
        seq![nice@ + " - you modified it; skipping"@]
    } else {
        seq![
            nice@ + " - you modified it; skipping"@,
            nice@ + " - old: "@ + debug_opt(old(sf)@.stamp),
            nice@ + " - new: "@ + debug_str(newstamp@),
        ]
    });
    StartCheck { warnings, save, is_static: stat }
}

/// When no `.do` file is found: a target that exists becomes a source;
/// otherwise the build fails (exit code 1) with the returned message.
pub fn no_dofile(sf: &mut File, t: &str, t_exists: bool, newstamp: &str, runid: Option<i64>) -> (r:
    Option<String>)
    requires
        t_exists ==> newstamp@ != stamp_missing(),
    ensures
        t_exists ==> r is None && final(sf)@ == (FileView {
            failed_runid: None,
            is_override: false,
            is_generated: false,
            ..stamped_view(old(sf)@, newstamp@, runid)
        }),
        !t_exists ==> (r matches Some(m) && m@ == "no rule to redo "@ + debug_str(t@))
            && final(sf)@ == (FileView {
            failed_runid: runid,
            is_generated: stamped_view(old(sf)@, newstamp@, runid).stamp != Some(
                stamp_missing(),
            ),
            ..stamped_view(old(sf)@, newstamp@, runid)
        }),
{
    if t_exists {
        sf.set_static(newstamp, runid);
        None
    } else {
        let mut v = to_chars("no rule to redo ");
        let q = quoted(t);
        let qv = to_chars(q.as_str());
        append_slice(&mut v, qv.as_slice());
        sf.set_failed(newstamp, runid);
        Some(from_chars(v.as_slice()))
    }
}

// ---------------------------------------------------------------------------
// Running the .do script
// ---------------------------------------------------------------------------

/// The temporary output `$3` of a build: `dodir/basename ext.redo.tmp`.
pub open spec fn tmpname_spec(dodir: Seq<char>, basename: Seq<char>, ext: Seq<char>) -> Seq<char> {
    dodir + "/"@ + basename + ext + ".redo.tmp"@
}

pub fn tmpname(dodir: &str, basename: &str, ext: &str) -> (r: String)
    ensures
        r@ == tmpname_spec(dodir@, basename@, ext@),
{
    let mut v = to_chars(dodir);
    let slash = to_chars("/");
    append_slice(&mut v, slash.as_slice());
    let b = to_chars(basename);
    append_slice(&mut v, b.as_slice());
    let e = to_chars(ext);
    append_slice(&mut v, e.as_slice());
    let tail = to_chars(".redo.tmp");
    append_slice(&mut v, tail.as_slice());
    from_chars(v.as_slice())
}

/// The absolute form of a path, as `os.path.abspath` joins it to `cwd`.
pub open spec fn abs_path(cwd: Seq<char>, p: Seq<char>) -> Seq<char> {
    if p.len() > 0 && p[0] == '/' {
        p
    } else {
        cwd + "/"@ + p
    }
}

pub fn abs_path_exec(cwd: &str, p: &str) -> (r: String)
    ensures
        r@ == abs_path(cwd@, p@),
{
    let pv = to_chars(p);
    if pv.len() > 0 && pv[0] == '/' {
        String::from_str(p)
    } else {
        let mut v = to_chars(cwd);
        let slash = to_chars("/");
        append_slice(&mut v, slash.as_slice());
        append_slice(&mut v, pv.as_slice());
        from_chars(v.as_slice())
    }
}

/// The interpreter named by a `#!/` first line: the words after `#!`.
pub open spec fn shebang(first_line: Seq<char>) -> Option<Seq<Seq<char>>> {
    let l = trim(first_line);
    if starts_with(l, "#!/"@) {
        Some(words(l.skip(2)))
    } else {
        None
    }
}

/// The command that runs a `.do` script: `sh -e` (with `v` and `x` added
/// for verbose and trace runs) or the interpreter of its `#!` line, then
/// the script, `$1` (target), `$2` (target without extension) and `$3`
/// (temporary output).
pub open spec fn do_argv_spec(
    dofile: Seq<char>,
    basename: Seq<char>,
    ext: Seq<char>,
    tmp_rel: Seq<char>,
    verbose: bool,
    xtrace: bool,
    first_line: Seq<char>,
) -> Seq<Seq<char>> {
    let flags = "-e"@ + (if verbose {
        "v"@
    } else {
        Seq::empty()
    }) + (if xtrace {
        "x"@
    } else {
        Seq::empty()
    });
    let rest = seq![dofile, basename + ext, basename, tmp_rel];
    match shebang(first_line) {
        Some(ws) => ws + rest,
        None => seq!["sh"@, flags] + rest,
    }
}

pub fn do_argv(
    dofile: &str,
    basename: &str,
    ext: &str,
    tmp_rel: &str,
    verbose: bool,
    xtrace: bool,
    first_line: &str,
) -> (r: Vec<String>)
    ensures
        strs(r@) == do_argv_spec(dofile@, basename@, ext@, tmp_rel@, verbose, xtrace, first_line@),
{
    let mut argv: Vec<String> = Vec::new();
    let fl = to_chars(first_line);
    let l = trim_chars(fl.as_slice());
    let mark = to_chars("#!/");
    proof {
        reveal_strlit("#!/");
    }
    if starts_with_exec(l.as_slice(), mark.as_slice()) {
        let n = l.len();
        let after = crate::text::slice_range(l.as_slice(), 2, n);
        assert(after@ =~= l@.skip(2));
        let ws = words_chars(after.as_slice());
        let mut i: usize = 0;
        while i < ws.len()
            invariant
                i <= ws@.len(),
                strs(argv@) == seqs(ws@).take(i as int),
            decreases ws@.len() - i,
        {
            let ghost before = argv@;
            let x = from_chars(ws[i].as_slice());
            argv.push(x);
            proof {
                lemma_strs_push(before, x);
                lemma_take_push(seqs(ws@), i as int);
            }
            i = i + 1;
        }
        assert(seqs(ws@).take(i as int) =~= seqs(ws@));
    } else {
        argv.push(String::from_str("sh"));
        let mut flags = to_chars("-e");
        if verbose {
            flags.push('v');
        }
        if xtrace {
            flags.push('x');
        }
        proof {
            reveal_strlit("v");
            reveal_strlit("x");
        }
        assert(flags@ =~= "-e"@ + (if verbose {
            "v"@
        } else {
            Seq::empty()
        }) + (if xtrace {
            "x"@
        } else {
            Seq::empty()
        }));
        argv.push(from_chars(flags.as_slice()));
    }
    let ghost head = strs(argv@);
    argv.push(String::from_str(dofile));
    let mut a1 = to_chars(basename);
    let e = to_chars(ext);
    append_slice(&mut a1, e.as_slice());
    argv.push(from_chars(a1.as_slice()));
    argv.push(String::from_str(basename));
    argv.push(String::from_str(tmp_rel));
    assert(strs(argv@) =~= head + seq![dofile@, basename@ + ext@, basename@, tmp_rel@]);
    argv
}

/// A change to the environment of a child process.
pub enum EnvChange {
    Put(String, String),
    Remove(String),
}

pub open spec fn env_change_view(c: EnvChange) -> (Seq<char>, Option<Seq<char>>) {
    match c {
        EnvChange::Put(k, v) => (k@, Some(v@)),
        EnvChange::Remove(k) => (k@, None),
    }
}

pub open spec fn changes(v: Seq<EnvChange>) -> Seq<(Seq<char>, Option<Seq<char>>)> {
    Seq::new(v.len(), |i: int| env_change_view(v[i]))
}

/// How the log of the child goes: into a new log file (when logging is on
/// and this process's stderr is the log redo set up, or none was set up),
/// left alone, or off.
#[derive(PartialEq, Eq, Structural, Debug, Clone, Copy)]
pub enum ChildLog {
    NewLogFile,
    Inherit,
    Off,
}

/// Where the script's stderr goes.
pub fn child_log(log: i64, log_inode: &str, cur_inode: &str) -> (r: ChildLog)
    ensures
        r == if log != 0 {
            if log_inode@.len() == 0 || cur_inode@ == log_inode@ {
                ChildLog::NewLogFile
            } else {
                ChildLog::Inherit
            }
        } else {
            ChildLog::Off
        },
{
    if log != 0 {
        let a = to_chars(log_inode);
        let b = to_chars(cur_inode);
        if a.len() == 0 || crate::text::eq_chars(b.as_slice(), a.as_slice()) {
            ChildLog::NewLogFile
        } else {
            ChildLog::Inherit
        }
    } else {
        ChildLog::Off
    }
}

fn set_var(k: &str, v: &str) -> (r: EnvChange)
    ensures
        env_change_view(r) == (k@, Some(v@)),
{
    EnvChange::Put(String::from_str(k), String::from_str(v))
}

/// The environment a `.do` script runs with: `CDPATH` removed, its
/// directory relative to the start directory, its target `$1`, one more
/// level of indent, the one-level `-v`/`-x` turned off for it, and the log
/// settings for `log` (with the inode of a new log file).
pub fn child_env(
    pwd_rel: &str,
    target: &str,
    depth: &str,
    verbose: i64,
    xtrace: i64,
    log: ChildLog,
    new_inode: &str,
) -> (r: Vec<EnvChange>)
    ensures
        changes(r@) == seq![
            ("CDPATH"@, None::<Seq<char>>),
            ("REDO_PWD"@, Some(pwd_rel@)),
            ("REDO_TARGET"@, Some(target@)),
            ("REDO_DEPTH"@, Some(depth@ + "  "@)),
        ] + (if xtrace == 1 {
            seq![("REDO_XTRACE"@, Some("0"@))]
        } else {
            Seq::empty()
        }) + (if verbose == 1 {
            seq![("REDO_VERBOSE"@, Some("0"@))]
        } else {
            Seq::empty()
        }) + match log {
            ChildLog::NewLogFile => seq![
                ("REDO_LOG"@, Some("1"@)),
                ("REDO_LOG_INODE"@, Some(new_inode@)),
            ],
            ChildLog::Inherit => Seq::empty(),
            ChildLog::Off => seq![("REDO_LOG_INODE"@, None), ("REDO_LOG"@, Some(""@))],
        },
{
    let mut r: Vec<EnvChange> = Vec::new();
    r.push(EnvChange::Remove(String::from_str("CDPATH")));
    r.push(set_var("REDO_PWD", pwd_rel));
    r.push(set_var("REDO_TARGET", target));
    let mut d = to_chars(depth);
    let sp = to_chars("  ");
    append_slice(&mut d, sp.as_slice());
    let ds = from_chars(d.as_slice());
    r.push(set_var("REDO_DEPTH", ds.as_str()));
    let ghost base = changes(r@);
    if xtrace == 1 {
        r.push(set_var("REDO_XTRACE", "0"));
    }
    let ghost b2 = changes(r@);
    if verbose == 1 {
        r.push(set_var("REDO_VERBOSE", "0"));
    }
    let ghost b3 = changes(r@);
    match log {
        ChildLog::NewLogFile => {
            r.push(set_var("REDO_LOG", "1"));
            r.push(set_var("REDO_LOG_INODE", new_inode));
        },
        ChildLog::Inherit => {},
        ChildLog::Off => {
            r.push(EnvChange::Remove(String::from_str("REDO_LOG_INODE")));
            r.push(set_var("REDO_LOG", ""));
        },
    }
    assert(changes(r@) =~= seq![
        ("CDPATH"@, None::<Seq<char>>),
        ("REDO_PWD"@, Some(pwd_rel@)),
        ("REDO_TARGET"@, Some(target@)),
        ("REDO_DEPTH"@, Some(depth@ + "  "@)),
    ] + (if xtrace == 1 {
        seq![("REDO_XTRACE"@, Some("0"@))]
    } else {
        Seq::empty()
    }) + (if verbose == 1 {
        seq![("REDO_VERBOSE"@, Some("0"@))]
    } else {
        Seq::empty()
    }) + match log {
        ChildLog::NewLogFile => seq![
            ("REDO_LOG"@, Some("1"@)),
            ("REDO_LOG_INODE"@, Some(new_inode@)),
        ],
        ChildLog::Inherit => Seq::empty(),
        ChildLog::Off => seq![("REDO_LOG_INODE"@, None), ("REDO_LOG"@, Some(""@))],
    });
    r
}

// ---------------------------------------------------------------------------
// After the script: judging and recording the outcome
// ---------------------------------------------------------------------------

/// The exit code of a build once its outputs are checked: 206 when the
/// script changed the target itself (it now exists, is not a directory, and
/// did not exist before or has another modification time), then 207 when it
/// both wrote to stdout and created `$3`.
pub open spec fn checked_rv(
    rv: i32,
    before_mtime: Option<i64>,
    after: Option<(i64, bool)>,
    stdout_size: u64,
    tmp_exists: bool,
) -> i32 {
    let rv1 = match after {
        Some((mtime, is_dir)) => if (before_mtime is None || before_mtime != Some(mtime))
            && !is_dir {
            206
        } else {
            rv
        },
        None => rv,
    };
    if tmp_exists && stdout_size > 0 {
        207
    } else {
        rv1
    }
}

/// The exit code after the output checks, and the errors they report.
pub fn check_outputs(
    t: &str,
    rv: i32,
    before_mtime: Option<i64>,
    after: Option<(i64, bool)>,
    stdout_size: u64,
    tmp_exists: bool,
) -> (r: (i32, Vec<String>))
    ensures
        r.0 == checked_rv(rv, before_mtime, after, stdout_size, tmp_exists),
        r.1@.len() > 0 ==> r.0 == 206 || r.0 == 207,
        r.1@.len() == 0 ==> r.0 == rv,
        before_mtime is None && (after matches Some((_, is_dir)) && !is_dir) ==> r.0 == 206 || r.0
            == 207,
        strs(r.1@) == (match after {
            Some((mtime, is_dir)) => if (before_mtime is None || before_mtime != Some(mtime))
                && !is_dir {
                seq![
                    "dofile modified "@ + t@ + " directly!"@,
                    "...you should update $3 (a temp file) or stdout, not $1."@,
                ]
            } else {
                Seq::<Seq<char>>::empty()
            },
            None => Seq::<Seq<char>>::empty(),
        }) + (if tmp_exists && stdout_size > 0 {
            seq![
                "dofile wrote to stdout *and* created $3."@,
                "...you should write status messages to stderr, not stdout."@,
            ]
        } else {
            Seq::<Seq<char>>::empty()
        }),
{
    let mut r = rv;
    let mut msgs: Vec<String> = Vec::new();
    match after {
        Some((mtime, is_dir)) => {
            let changed = match before_mtime {
                None => true,
                Some(b) => b != mtime,
            };
            if changed && !is_dir {
                let mut m = to_chars("dofile modified ");
                let tv = to_chars(t);
                append_slice(&mut m, tv.as_slice());
                let tail = to_chars(" directly!");
                append_slice(&mut m, tail.as_slice());
                msgs.push(from_chars(m.as_slice()));
                msgs.push(String::from_str("...you should update $3 (a temp file) or stdout, not $1."));
                r = 206;
            }
        },
        None => {},
    }
    let ghost first = strs(msgs@);
    if tmp_exists && stdout_size > 0 {
        msgs.push(String::from_str("dofile wrote to stdout *and* created $3."));
        msgs.push(String::from_str("...you should write status messages to stderr, not stdout."));
        r = 207;
    }
    assert(strs(msgs@) =~= (match after {
        Some((mtime, is_dir)) => if (before_mtime is None || before_mtime != Some(mtime))
            && !is_dir {
            seq![
                "dofile modified "@ + t@ + " directly!"@,
                "...you should update $3 (a temp file) or stdout, not $1."@,
            ]
        } else {
            Seq::<Seq<char>>::empty()
        },
        None => Seq::<Seq<char>>::empty(),
    }) + (if tmp_exists && stdout_size > 0 {
        seq![
            "dofile wrote to stdout *and* created $3."@,
            "...you should write status messages to stderr, not stdout."@,
        ]
    } else {
        Seq::<Seq<char>>::empty()
    }));
    (r, msgs)
}

/// How the output of a successful script becomes the target.
#[derive(PartialEq, Eq, Structural, Debug, Clone, Copy)]
pub enum OutputPlan {
    /// Copy what the script wrote to stdout into `$3`, then rename it.
    CopyStdout,
    /// Rename `$3` over the target.
    Rename,
    /// The script produced nothing: remove the target.
    Unlink,
}

/// Decides how the outputs of a script that succeeded become the target.
pub fn output_plan(stdout_size: u64, tmp_exists: bool) -> (r: OutputPlan)
    ensures
        r == if stdout_size > 0 && !tmp_exists {
            OutputPlan::CopyStdout
        } else if tmp_exists {
            OutputPlan::Rename
        } else {
            OutputPlan::Unlink
        },
{
    if stdout_size > 0 && !tmp_exists {
        OutputPlan::CopyStdout
    } else if tmp_exists {
        OutputPlan::Rename
    } else {
        OutputPlan::Unlink
    }
}

/// The record of a target that was just built: generated, not overridden;
/// in a run that had already checked or changed it only its stamp is
/// refreshed, otherwise it is stamped and marked changed.
pub open spec fn built_view(f: FileView, newstamp: Seq<char>, runid: Option<i64>) -> FileView {
    let g = FileView { is_generated: true, is_override: false, ..f };
    if reached(g.checked_runid, runid) || reached(g.changed_runid, runid) {
        FileView { stamp: Some(newstamp), ..g }
    } else {
        changed_view(stamped_view(FileView { csum: None, ..g }, newstamp, runid), runid)
    }
}

/// Records a successful build of `sf` (as re-read from the database) whose
/// stamp on disk is now `newstamp`.
pub fn record_built(sf: &mut File, newstamp: &str, runid: Option<i64>)
    ensures
        final(sf)@ == built_view(old(sf)@, newstamp@, runid),
{
    sf.is_generated = true;
    sf.is_override = false;
    if sf.is_checked(runid) || sf.is_changed(runid) {
        sf.stamp = Some(String::from_str(newstamp));
    } else {
        sf.csum = None;
        sf.update_stamp(newstamp, false, runid);
        sf.set_changed(runid);
    }
}

/// The text of the `done` meta line: the exit code and the target.
pub fn done_text(rv: i32, target: &str) -> (r: String)
    ensures
        r@ == int_str(rv as int) + " "@ + target@,
{
    let mut v = i64_chars(rv as i64);
    let sp = to_chars(" ");
    append_slice(&mut v, sp.as_slice());
    let t = to_chars(target);
    append_slice(&mut v, t.as_slice());
    from_chars(v.as_slice())
}

// ---------------------------------------------------------------------------
// Checking dependencies in a child process
// ---------------------------------------------------------------------------

/// `v` without repeats, each kept at its first place.
pub open spec fn dedup(v: Seq<Seq<char>>) -> Seq<Seq<char>>
    decreases v.len(),
{
    if v.len() == 0 {
        Seq::empty()
    } else {
        let d = dedup(v.drop_last());
        if d.contains(v.last()) {
            d
        } else {
            d.push(v.last())
        }
    }
}

/// The command that checks a target's dirty dependencies in a child
/// process: `redo-unlocked`, the target, then each dependency once.
pub fn unlocked_argv(target: &str, deps: &Vec<String>) -> (r: Vec<String>)
    ensures
        strs(r@) == seq!["redo-unlocked"@, target@] + dedup(strs(deps@)),
{
    let mut kept: Vec<Vec<char>> = Vec::new();
    let mut out: Vec<String> = Vec::new();
    out.push(String::from_str("redo-unlocked"));
    out.push(String::from_str(target));
    let ghost head = strs(out@);
    let mut i: usize = 0;
    while i < deps.len()
        invariant
            i <= deps@.len(),
            seqs(kept@) == dedup(strs(deps@).take(i as int)),
            strs(out@) == head + seqs(kept@),
        decreases deps@.len() - i,
    {
        let d = to_chars(deps[i].as_str());
        assert(strs(deps@).take(i + 1).drop_last() =~= strs(deps@).take(i as int));
        if !contains_chars(&kept, d.as_slice()) {
            let ghost kb = kept@;
            let ghost ob = out@;
            let dc = copy_chars(d.as_slice());
            kept.push(dc);
            let x = deps[i].clone();
            out.push(x);
            proof {
                crate::text::lemma_seqs_push(kb, dc);
                lemma_strs_push(ob, x);
                assert(x@ == d@);
            }
        }
        i = i + 1;
    }
    assert(strs(deps@).take(i as int) =~= strs(deps@));
    out
}

// ---------------------------------------------------------------------------
// The log reader
// ---------------------------------------------------------------------------

/// The command line of the `redo-log` process that follows the logs of a
/// top-level build.
pub open spec fn log_reader_argv_spec(
    ack_fd: i32,
    status: bool,
    details: bool,
    pretty: i64,
    color: i64,
    debug_locks: bool,
    debug_pids: bool,
) -> Seq<Seq<char>> {
    seq![
        "redo-log"@,
        "--recursive"@,
        "--follow"@,
        "--ack-fd"@,
        int_str(ack_fd as int),
        if status { "--status"@ } else { "--no-status"@ },
        if details { "--details"@ } else { "--no-details"@ },
        if pretty != 0 { "--pretty"@ } else { "--no-pretty"@ },
        if debug_locks { "--debug-locks"@ } else { "--no-debug-locks"@ },
        if debug_pids { "--debug-pids"@ } else { "--no-debug-pids"@ },
    ] + (if color != 1 {
        seq![if color >= 2 { "--color"@ } else { "--no-color"@ }]
    } else {
        Seq::empty()
    }) + seq!["-"@]
}

fn pick(b: bool, yes: &str, no: &str) -> (r: String)
    ensures
        r@ == if b {
            yes@
        } else {
            no@
        },
{
    if b {
        String::from_str(yes)
    } else {
        String::from_str(no)
    }
}

/// The `redo-log` command line; `status` is shown only on a terminal
/// (`is_tty`).
pub fn log_reader_argv(
    ack_fd: i32,
    status: bool,
    is_tty: bool,
    details: bool,
    pretty: i64,
    color: i64,
    debug_locks: bool,
    debug_pids: bool,
) -> (r: Vec<String>)
    ensures
        strs(r@) == log_reader_argv_spec(
            ack_fd,
            status && is_tty,
            details,
            pretty,
            color,
            debug_locks,
            debug_pids,
        ),
{
    let mut v: Vec<String> = Vec::new();
    v.push(String::from_str("redo-log"));
    v.push(String::from_str("--recursive"));
    v.push(String::from_str("--follow"));
    v.push(String::from_str("--ack-fd"));
    let fd = i64_chars(ack_fd as i64);
    v.push(from_chars(fd.as_slice()));
    v.push(pick(status && is_tty, "--status", "--no-status"));
    v.push(pick(details, "--details", "--no-details"));
    v.push(pick(pretty != 0, "--pretty", "--no-pretty"));
    v.push(pick(debug_locks, "--debug-locks", "--no-debug-locks"));
    v.push(pick(debug_pids, "--debug-pids", "--no-debug-pids"));
    let ghost head = strs(v@);
    if color != 1 {
        v.push(pick(color >= 2, "--color", "--no-color"));
    }
    v.push(String::from_str("-"));
    assert(strs(v@) =~= log_reader_argv_spec(
        ack_fd,
        status && is_tty,
        details,
        pretty,
        color,
        debug_locks,
        debug_pids,
    ));
    v
}

// ---------------------------------------------------------------------------
// Laws
// ---------------------------------------------------------------------------

/// Trading the places of two targets keeps the same targets.
pub proof fn lemma_swap_keeps_targets(s: Seq<Seq<char>>, i: int, j: int)
    requires
        0 <= i < s.len(),
        0 <= j < s.len(),
    ensures
        s.update(i, s[j]).update(j, s[i]).to_multiset() == s.to_multiset(),
{
    broadcast use {
        vstd::seq_lib::to_multiset_update,
        vstd::seq_lib::to_multiset_contains,
        vstd::multiset::group_multiset_axioms,
    };
    let s1 = s.update(i, s[j]);
    assert(s1[j] == s[j]);
    assert(s.contains(s[i]));
    assert(s1.update(j, s[i]).to_multiset() =~= s.to_multiset());
}

/// A shuffled run builds the same targets, each as often, in another order.
pub proof fn law_shuffle_keeps_targets(s: Seq<Seq<char>>, seed: nat, i: int)
    ensures
        shuffle_from(s, seed, i).to_multiset() == s.to_multiset(),
    decreases i,
{
    if !(i < 1 || i >= s.len()) {
        let j = ((seed + i * 31) % (i + 1)) as int;
        let s2 = s.update(i, s[j]).update(j, s[i]);
        lemma_swap_keeps_targets(s, i, j);
        law_shuffle_keeps_targets(s2, seed, i - 1);
    }
}

/// Removing repeats lists each name once, and every name that was there.
pub proof fn law_dedup_lists_each_once(v: Seq<Seq<char>>)
    ensures
        dedup(v).no_duplicates(),
        forall|x: Seq<char>| dedup(v).contains(x) <==> v.contains(x),
    decreases v.len(),
{
    if v.len() > 0 {
        law_dedup_lists_each_once(v.drop_last());
        let d = dedup(v.drop_last());
        assert forall|x: Seq<char>| v.contains(x) <==> (v.drop_last().contains(x) || x == v.last()) by {
            if v.contains(x) {
                let k = choose|k: int| 0 <= k < v.len() && v[k] == x;
                if k < v.len() - 1 {
                    assert(v.drop_last()[k] == x);
                }
            }
            if v.drop_last().contains(x) {
                let k = choose|k: int| 0 <= k < v.drop_last().len() && v.drop_last()[k] == x;
                assert(v[k] == x);
            }
            if x == v.last() {
                assert(v[v.len() - 1] == x);
            }
        }
        if !d.contains(v.last()) {
            let d2 = d.push(v.last());
            assert forall|x: Seq<char>| d2.contains(x) <==> (d.contains(x) || x == v.last()) by {
                if d2.contains(x) {
                    let k = choose|k: int| 0 <= k < d2.len() && d2[k] == x;
                    if k < d.len() {
                        assert(d[k] == x);
                    }
                }
                if d.contains(x) {
                    let k = choose|k: int| 0 <= k < d.len() && d[k] == x;
                    assert(d2[k] == x);
                }
                if x == v.last() {
                    assert(d2[d.len() as int] == x);
                }
            }
            assert forall|a: int, b: int| 0 <= a < d2.len() && 0 <= b < d2.len() && a != b implies d2[a] != d2[b] by {
                if a < d.len() && b < d.len() {
                } else if a < d.len() {
                    assert(d.contains(d2[a]));
                } else if b < d.len() {
                    assert(d.contains(d2[b]));
                }
            }
        }
    }
}

/// The exit code that the output checks leave: a script that wrote to
/// stdout and also created `$3` fails with 207; otherwise one that wrote the
/// target `$1` itself (the target is not a directory and is new or has a new
/// mtime) fails with 206; otherwise the script's own code stands.
pub proof fn law_output_checks_fail_the_build(
    rv: i32,
    before_mtime: Option<i64>,
    after: Option<(i64, bool)>,
    stdout_size: u64,
    tmp_exists: bool,
)
    ensures
        tmp_exists && stdout_size > 0 ==> checked_rv(rv, before_mtime, after, stdout_size, tmp_exists)
            == 207,
        !(tmp_exists && stdout_size > 0) && (after matches Some((mtime, is_dir)) && !is_dir && (
        before_mtime is None || before_mtime != Some(mtime))) ==> checked_rv(
            rv,
            before_mtime,
            after,
            stdout_size,
            tmp_exists,
        ) == 206,
        !(tmp_exists && stdout_size > 0) && (after matches Some((mtime, is_dir)) && !is_dir)
            && before_mtime is None ==> checked_rv(rv, before_mtime, after, stdout_size, tmp_exists)
            == 206,
        !(tmp_exists && stdout_size > 0) && !(after matches Some((mtime, is_dir)) && !is_dir && (
        before_mtime is None || before_mtime != Some(mtime))) ==> checked_rv(
            rv,
            before_mtime,
            after,
            stdout_size,
            tmp_exists,
        ) == rv,
{
}

} // verus!
