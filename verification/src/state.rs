//! The model of redo's state: the record kept for each file, the rules that
//! read it (source, target, checked, changed, failed), the rules that update
//! it, stamps and overrides, relative paths, the write bookkeeping of the
//! database session, and the per-target locks.
use vstd::prelude::*;
use crate::cycles::{cycle_entries, check as cycle_check, CyclicDependencyError};
use crate::text::{
    append_slice, copy_chars, eq_chars, free_of, from_chars, i64_chars, int_str, join, join_chars,
    lemma_split_free, lemma_split_join, lemma_split_pieces_free, seqs, split, split_chars,
    starts_with, starts_with_exec, to_chars,
};

verus! {

pub const SCHEMA_VER: i32 = 2;

/// Name of the pseudo-file that `redo-always` targets depend on.
pub const ALWAYS: &'static str = "//ALWAYS";

/// Stamp of a directory.
pub const STAMP_DIR: &'static str = "dir";

/// Stamp of a file that does not exist.
pub const STAMP_MISSING: &'static str = "0";

/// Offset added to a target's id for the lock that guards its log.
pub const LOG_LOCK_MAGIC: i64 = 0x10000000;

pub open spec fn always_name() -> Seq<char> {
    seq!['/', '/', 'A', 'L', 'W', 'A', 'Y', 'S']
}

pub open spec fn stamp_missing() -> Seq<char> {
    seq!['0']
}

pub fn always_chars() -> (r: Vec<char>)
    ensures
        r@ == always_name(),
{
    let mut r: Vec<char> = Vec::new();
    r.push('/');
    r.push('/');
    r.push('A');
    r.push('L');
    r.push('W');
    r.push('A');
    r.push('Y');
    r.push('S');
    assert(r@ =~= always_name());
    r
}

pub fn is_missing_stamp(s: &[char]) -> (r: bool)
    ensures
        r == (s@ == stamp_missing()),
{
    if s.len() == 1 && s[0] == '0' {
        assert(s@ =~= stamp_missing());
        true
    } else {
        false
    }
}

// ---------------------------------------------------------------------------
// Paths
// ---------------------------------------------------------------------------

pub open spec fn dot() -> Seq<char> {
    seq!['.']
}

pub open spec fn dotdot() -> Seq<char> {
    seq!['.', '.']
}

pub open spec fn slash() -> Seq<char> {
    seq!['/']
}

/// One step of path normalization: the parts kept so far and the next piece.
pub open spec fn norm_step(kept: Seq<Seq<char>>, piece: Seq<char>, absolute: bool) -> Seq<
    Seq<char>,
> {
    if piece.len() == 0 || piece == dot() {
        kept
    } else if piece == dotdot() {
        if kept.len() > 0 && kept.last() != dotdot() {
            kept.drop_last()
        } else if !absolute {
            kept.push(dotdot())
        } else {
            kept
        }
    } else {
        kept.push(piece)
    }
}

/// The parts kept after reading `pieces` from left to right.
pub open spec fn norm_parts(pieces: Seq<Seq<char>>, absolute: bool) -> Seq<Seq<char>>
    decreases pieces.len(),
{
    if pieces.len() == 0 {
        Seq::empty()
    } else {
        norm_step(norm_parts(pieces.drop_last(), absolute), pieces.last(), absolute)
    }
}

/// `path` with empty and `.` components dropped and each `..` folded into
/// the component before it: at the root a `..` of an absolute path is
/// dropped, in a relative path it is kept. An absolute result starts with
/// `/`; an empty relative result is `.`.
pub open spec fn normalize(path: Seq<char>) -> Seq<char> {
    let absolute = starts_with(path, slash());
    let joined = join(norm_parts(split(path, '/'), absolute), slash());
    if absolute {
        slash() + joined
    } else if joined.len() == 0 {
        dot()
    } else {
        joined
    }
}

fn is_dot(p: &[char]) -> (r: bool)
    ensures
        r == (p@ == dot()),
{
    let r = p.len() == 1 && p[0] == '.';
    assert(r ==> p@ =~= dot());
    r
}

fn is_dotdot(p: &[char]) -> (r: bool)
    ensures
        r == (p@ == dotdot()),
{
    let r = p.len() == 2 && p[0] == '.' && p[1] == '.';
    assert(r ==> p@ =~= dotdot());
    r
}

fn dotdot_chars() -> (r: Vec<char>)
    ensures
        r@ == dotdot(),
{
    let mut r: Vec<char> = Vec::new();
    r.push('.');
    r.push('.');
    assert(r@ =~= dotdot());
    r
}

/// The kept parts of `pieces` (see `norm_parts`).
pub fn norm_parts_exec(pieces: &Vec<Vec<char>>, absolute: bool) -> (r: Vec<Vec<char>>)
    ensures
        seqs(r@) == norm_parts(seqs(pieces@), absolute),
{
    let mut kept: Vec<Vec<char>> = Vec::new();
    let mut i: usize = 0;
    while i < pieces.len()
        invariant
            i <= pieces@.len(),
            seqs(kept@) == norm_parts(seqs(pieces@).take(i as int), absolute),
        decreases pieces@.len() - i,
    {
        let ghost before = seqs(kept@);
        let piece = pieces[i].as_slice();
        assert(seqs(pieces@).take(i + 1).drop_last() =~= seqs(pieces@).take(i as int));
        assert(seqs(pieces@).take(i + 1).last() == piece@);
        if piece.len() == 0 || is_dot(piece) {
        } else if is_dotdot(piece) {
            if kept.len() > 0 && !is_dotdot(kept[kept.len() - 1].as_slice()) {
                kept.pop();
                assert(seqs(kept@) =~= before.drop_last());
            } else if !absolute {
                kept.push(dotdot_chars());
                assert(seqs(kept@) =~= before.push(dotdot()));
            }
        } else {
            kept.push(copy_chars(piece));
            assert(seqs(kept@) =~= before.push(piece@));
        }
        i = i + 1;
    }
    assert(seqs(pieces@).take(i as int) =~= seqs(pieces@));
    kept
}

pub fn normalize_chars(path: &[char]) -> (r: Vec<char>)
    ensures
        r@ == normalize(path@),
{
    let absolute = starts_with_exec(path, &['/']);
    assert(['/']@ =~= slash());
    let pieces = split_chars(path, '/');
    let kept = norm_parts_exec(&pieces, absolute);
    let joined = join_chars(&kept, &['/']);
    if absolute {
        let mut r: Vec<char> = Vec::new();
        r.push('/');
        append_slice(&mut r, joined.as_slice());
        assert(r@ =~= slash() + joined@);
        r
    } else if joined.len() == 0 {
        let mut r: Vec<char> = Vec::new();
        r.push('.');
        assert(r@ =~= dot());
        r
    } else {
        joined
    }
}

/// Normalizes a path as redo's own `normalize_path` does (see `normalize`).
pub fn normalize_path(path: &str) -> (r: String)
    ensures
        r@ == normalize(path@),
{
    let v = to_chars(path);
    let n = normalize_chars(v.as_slice());
    from_chars(n.as_slice())
}

/// How many leading components two component lists share.
pub open spec fn common_len(a: Seq<Seq<char>>, b: Seq<Seq<char>>) -> nat
    decreases a.len(),
{
    if a.len() == 0 || b.len() == 0 || a[0] != b[0] {
        0
    } else {
        1 + common_len(a.drop_first(), b.drop_first())
    }
}

pub proof fn lemma_common_len_bound(a: Seq<Seq<char>>, b: Seq<Seq<char>>)
    ensures
        common_len(a, b) <= a.len(),
        common_len(a, b) <= b.len(),
    decreases a.len(),
{
    if !(a.len() == 0 || b.len() == 0 || a[0] != b[0]) {
        lemma_common_len_bound(a.drop_first(), b.drop_first());
    }
}

/// The components of a path to `t` from `base`: one `..` for each component
/// of `base` past the shared prefix, then the rest of `t`.
pub open spec fn rel_parts(t: Seq<Seq<char>>, b: Seq<Seq<char>>) -> Seq<Seq<char>> {
    let k = common_len(t, b) as int;
    Seq::new((b.len() - k) as nat, |i: int| dotdot()) + t.skip(k)
}

/// The relative path from `base` to `t`, where both have had their
/// directories resolved: each is normalized and split at `/`, the shared
/// leading components are dropped, and a `..` stands for each remaining
/// component of `base`; an empty result is `.`.
pub open spec fn rel_path(t: Seq<char>, base: Seq<char>) -> Seq<char> {
    let parts = rel_parts(split(normalize(t), '/'), split(normalize(base), '/'));
    if parts.len() == 0 {
        dot()
    } else {
        join(parts, slash())
    }
}

pub fn common_len_exec(a: &Vec<Vec<char>>, b: &Vec<Vec<char>>) -> (k: usize)
    ensures
        k == common_len(seqs(a@), seqs(b@)),
{
    let mut k: usize = 0;
    proof {
        assert(seqs(a@).skip(0) =~= seqs(a@));
        assert(seqs(b@).skip(0) =~= seqs(b@));
    }
    while k < a.len() && k < b.len() && eq_chars(a[k].as_slice(), b[k].as_slice())
        invariant
            k <= a@.len(),
            k <= b@.len(),
            common_len(seqs(a@), seqs(b@)) == k + common_len(
                seqs(a@).skip(k as int),
                seqs(b@).skip(k as int),
            ),
        decreases a@.len() - k,
    {
        assert(seqs(a@).skip(k as int)[0] == a@[k as int]@);
        assert(seqs(b@).skip(k as int)[0] == b@[k as int]@);
        assert(seqs(a@).skip(k as int).drop_first() =~= seqs(a@).skip(k + 1));
        assert(seqs(b@).skip(k as int).drop_first() =~= seqs(b@).skip(k + 1));
        k = k + 1;
    }
    if k < a.len() && k < b.len() {
        assert(seqs(a@).skip(k as int)[0] == a@[k as int]@);
        assert(seqs(b@).skip(k as int)[0] == b@[k as int]@);
    }
    k
}

/// The relative path from `base_real` to `t_real` (see `rel_path`). Both
/// arguments are absolute paths whose directory parts have been resolved.
pub fn relpath(t_real: &str, base_real: &str) -> (r: String)
    ensures
        r@ == rel_path(t_real@, base_real@),
{
    let tv = to_chars(t_real);
    let bv = to_chars(base_real);
    let tn = normalize_chars(tv.as_slice());
    let bn = normalize_chars(bv.as_slice());
    let tparts = split_chars(tn.as_slice(), '/');
    let bparts = split_chars(bn.as_slice(), '/');
    let k = common_len_exec(&tparts, &bparts);
    proof {
        lemma_common_len_bound(seqs(tparts@), seqs(bparts@));
    }
    let mut result: Vec<Vec<char>> = Vec::new();
    let mut i: usize = k;
    while i < bparts.len()
        invariant
            k <= i <= bparts@.len(),
            seqs(result@) =~= Seq::new((i - k) as nat, |j: int| dotdot()),
        decreases bparts@.len() - i,
    {
        let ghost before = seqs(result@);
        result.push(dotdot_chars());
        assert(seqs(result@) =~= before.push(dotdot()));
        i = i + 1;
    }
    let mut j: usize = k;
    let ghost ups = seqs(result@);
    while j < tparts.len()
        invariant
            k <= j <= tparts@.len(),
            seqs(result@) =~= ups + seqs(tparts@).subrange(k as int, j as int),
        decreases tparts@.len() - j,
    {
        let ghost before = seqs(result@);
        result.push(copy_chars(tparts[j].as_slice()));
        assert(seqs(result@) =~= before.push(tparts@[j as int]@));
        assert(seqs(tparts@).subrange(k as int, j + 1) =~= seqs(tparts@).subrange(
            k as int,
            j as int,
        ).push(tparts@[j as int]@));
        j = j + 1;
    }
    assert(seqs(tparts@).subrange(k as int, j as int) =~= seqs(tparts@).skip(k as int));
    if result.len() == 0 {
        let mut r = String::new();
        crate::text::string_push(&mut r, '.');
        assert(r@ =~= dot());
        r
    } else {
        let joined = join_chars(&result, &['/']);
        assert(['/']@ =~= slash());
        from_chars(joined.as_slice())
    }
}

// ---------------------------------------------------------------------------
// The record of a file
// ---------------------------------------------------------------------------

/// What the state database holds for one file.
#[derive(Debug)]
pub struct File {
    pub id: i64,
    pub name: String,
    pub is_generated: bool,
    pub is_override: bool,
    pub checked_runid: Option<i64>,
    pub changed_runid: Option<i64>,
    pub failed_runid: Option<i64>,
    pub stamp: Option<String>,
    pub csum: Option<String>,
}

pub struct FileView {
    pub id: i64,
    pub name: Seq<char>,
    pub is_generated: bool,
    pub is_override: bool,
    pub checked_runid: Option<i64>,
    pub changed_runid: Option<i64>,
    pub failed_runid: Option<i64>,
    pub stamp: Option<Seq<char>>,
    pub csum: Option<Seq<char>>,
}

pub open spec fn opt_str(o: Option<String>) -> Option<Seq<char>> {
    match o {
        Some(s) => Some(s@),
        None => None,
    }
}

impl View for File {
    type V = FileView;

    open spec fn view(&self) -> FileView {
        FileView {
            id: self.id,
            name: self.name@,
            is_generated: self.is_generated,
            is_override: self.is_override,
            checked_runid: self.checked_runid,
            changed_runid: self.changed_runid,
            failed_runid: self.failed_runid,
            stamp: opt_str(self.stamp),
            csum: opt_str(self.csum),
        }
    }
}

pub fn copy_opt_string(o: &Option<String>) -> (r: Option<String>)
    ensures
        opt_str(r) == opt_str(*o),
{
    match o {
        Some(s) => Some(s.clone()),
        None => None,
    }
}

/// Whether a run marker (`checked_runid`, `changed_runid`, `failed_runid`)
/// was set during the run `runid` or later.
pub open spec fn reached(x: Option<i64>, runid: Option<i64>) -> bool {
    x is Some && runid is Some && x->0 >= runid->0
}

fn reached_exec(x: Option<i64>, runid: Option<i64>) -> (r: bool)
    ensures
        r == reached(x, runid),
{
    match (x, runid) {
        (Some(a), Some(b)) => a >= b,
        _ => false,
    }
}

/// Whether the recorded stamp is `s`.
pub fn stamp_is(stamp: &Option<String>, s: &[char]) -> (r: bool)
    ensures
        r == (opt_str(*stamp) == Some(s@)),
{
    match stamp {
        Some(x) => {
            let xv = to_chars(x.as_str());
            eq_chars(xv.as_slice(), s)
        },
        None => false,
    }
}

/// The record after it is marked changed in run `runid`.
pub open spec fn changed_view(f: FileView, runid: Option<i64>) -> FileView {
    FileView { changed_runid: runid, failed_runid: None, is_override: false, ..f }
}

/// The record after its stamp is compared with `newstamp`: a different stamp
/// is stored and the file is marked changed.
pub open spec fn stamped_view(f: FileView, newstamp: Seq<char>, runid: Option<i64>) -> FileView {
    if f.stamp != Some(newstamp) {
        changed_view(FileView { stamp: Some(newstamp), ..f }, runid)
    } else {
        f
    }
}

/// Whether the file, with `newstamp` on disk now, is a source: not one of
/// redo's pseudo-files, not a target that is still as redo built it, and
/// present on disk unless redo built it and it is unchanged.
pub open spec fn is_source_spec(f: FileView, newstamp: Seq<char>, runid: Option<i64>) -> bool {
    if starts_with(f.name, slash() + slash()) {
        false
    } else if f.is_generated && (!reached(f.failed_runid, runid) || newstamp != stamp_missing())
        && !f.is_override && f.stamp == Some(newstamp) {
        false
    } else if (!f.is_generated || f.stamp != Some(newstamp)) && newstamp == stamp_missing() {
        false
    } else {
        true
    }
}

impl File {
    /// A new record with every field as in `self`.
    pub fn duplicate(&self) -> (r: File)
        ensures
            r@ == self@,
    {
        File {
            id: self.id,
            name: self.name.clone(),
            is_generated: self.is_generated,
            is_override: self.is_override,
            checked_runid: self.checked_runid,
            changed_runid: self.changed_runid,
            failed_runid: self.failed_runid,
            stamp: copy_opt_string(&self.stamp),
            csum: copy_opt_string(&self.csum),
        }
    }

    /// Checked during the run `runid` (or a later one).
    pub fn is_checked(&self, runid: Option<i64>) -> (r: bool)
        ensures
            r == reached(self.checked_runid, runid),
    {
        reached_exec(self.checked_runid, runid)
    }

    /// Changed during the run `runid` (or a later one).
    pub fn is_changed(&self, runid: Option<i64>) -> (r: bool)
        ensures
            r == reached(self.changed_runid, runid),
    {
        reached_exec(self.changed_runid, runid)
    }

    /// Failed during the run `runid` (or a later one).
    pub fn is_failed(&self, runid: Option<i64>) -> (r: bool)
        ensures
            r == reached(self.failed_runid, runid),
    {
        reached_exec(self.failed_runid, runid)
    }

    pub fn set_checked(&mut self, runid: Option<i64>)
        ensures
            final(self)@ == (FileView { checked_runid: runid, ..old(self)@ }),
    {
        self.checked_runid = runid;
    }

    pub fn set_changed(&mut self, runid: Option<i64>)
        ensures
            final(self)@ == changed_view(old(self)@, runid),
    {
        self.changed_runid = runid;
        self.failed_runid = None;
        self.is_override = false;
    }

    /// Records `newstamp`, the stamp read from disk now; a file that must
    /// exist may not have the missing stamp.
    pub fn update_stamp(&mut self, newstamp: &str, must_exist: bool, runid: Option<i64>)
        requires
            !(must_exist && newstamp@ == stamp_missing()),
        ensures
            final(self)@ == stamped_view(old(self)@, newstamp@, runid),
    {
        let nv = to_chars(newstamp);
        if !stamp_is(&self.stamp, nv.as_slice()) {
            self.stamp = Some(String::from_str(newstamp));
            self.set_changed(runid);
        }
    }

    /// Marks the file failed in run `runid`; it counts as generated unless
    /// it does not exist.
    pub fn set_failed(&mut self, newstamp: &str, runid: Option<i64>)
        ensures
            final(self)@ == (FileView {
                failed_runid: runid,
                is_generated: stamped_view(old(self)@, newstamp@, runid).stamp != Some(
                    stamp_missing(),
                ),
                ..stamped_view(old(self)@, newstamp@, runid)
            }),
    {
        self.update_stamp(newstamp, false, runid);
        self.failed_runid = runid;
        let missing = match &self.stamp {
            Some(s) => {
                let sv = to_chars(s.as_str());
                is_missing_stamp(sv.as_slice())
            },
            None => false,
        };
        self.is_generated = !missing;
    }

    /// Marks the file as a source that exists (`newstamp` is not the missing
    /// stamp).
    pub fn set_static(&mut self, newstamp: &str, runid: Option<i64>)
        requires
            newstamp@ != stamp_missing(),
        ensures
            final(self)@ == (FileView {
                failed_runid: None,
                is_override: false,
                is_generated: false,
                ..stamped_view(old(self)@, newstamp@, runid)
            }),
    {
        self.update_stamp(newstamp, true, runid);
        self.failed_runid = None;
        self.is_override = false;
        self.is_generated = false;
    }

    /// Marks a target as overridden: modified by hand since redo built it.
    pub fn set_override(&mut self, newstamp: &str, runid: Option<i64>)
        ensures
            final(self)@ == (FileView {
                failed_runid: None,
                is_override: true,
                ..stamped_view(old(self)@, newstamp@, runid)
            }),
    {
        self.update_stamp(newstamp, false, runid);
        self.failed_runid = None;
        self.is_override = true;
    }

    /// See `is_source_spec`; `newstamp` is the stamp read from disk now.
    pub fn is_source(&self, newstamp: &str, runid: Option<i64>) -> (r: bool)
        ensures
            r == is_source_spec(self@, newstamp@, runid),
    {
        let name = to_chars(self.name.as_str());
        let ss = starts_with_exec(name.as_slice(), &['/', '/']);
        assert(['/', '/']@ =~= slash() + slash());
        if ss {
            return false;
        }
        let nv = to_chars(newstamp);
        let same = stamp_is(&self.stamp, nv.as_slice());
        let missing = is_missing_stamp(nv.as_slice());
        if self.is_generated && (!self.is_failed(runid) || !missing) && !self.is_override && same {
            return false;
        }
        if (!self.is_generated || !same) && missing {
            return false;
        }
        true
    }

    /// A target: generated by redo and not a source.
    pub fn is_target(&self, newstamp: &str, runid: Option<i64>) -> (r: bool)
        ensures
            r == (self.is_generated && !is_source_spec(self@, newstamp@, runid)),
    {
        if !self.is_generated {
            return false;
        }
        if self.is_source(newstamp, runid) {
            return false;
        }
        true
    }

    /// The `//ALWAYS` pseudo-file counts as changed in every run.
    pub fn fix_always(&mut self, runid: Option<i64>)
        ensures
            final(self)@ == fixed_always(old(self)@, runid),
    {
        let nv = to_chars(self.name.as_str());
        let al = always_chars();
        if eq_chars(nv.as_slice(), al.as_slice()) {
            if let Some(rid) = runid {
                if self.changed_runid.is_none() || self.changed_runid.unwrap() < rid {
                    self.changed_runid = Some(rid);
                }
            }
        }
    }
}

/// A flag column of the database: set when present and nonzero.
pub open spec fn flag_of(x: Option<i64>) -> bool {
    match x {
        Some(v) => v != 0,
        None => false,
    }
}

impl File {
    /// The record read from a database row, with `//ALWAYS` brought up to
    /// the run `runid`.
    pub fn from_row(
        id: i64,
        name: String,
        is_generated: Option<i64>,
        is_override: Option<i64>,
        checked_runid: Option<i64>,
        changed_runid: Option<i64>,
        failed_runid: Option<i64>,
        stamp: Option<String>,
        csum: Option<String>,
        runid: Option<i64>,
    ) -> (r: File)
        ensures
            r@ == fixed_always(
                FileView {
                    id,
                    name: name@,
                    is_generated: flag_of(is_generated),
                    is_override: flag_of(is_override),
                    checked_runid,
                    changed_runid,
                    failed_runid,
                    stamp: opt_str(stamp),
                    csum: opt_str(csum),
                },
                runid,
            ),
    {
        let mut f = File {
            id,
            name,
            is_generated: match is_generated {
                Some(v) => v != 0,
                None => false,
            },
            is_override: match is_override {
                Some(v) => v != 0,
                None => false,
            },
            checked_runid,
            changed_runid,
            failed_runid,
            stamp,
            csum,
        };
        f.fix_always(runid);
        f
    }

    /// Accounts for writing the record back; returns whether the write is
    /// made (not after the state directory was found missing).
    pub fn save(&self, st: &mut DbState) -> (r: bool)
        requires
            old(st).wrote < u64::MAX,
            old(st).wf(),
        ensures
            final(st).wf(),
            r == (old(st).insane != Some(true)),
            final(st).insane == old(st).insane,
            final(st).wrote == if r {
                old(st).wrote + 1
            } else {
                old(st).wrote as int
            },
            final(st).changes() == if r {
                old(st).changes().push(RowChangeView::SaveFile(self@))
            } else {
                old(st).changes()
            },
    {
        st.note_write(RowChange::SaveFile(self.duplicate()))
    }

    /// Marks the record checked in run `runid` and saves it.
    pub fn set_checked_save(&mut self, runid: Option<i64>, st: &mut DbState) -> (r: bool)
        requires
            old(st).wrote < u64::MAX,
            old(st).wf(),
        ensures
            final(st).wf(),
            final(self)@ == (FileView { checked_runid: runid, ..old(self)@ }),
            r == (old(st).insane != Some(true)),
            final(st).insane == old(st).insane,
            final(st).wrote == if r {
                old(st).wrote + 1
            } else {
                old(st).wrote as int
            },
            final(st).changes() == if r {
                old(st).changes().push(RowChangeView::SaveFile(final(self)@))
            } else {
                old(st).changes()
            },
    {
        self.set_checked(runid);
        self.save(st)
    }

    /// Accounts for marking this target's dependencies for deletion (they
    /// are deleted after the build unless recorded again).
    pub fn zap_deps1(&self, st: &mut DbState) -> (r: bool)
        requires
            old(st).wrote < u64::MAX,
            old(st).wf(),
        ensures
            final(st).wf(),
            r == (old(st).insane != Some(true)),
            final(st).insane == old(st).insane,
            final(st).wrote == if r {
                old(st).wrote + 1
            } else {
                old(st).wrote as int
            },
            final(st).changes() == if r {
                old(st).changes().push(RowChangeView::MarkDeps(self.id))
            } else {
                old(st).changes()
            },
    {
        st.note_write(RowChange::MarkDeps(self.id))
    }

    /// Accounts for recording that this target depends on `source` in
    /// `mode` (replacing a row for the same source).
    pub fn add_dep(&self, st: &mut DbState, mode: &str, source: &File) -> (r: bool)
        requires
            old(st).wrote < u64::MAX,
            old(st).wf(),
            self.id != source.id,
        ensures
            final(st).wf(),
            r == (old(st).insane != Some(true)),
            final(st).insane == old(st).insane,
            final(st).wrote == if r {
                old(st).wrote + 1
            } else {
                old(st).wrote as int
            },
            final(st).changes() == if r {
                old(st).changes().push(RowChangeView::AddDep(self.id, mode@, source.id))
            } else {
                old(st).changes()
            },
    {
        st.note_write(RowChange::AddDep(self.id, String::from_str(mode), source.id))
    }

    /// Accounts for deleting the dependencies still marked for deletion.
    pub fn zap_deps2(&self, st: &mut DbState) -> (r: bool)
        requires
            old(st).wrote < u64::MAX,
            old(st).wf(),
        ensures
            final(st).wf(),
            r == (old(st).insane != Some(true)),
            final(st).insane == old(st).insane,
            final(st).wrote == if r {
                old(st).wrote + 1
            } else {
                old(st).wrote as int
            },
            final(st).changes() == if r {
                old(st).changes().push(RowChangeView::DropMarkedDeps(self.id))
            } else {
                old(st).changes()
            },
    {
        st.note_write(RowChange::DropMarkedDeps(self.id))
    }
}

/// What `lstat` or `stat` found at a path.
pub enum StatInfo {
    Missing,
    Dir,
    /// Anything else, with its modification time as text (seconds with six
    /// decimals) and its numbers.
    Entry { is_link: bool, mtime: String, size: u64, ino: u64, mode: u32, uid: u32, gid: u32 },
}

/// The stamp of one stat: `0` when missing, `dir` for a directory, else
/// `mtime-size-inode-mode-uid-gid`; and whether it is a symbolic link.
pub open spec fn stamp_of(s: StatInfo) -> (bool, Seq<char>) {
    match s {
        StatInfo::Missing => (false, stamp_missing()),
        StatInfo::Dir => (false, seq!['d', 'i', 'r']),
        StatInfo::Entry { is_link, mtime, size, ino, mode, uid, gid } => (
            is_link,
            mtime@ + "-"@ + int_str(size as int) + "-"@ + int_str(ino as int) + "-"@ + int_str(
                mode as int,
            ) + "-"@ + int_str(uid as int) + "-"@ + int_str(gid as int),
        ),
    }
}

fn push_num(v: &mut Vec<char>, n: u64)
    ensures
        final(v)@ == old(v)@ + "-"@ + int_str(n as int),
{
    v.push('-');
    let d = crate::text::u64_chars(n);
    append_slice(v, d.as_slice());
    proof {
        reveal_strlit("-");
    }
    assert(final(v)@ =~= old(v)@ + "-"@ + int_str(n as int)) by {
        assert(int_str(n as int) == crate::text::nat_str(n as nat));
    }
}

fn stamp_of_exec(s: &StatInfo) -> (r: (bool, Vec<char>))
    ensures
        (r.0, r.1@) == stamp_of(*s),
{
    match s {
        StatInfo::Missing => {
            let v: Vec<char> = vec!['0'];
            assert(v@ =~= stamp_missing());
            (false, v)
        },
        StatInfo::Dir => {
            let v: Vec<char> = vec!['d', 'i', 'r'];
            assert(v@ =~= seq!['d', 'i', 'r']);
            (false, v)
        },
        StatInfo::Entry { is_link, mtime, size, ino, mode, uid, gid } => {
            let mut v = to_chars(mtime.as_str());
            push_num(&mut v, *size);
            push_num(&mut v, *ino);
            push_num(&mut v, *mode as u64);
            push_num(&mut v, *uid as u64);
            push_num(&mut v, *gid as u64);
            (*is_link, v)
        },
    }
}

/// The stamp of a file from `lstat` (`link`) and, for a symbolic link,
/// `stat` (`target`): the link's stamp, then `+` and its target's.
pub open spec fn read_stamp_spec(link: StatInfo, target: StatInfo) -> Seq<char> {
    let (is_link, pre) = stamp_of(link);
    if is_link {
        pre + "+"@ + stamp_of(target).1
    } else {
        pre
    }
}

pub fn read_stamp(link: &StatInfo, target: &StatInfo) -> (r: String)
    ensures
        r@ == read_stamp_spec(*link, *target),
{
    let (is_link, mut pre) = stamp_of_exec(link);
    if is_link {
        pre.push('+');
        let (_, post) = stamp_of_exec(target);
        append_slice(&mut pre, post.as_slice());
        proof {
            reveal_strlit("+");
        }
    }
    from_chars(pre.as_slice())
}

pub open spec fn fixed_always(f: FileView, runid: Option<i64>) -> FileView {
    if f.name == always_name() && runid is Some && (f.changed_runid is None || f.changed_runid->0
        < runid->0) {
        FileView { changed_runid: runid, ..f }
    } else {
        f
    }
}

// ---------------------------------------------------------------------------
// Overrides, names, messages
// ---------------------------------------------------------------------------

/// The first two `-`-separated fields of a stamp (its modification time and
/// size), or all of them when there are fewer.
pub open spec fn stamp_crit(s: Seq<char>) -> Seq<Seq<char>> {
    let p = split(s, '-');
    if p.len() >= 2 {
        p.take(2)
    } else {
        p
    }
}

/// Two stamps show a manual modification when they differ in their first
/// two fields.
pub open spec fn detect_override_spec(stamp1: Seq<char>, stamp2: Seq<char>) -> bool {
    stamp1 != stamp2 && stamp_crit(stamp1) != stamp_crit(stamp2)
}

fn crit_exec(s: &[char]) -> (r: Vec<Vec<char>>)
    ensures
        seqs(r@) == stamp_crit(s@),
{
    let mut p = split_chars(s, '-');
    if p.len() >= 2 {
        p.truncate(2);
        assert(seqs(p@) =~= split(s@, '-').take(2));
    }
    p
}

fn eq_parts(a: &Vec<Vec<char>>, b: &Vec<Vec<char>>) -> (r: bool)
    ensures
        r == (seqs(a@) == seqs(b@)),
{
    if a.len() != b.len() {
        assert(seqs(a@).len() != seqs(b@).len());
        return false;
    }
    let mut i: usize = 0;
    while i < a.len()
        invariant
            i <= a@.len(),
            a@.len() == b@.len(),
            forall|j: int| 0 <= j < i ==> seqs(a@)[j] == seqs(b@)[j],
        decreases a@.len() - i,
    {
        if !eq_chars(a[i].as_slice(), b[i].as_slice()) {
            assert(seqs(a@)[i as int] != seqs(b@)[i as int]);
            return false;
        }
        i = i + 1;
    }
    assert(seqs(a@) =~= seqs(b@));
    true
}

/// Whether a target whose recorded stamp is `stamp1` and whose stamp on
/// disk is `stamp2` was modified by hand (see `detect_override_spec`).
pub fn detect_override(stamp1: &str, stamp2: &str) -> (r: bool)
    ensures
        r == detect_override_spec(stamp1@, stamp2@),
{
    let a = to_chars(stamp1);
    let b = to_chars(stamp2);
    if eq_chars(a.as_slice(), b.as_slice()) {
        return false;
    }
    let ca = crit_exec(a.as_slice());
    let cb = crit_exec(b.as_slice());
    !eq_parts(&ca, &cb)
}

/// The warning given for a target that was modified by hand.
pub fn warn_override(name: &str) -> (r: String)
    ensures
        r@ == name@ + " - you modified it; skipping"@,
{
    let mut v = to_chars(name);
    let tail = to_chars(" - you modified it; skipping");
    append_slice(&mut v, tail.as_slice());
    from_chars(v.as_slice())
}

/// Where the build log of the file with id `fid` is kept.
pub fn logname(base: &str, fid: i64) -> (r: String)
    ensures
        r@ == base@ + "/.redo/log."@ + int_str(fid as int),
{
    let mut v = to_chars(base);
    let mid = to_chars("/.redo/log.");
    append_slice(&mut v, mid.as_slice());
    let n = i64_chars(fid);
    append_slice(&mut v, n.as_slice());
    from_chars(v.as_slice())
}

// ---------------------------------------------------------------------------
// The database session's write bookkeeping
// ---------------------------------------------------------------------------

/// One change of the `Files` or `Deps` tables.
pub enum RowChange {
    /// A new file record named so, unless one exists.
    AddFile(String),
    /// The record of a file written back.
    SaveFile(File),
    /// Every dependency of target `0` marked for deletion.
    MarkDeps(i64),
    /// Target `0` depends on source `2` in mode `1`, unmarked.
    AddDep(i64, String, i64),
    /// The dependencies of target `0` still marked, deleted.
    DropMarkedDeps(i64),
}

pub enum RowChangeView {
    AddFile(Seq<char>),
    SaveFile(FileView),
    MarkDeps(i64),
    AddDep(i64, Seq<char>, i64),
    DropMarkedDeps(i64),
}

impl View for RowChange {
    type V = RowChangeView;

    open spec fn view(&self) -> RowChangeView {
        match self {
            RowChange::AddFile(n) => RowChangeView::AddFile(n@),
            RowChange::SaveFile(f) => RowChangeView::SaveFile(f@),
            RowChange::MarkDeps(t) => RowChangeView::MarkDeps(*t),
            RowChange::AddDep(t, m, src) => RowChangeView::AddDep(*t, m@, *src),
            RowChange::DropMarkedDeps(t) => RowChangeView::DropMarkedDeps(*t),
        }
    }
}

/// The stored columns of a file record.
pub struct FileRow {
    pub is_generated: bool,
    pub is_override: bool,
    pub checked_runid: Option<i64>,
    pub changed_runid: Option<i64>,
    pub failed_runid: Option<i64>,
    pub stamp: Option<Seq<char>>,
    pub csum: Option<Seq<char>>,
}

/// The record of a file just added: nothing known yet.
pub open spec fn empty_row() -> FileRow {
    FileRow {
        is_generated: false,
        is_override: false,
        checked_runid: None,
        changed_runid: None,
        failed_runid: None,
        stamp: None,
        csum: None,
    }
}

pub open spec fn row_of(f: FileView) -> FileRow {
    FileRow {
        is_generated: f.is_generated,
        is_override: f.is_override,
        checked_runid: f.checked_runid,
        changed_runid: f.changed_runid,
        failed_runid: f.failed_runid,
        stamp: f.stamp,
        csum: f.csum,
    }
}

/// The `Files` table by name, and the `Deps` table by (target, source)
/// with each row's mode and deletion mark.
pub struct Tables {
    pub files: Map<Seq<char>, FileRow>,
    pub deps: Map<(i64, i64), (Seq<char>, bool)>,
}

/// The tables after one change.
pub open spec fn apply_change(db: Tables, c: RowChangeView) -> Tables {
    match c {
        RowChangeView::AddFile(n) => if db.files.contains_key(n) {
            db
        } else {
            Tables { files: db.files.insert(n, empty_row()), ..db }
        },
        RowChangeView::SaveFile(f) => if db.files.contains_key(f.name) {
            Tables { files: db.files.insert(f.name, row_of(f)), ..db }
        } else {
            db
        },
        RowChangeView::MarkDeps(t) => Tables {
            deps: Map::new(
                |k: (i64, i64)| db.deps.contains_key(k),
                |k: (i64, i64)| if k.0 == t {
                    (db.deps[k].0, true)
                } else {
                    db.deps[k]
                },
            ),
            ..db
        },
        RowChangeView::AddDep(t, m, src) => Tables {
            deps: db.deps.insert((t, src), (m, false)),
            ..db
        },
        RowChangeView::DropMarkedDeps(t) => Tables {
            deps: Map::new(
                |k: (i64, i64)| db.deps.contains_key(k) && !(k.0 == t && db.deps[k].1),
                |k: (i64, i64)| db.deps[k],
            ),
            ..db
        },
    }
}

/// The tables after the changes `cs`, in order.
pub open spec fn apply_all(db: Tables, cs: Seq<RowChangeView>) -> Tables
    decreases cs.len(),
{
    if cs.len() == 0 {
        db
    } else {
        apply_change(apply_all(db, cs.drop_last()), cs.last())
    }
}

/// The changes the open transaction holds, and whether the `.redo`
/// directory was found missing (after which nothing is written). `wrote`
/// counts the changes.
pub struct DbState {
    pub wrote: u64,
    pub insane: Option<bool>,
    pub pending: Vec<RowChange>,
}

impl DbState {
    /// The pending changes.
    pub open spec fn changes(&self) -> Seq<RowChangeView> {
        self.pending@.map_values(|c: RowChange| c@)
    }

    /// `wrote` counts the pending changes.
    pub open spec fn wf(&self) -> bool {
        self.wrote == self.pending@.len()
    }

    pub fn new() -> (r: DbState)
        ensures
            r.wrote == 0,
            r.insane is None,
            r.changes() == Seq::<RowChangeView>::empty(),
            r.wf(),
    {
        let r = DbState { wrote: 0, insane: None, pending: Vec::new() };
        assert(r.changes() =~= Seq::<RowChangeView>::empty());
        r
    }

    /// Accounts for the change `c`; returns whether it is to be made.
    pub fn note_write(&mut self, c: RowChange) -> (r: bool)
        requires
            old(self).wrote < u64::MAX,
            old(self).wf(),
        ensures
            final(self).wf(),
            r == (old(self).insane != Some(true)),
            final(self).insane == old(self).insane,
            final(self).wrote == if r {
                old(self).wrote + 1
            } else {
                old(self).wrote as int
            },
            final(self).changes() == if r {
                old(self).changes().push(c@)
            } else {
                old(self).changes()
            },
    {
        if self.insane == Some(true) {
            return false;
        }
        self.wrote = self.wrote + 1;
        let ghost before = self.changes();
        let ghost cv = c@;
        self.pending.push(c);
        assert(self.changes() =~= before.push(cv));
        true
    }
}

/// Accounts for adding a record named `name` (when none exists); returns
/// whether the write is made.
pub fn note_add_file(st: &mut DbState, name: &str) -> (r: bool)
    requires
        old(st).wrote < u64::MAX,
        old(st).wf(),
    ensures
        final(st).wf(),
        r == (old(st).insane != Some(true)),
        final(st).insane == old(st).insane,
        final(st).wrote == if r {
            old(st).wrote + 1
        } else {
            old(st).wrote as int
        },
        final(st).changes() == if r {
            old(st).changes().push(RowChangeView::AddFile(name@))
        } else {
            old(st).changes()
        },
{
    st.note_write(RowChange::AddFile(String::from_str(name)))
}

/// Ends the transaction: returns whether a `COMMIT` is to be issued, which
/// is when writes are pending and the state directory is sane. A sane
/// session has no changes pending afterwards.
pub fn commit(st: &mut DbState) -> (r: bool)
    requires
        old(st).wf(),
    ensures
        final(st).wf(),
        old(st).insane != Some(true) ==> final(st).wrote == 0,
        old(st).insane != Some(true) ==> final(st).changes() == Seq::<RowChangeView>::empty(),
        old(st).insane == Some(true) ==> final(st).changes() == old(st).changes(),
        r == (old(st).insane != Some(true) && old(st).wrote > 0),
        final(st).insane == old(st).insane,
        final(st).wrote == if r {
            0
        } else {
            old(st).wrote
        },
{
    if st.insane == Some(true) {
        return false;
    }
    st.pending = Vec::new();
    assert(st.changes() =~= Seq::<RowChangeView>::empty());
    if st.wrote > 0 {
        st.wrote = 0;
        true
    } else {
        false
    }
}

/// Abandons the transaction: returns whether a `ROLLBACK` is to be issued.
/// A sane session has no changes pending afterwards, so the tables are as
/// the last commit left them (see `law_rollback_restores`).
pub fn rollback(st: &mut DbState) -> (r: bool)
    requires
        old(st).wf(),
    ensures
        final(st).wf(),
        old(st).insane != Some(true) ==> final(st).wrote == 0,
        old(st).insane != Some(true) ==> final(st).changes() == Seq::<RowChangeView>::empty(),
        old(st).insane == Some(true) ==> final(st).changes() == old(st).changes(),
        r == (old(st).insane != Some(true) && old(st).wrote > 0),
        final(st).insane == old(st).insane,
        final(st).wrote == if r {
            0
        } else {
            old(st).wrote
        },
{
    commit(st)
}

/// No writes are pending.
pub fn is_flushed(st: &DbState) -> (r: bool)
    ensures
        r == (st.wrote == 0),
        st.wf() ==> (r == (st.changes().len() == 0)),
{
    st.wrote == 0
}

/// Whether the `.redo` directory is still there; the first answer is kept
/// for the rest of the session.
pub fn check_sane(st: &mut DbState, redo_dir_exists: bool) -> (r: bool)
    requires
        old(st).wf(),
    ensures
        final(st).wf(),
        final(st).wrote == old(st).wrote,
        final(st).changes() == old(st).changes(),
        final(st).insane == (match old(st).insane {
            Some(b) => Some(b),
            None => Some(!redo_dir_exists),
        }),
        r == !final(st).insane->0,
{
    if st.insane.is_none() {
        st.insane = Some(!redo_dir_exists);
    }
    match st.insane {
        Some(b) => !b,
        None => true,
    }
}

// ---------------------------------------------------------------------------
// Locks
// ---------------------------------------------------------------------------

/// The ids for which this process holds a `Lock` object.
pub struct LockRegistry {
    pub held: Vec<i64>,
}

impl LockRegistry {
    pub open spec fn ids(&self) -> Set<i64> {
        self.held@.to_set()
    }

    pub fn new() -> (r: LockRegistry)
        ensures
            r.ids() == Set::<i64>::empty(),
    {
        let r = LockRegistry { held: Vec::new() };
        assert(r.ids() =~= Set::<i64>::empty());
        r
    }

    pub fn contains(&self, fid: i64) -> (r: bool)
        ensures
            r == self.ids().contains(fid),
    {
        let mut i: usize = 0;
        while i < self.held.len()
            invariant
                i <= self.held@.len(),
                forall|j: int| 0 <= j < i ==> self.held@[j] != fid,
            decreases self.held@.len() - i,
        {
            if self.held[i] == fid {
                assert(self.held@.contains(fid));
                return true;
            }
            i = i + 1;
        }
        false
    }

    fn insert(&mut self, fid: i64)
        ensures
            final(self).ids() == old(self).ids().insert(fid),
    {
        self.held.push(fid);
        assert(self.held@.to_set() =~= old(self).held@.to_set().insert(fid)) by {
            assert forall|x: i64| self.held@.contains(x) <==> old(self).held@.contains(x) || x
                == fid by {
                if self.held@.contains(x) && x != fid {
                    let j = choose|j: int| 0 <= j < self.held@.len() && self.held@[j] == x;
                    assert(old(self).held@[j] == x);
                }
                if old(self).held@.contains(x) {
                    let j = choose|j: int| 0 <= j < old(self).held@.len() && old(self).held@[j] == x;
                    assert(self.held@[j] == x);
                }
                if x == fid {
                    assert(self.held@[self.held@.len() - 1] == x);
                }
            }
        }
    }

    fn remove(&mut self, fid: i64)
        ensures
            final(self).ids() == old(self).ids().remove(fid),
    {
        let mut kept: Vec<i64> = Vec::new();
        let mut i: usize = 0;
        while i < self.held.len()
            invariant
                i <= self.held@.len(),
                forall|x: i64| kept@.contains(x) <==> (self.held@.take(i as int).contains(x) && x != fid),
            decreases self.held@.len() - i,
        {
            let ghost before = kept@;
            let x = self.held[i];
            if x != fid {
                kept.push(x);
            }
            let ghost t0 = self.held@.take(i as int);
            let ghost t1 = self.held@.take(i + 1);
            assert(t1 =~= t0.push(x));
            assert forall|y: i64| kept@.contains(y) <==> (t1.contains(y) && y != fid) by {
                if kept@.contains(y) {
                    let j = choose|j: int| 0 <= j < kept@.len() && kept@[j] == y;
                    if j < before.len() {
                        assert(before[j] == y);
                        assert(before.contains(y));
                        let j2 = choose|j2: int| 0 <= j2 < t0.len() && t0[j2] == y;
                        assert(t1[j2] == y);
                    } else {
                        assert(t1[i as int] == y);
                    }
                }
                if t1.contains(y) && y != fid {
                    let j = choose|j: int| 0 <= j < t1.len() && t1[j] == y;
                    if j < i {
                        assert(t0[j] == y);
                        assert(before.contains(y));
                        let j2 = choose|j2: int| 0 <= j2 < before.len() && before[j2] == y;
                        assert(kept@[j2] == y);
                    } else {
                        assert(kept@[kept@.len() - 1] == y);
                    }
                }
            }
            i = i + 1;
        }
        assert(self.held@.take(i as int) =~= self.held@);
        self.held = kept;
        assert(self.held@.to_set() =~= old(self).held@.to_set().remove(fid));
    }
}

#[derive(Clone, Copy, PartialEq, Eq, Structural)]
pub enum LockKind {
    Read,
    Write,
    Unlock,
}

/// How an `fcntl` lock request ended.
pub enum LockOutcome {
    Granted,
    /// `EAGAIN` or `EACCES`: another process holds a conflicting lock.
    Busy,
    /// Any other error, with its errno.
    Failed(i32),
}

/// An `fcntl` lock request that could not be served, with its errno.
#[derive(Debug)]
pub struct LockError {
    pub errno: i32,
}

/// One `fcntl` lock request: on the lock file `fd`, a lock of `kind` on the
/// `len` bytes from offset `start`, waiting for it (`F_SETLKW`) when `wait`.
#[derive(Clone, Copy, PartialEq, Eq, Structural)]
pub struct LockRequest {
    pub fd: i32,
    pub kind: LockKind,
    pub wait: bool,
    pub len: i64,
    pub start: i64,
}

/// The request that asks for a lock of `kind` on `len` bytes from `start`
/// of `fd`: an unlock or a non-blocking request does not wait.
pub open spec fn lock_request_spec(fd: i32, kind: LockKind, nonblock: bool, len: i64, start: i64) -> LockRequest {
    LockRequest { fd, kind, wait: !(kind == LockKind::Unlock || nonblock), len, start }
}

/// Builds the request that `lock_request_spec` describes.
pub fn lock_request(fd: i32, kind: LockKind, nonblock: bool, len: i64, start: i64) -> (q: LockRequest)
    ensures
        q == lock_request_spec(fd, kind, nonblock, len, start),
{
    LockRequest { fd, kind, wait: !(kind == LockKind::Unlock || nonblock), len, start }
}

/// The shared lock file, and the lock requests this process has sent on
/// it, in order.
pub struct LockFile {
    fd: i32,
    sent: Ghost<Seq<LockRequest>>,
}

impl LockFile {
    /// The lock file's descriptor.
    pub closed spec fn file(&self) -> i32 {
        self.fd
    }

    /// The requests sent on it through this value, oldest first.
    pub closed spec fn requests(&self) -> Seq<LockRequest> {
        self.sent@
    }

    /// The lock file open on `fd`, with no request sent yet.
    pub fn new(fd: i32) -> (r: LockFile)
        ensures
            r.file() == fd,
            r.requests() == Seq::<LockRequest>::empty(),
    {
        LockFile { fd, sent: Ghost(Seq::empty()) }
    }

    pub fn descriptor(&self) -> (r: i32)
        ensures
            r == self.file(),
    {
        self.fd
    }
}

/// `nix::fcntl::fcntl` with `F_SETLK` (or `F_SETLKW` when `q.wait`) on
/// the `q.len` bytes from offset `q.start` of the lock file `q.fd`, which
/// is `lf`'s. The call is the request `q` sent on `lf`, so `q` joins `lf`'s
/// requests. Whether a lock is granted depends on the other processes that
/// hold locks on the file, so nothing is stated of the outcome.
#[verifier::external_body]
fn fcntl_lock(lf: &mut LockFile, q: LockRequest) -> (r: LockOutcome)
    requires
        q.fd == old(lf).file(),
    ensures
        final(lf).file() == old(lf).file(),
        final(lf).requests() == old(lf).requests().push(q),
{
    let l_type = match q.kind {
        LockKind::Read => libc::F_RDLCK,
        LockKind::Write => libc::F_WRLCK,
        LockKind::Unlock => libc::F_UNLCK,
    };
    let fl = libc::flock { l_type: l_type as i16, l_whence: libc::SEEK_SET as i16, l_start: q.start as libc::off_t, l_len: q.len as libc::off_t, l_pid: 0 };
    let arg = if q.wait { nix::fcntl::FcntlArg::F_SETLKW(&fl) } else { nix::fcntl::FcntlArg::F_SETLK(&fl) };
    match nix::fcntl::fcntl(q.fd, arg) {
        Ok(_) => LockOutcome::Granted,
        Err(nix::errno::Errno::EAGAIN) | Err(nix::errno::Errno::EACCES) => LockOutcome::Busy,
        Err(e) => LockOutcome::Failed(e as i32),
    }
}

/// What a lock request of `kind` gives once the lock file answered
/// `outcome`: a granted request succeeds; a conflicting lock is `false`
/// for a non-blocking request, success for a (blocking) unlock and `EAGAIN`
/// otherwise; any other failure is ignored by an unlock and is an error
/// with its errno for a lock.
pub open spec fn lock_result_spec(kind: LockKind, nonblock: bool, outcome: LockOutcome) -> Result<
    bool,
    LockError,
> {
    match outcome {
        LockOutcome::Granted => Ok(true),
        LockOutcome::Busy => if nonblock {
            Ok(false)
        } else if kind == LockKind::Unlock {
            Ok(true)
        } else {
            Err(LockError { errno: 11 })
        },
        LockOutcome::Failed(e) => if kind == LockKind::Unlock {
            Ok(true)
        } else {
            Err(LockError { errno: e })
        },
    }
}

/// `r` is what a lock request of `kind` gives for some answer of the lock
/// file.
pub open spec fn lock_result_possible(kind: LockKind, nonblock: bool, r: Result<bool, LockError>) -> bool {
    exists|o: LockOutcome| r == #[trigger] lock_result_spec(kind, nonblock, o)
}

/// The result of a lock request of `kind` whose `fcntl` call ended with
/// `outcome` (see `lock_result_spec`).
pub fn lock_result(kind: LockKind, nonblock: bool, outcome: LockOutcome) -> (r: Result<bool, LockError>)
    ensures
        r == lock_result_spec(kind, nonblock, outcome),
{
    match outcome {
        LockOutcome::Granted => Ok(true),
        LockOutcome::Busy => {
            if nonblock {
                Ok(false)
            } else if kind == LockKind::Unlock {
                Ok(true)
            } else {
                Err(LockError { errno: 11 })
            }
        },
        LockOutcome::Failed(e) => {
            if kind == LockKind::Unlock {
                Ok(true)
            } else {
                Err(LockError { errno: e })
            }
        },
    }
}

/// One lock request on the `len` bytes from `start` of the lock file `lf`:
/// `Ok(true)` when granted, `Ok(false)` when a non-blocking request meets a
/// conflicting lock; a failed unlock is ignored; any other failure is an
/// error. The request is sent on `lf`; which answer comes depends on the
/// locks other processes hold.
pub fn do_lockf(lf: &mut LockFile, kind: LockKind, nonblock: bool, len: i64, start: i64) -> (r:
    Result<bool, LockError>)
    ensures
        final(lf).file() == old(lf).file(),
        final(lf).requests() == old(lf).requests().push(
            lock_request_spec(old(lf).file(), kind, nonblock, len, start),
        ),
        lock_result_possible(kind, nonblock, r),
        kind == LockKind::Unlock && !nonblock ==> r == Ok::<bool, LockError>(true),
        r matches Ok(false) ==> nonblock,
{
    let fd = lf.descriptor();
    let q = lock_request(fd, kind, nonblock, len, start);
    let outcome = fcntl_lock(lf, q);
    let r = lock_result(kind, nonblock, outcome);
    assert(r == lock_result_spec(kind, nonblock, outcome));
    r
}

/// A lock on one target (one byte of the shared lock file).
pub struct Lock {
    pub owned: bool,
    pub fid: i64,
}

/// Why a lock attempt gave up.
#[derive(Debug)]
pub enum LockFailure {
    Cycle(CyclicDependencyError),
    Fcntl(LockError),
}

impl Lock {
    /// A lock object for the target `fid`, not yet held; this process may
    /// have only one lock object per target.
    pub fn new(reg: &mut LockRegistry, lockfile: i32, fid: i64) -> (r: Lock)
        requires
            lockfile >= 0,
            !old(reg).ids().contains(fid),
        ensures
            final(reg).ids() == old(reg).ids().insert(fid),
            !r.owned,
            r.fid == fid,
    {
        reg.insert(fid);
        Lock { owned: false, fid }
    }

    /// Fails when taking this lock would wait on a build further up the
    /// chain of processes (`cycles` is the `REDO_CYCLES` value).
    pub fn check(&self, cycles: &str) -> (r: Result<(), CyclicDependencyError>)
        requires
            !self.owned,
        ensures
            r is Err <==> cycle_entries(cycles@).contains(int_str(self.fid as int)),
    {
        cycle_check(cycles, self.fid)
    }

    /// Tries to take the lock without waiting: a non-blocking write lock on
    /// byte `fid` of the lock file.
    pub fn trylock(&mut self, lf: &mut LockFile, cycles: &str) -> (r: Result<bool, LockError>)
        requires
            !old(self).owned,
            !cycle_entries(cycles@).contains(int_str(old(self).fid as int)),
        ensures
            final(self).fid == old(self).fid,
            final(self).owned == (r == Ok::<bool, LockError>(true)),
            final(lf).file() == old(lf).file(),
            final(lf).requests() == old(lf).requests().push(
                lock_request_spec(old(lf).file(), LockKind::Write, true, 1, old(self).fid),
            ),
            lock_result_possible(LockKind::Write, true, r),
    {
        match do_lockf(lf, LockKind::Write, true, 1, self.fid) {
            Ok(got) => {
                self.owned = got;
                Ok(got)
            },
            Err(e) => Err(e),
        }
    }

    /// Tries to take the lock without waiting, reporting a cycle as an
    /// error instead of taking the lock (no request is sent then).
    pub fn trylock_returning_cycle_error(&mut self, lf: &mut LockFile, cycles: &str) -> (r:
        Result<bool, LockFailure>)
        requires
            !old(self).owned,
        ensures
            final(self).fid == old(self).fid,
            (r matches Err(LockFailure::Cycle(_))) <==> cycle_entries(cycles@).contains(
                int_str(old(self).fid as int),
            ),
            final(self).owned == (r matches Ok(true)),
            final(lf).file() == old(lf).file(),
            final(lf).requests() == if r matches Err(LockFailure::Cycle(_)) {
                old(lf).requests()
            } else {
                old(lf).requests().push(
                    lock_request_spec(old(lf).file(), LockKind::Write, true, 1, old(self).fid),
                )
            },
            r matches Err(LockFailure::Fcntl(e)) ==> lock_result_possible(
                LockKind::Write,
                true,
                Err(e),
            ),
    {
        match self.check(cycles) {
            Err(e) => Err(LockFailure::Cycle(e)),
            Ok(()) => match self.trylock(lf, cycles) {
                Ok(b) => Ok(b),
                Err(e) => Err(LockFailure::Fcntl(e)),
            },
        }
    }

    /// Waits until the lock is held: a blocking write lock (a read lock when
    /// `shared`) on byte `fid` of the lock file.
    pub fn waitlock(&mut self, lf: &mut LockFile, shared: bool) -> (r: Result<(), LockError>)
        requires
            !old(self).owned,
        ensures
            final(self).fid == old(self).fid,
            final(self).owned == (r is Ok),
            final(lf).file() == old(lf).file(),
            final(lf).requests() == old(lf).requests().push(
                lock_request_spec(
                    old(lf).file(),
                    if shared {
                        LockKind::Read
                    } else {
                        LockKind::Write
                    },
                    false,
                    1,
                    old(self).fid,
                ),
            ),
            r matches Err(e) ==> lock_result_possible(
                if shared {
                    LockKind::Read
                } else {
                    LockKind::Write
                },
                false,
                Err(e),
            ),
    {
        let kind = if shared {
            LockKind::Read
        } else {
            LockKind::Write
        };
        match do_lockf(lf, kind, false, 1, self.fid) {
            Ok(_) => {
                self.owned = true;
                Ok(())
            },
            Err(e) => Err(e),
        }
    }

    /// Gives the lock back: an unlock, which does not wait, of byte `fid` of
    /// the lock file.
    pub fn unlock(&mut self, lf: &mut LockFile)
        requires
            old(self).owned,
        ensures
            final(self).fid == old(self).fid,
            !final(self).owned,
            final(lf).file() == old(lf).file(),
            final(lf).requests() == old(lf).requests().push(
                lock_request_spec(old(lf).file(), LockKind::Unlock, false, 1, old(self).fid),
            ),
    {
        let _ = do_lockf(lf, LockKind::Unlock, false, 1, self.fid);
        self.owned = false;
    }

    /// Ends this lock object: the lock is given back if held and the target
    /// may have a new lock object.
    pub fn release(self, reg: &mut LockRegistry, lf: &mut LockFile)
        ensures
            final(reg).ids() == old(reg).ids().remove(self.fid),
            final(lf).file() == old(lf).file(),
            final(lf).requests() == if self.owned {
                old(lf).requests().push(
                    lock_request_spec(old(lf).file(), LockKind::Unlock, false, 1, self.fid),
                )
            } else {
                old(lf).requests()
            },
    {
        reg.remove(self.fid);
        let mut me = self;
        if me.owned {
            me.unlock(lf);
        }
    }
}

/// Whether `fcntl` locks are broken on this system (as on some versions of
/// WSL); they are taken to work.
pub fn detect_broken_locks() -> (r: bool)
    ensures
        !r,
{
    false
}

/// Recording the same stamp twice changes nothing the second time.
pub proof fn law_restamp_idempotent(f: FileView, newstamp: Seq<char>, runid: Option<i64>)
    ensures
        stamped_view(stamped_view(f, newstamp, runid), newstamp, runid) == stamped_view(
            f,
            newstamp,
            runid,
        ),
{
}

/// A file whose stamp did not change was not modified by hand.
pub proof fn law_same_stamp_not_override(stamp: Seq<char>)
    ensures
        !detect_override_spec(stamp, stamp),
{
}

/// The relative path from a directory to itself is `.`.
pub proof fn law_relpath_self(t: Seq<char>)
    ensures
        rel_path(t, t) == dot(),
{
    let parts = split(normalize(t), '/');
    lemma_common_len_self(parts);
    assert(rel_parts(parts, parts) =~= Seq::<Seq<char>>::empty());
}

proof fn lemma_common_len_self(a: Seq<Seq<char>>)
    ensures
        common_len(a, a) == a.len(),
    decreases a.len(),
{
    if a.len() > 0 {
        lemma_common_len_self(a.drop_first());
    }
}

/// The parts that normalization keeps: each is non-empty, is not `.`, holds
/// no `/`; an absolute path keeps no `..`, a relative one keeps `..` only in
/// front of every other part.
pub open spec fn kept_parts(k: Seq<Seq<char>>, absolute: bool) -> bool {
    &&& forall|i: int|
        0 <= i < k.len() ==> {
            &&& (#[trigger] k[i]).len() > 0
            &&& k[i] != dot()
            &&& free_of(k[i], '/')
            &&& (absolute ==> k[i] != dotdot())
        }
    &&& forall|i: int, j: int|
        0 <= i < j < k.len() && #[trigger] k[j] == dotdot() ==> #[trigger] k[i] == dotdot()
}

proof fn lemma_norm_parts_kept(pieces: Seq<Seq<char>>, absolute: bool)
    requires
        forall|i: int| 0 <= i < pieces.len() ==> free_of(#[trigger] pieces[i], '/'),
    ensures
        kept_parts(norm_parts(pieces, absolute), absolute),
    decreases pieces.len(),
{
    if pieces.len() > 0 {
        let init = pieces.drop_last();
        assert forall|i: int| 0 <= i < init.len() implies free_of(#[trigger] init[i], '/') by {
            assert(init[i] == pieces[i]);
        }
        lemma_norm_parts_kept(init, absolute);
        let kept = norm_parts(init, absolute);
        let piece = pieces.last();
        assert(free_of(pieces[pieces.len() - 1], '/'));
        let next = norm_step(kept, piece, absolute);
        if piece.len() == 0 || piece == dot() {
        } else if piece == dotdot() {
            if kept.len() > 0 && kept.last() != dotdot() {
                assert forall|i: int| 0 <= i < next.len() implies {
                    &&& (#[trigger] next[i]).len() > 0
                    &&& next[i] != dot()
                    &&& free_of(next[i], '/')
                    &&& (absolute ==> next[i] != dotdot())
                } by {
                    assert(next[i] == kept[i]);
                }
                assert forall|i: int, j: int|
                    0 <= i < j < next.len() && #[trigger] next[j] == dotdot() implies #[trigger] next[i]
                        == dotdot() by {
                    assert(next[i] == kept[i]);
                    assert(next[j] == kept[j]);
                }
            } else if !absolute {
                assert forall|i: int| 0 <= i < next.len() implies {
                    &&& (#[trigger] next[i]).len() > 0
                    &&& next[i] != dot()
                    &&& free_of(next[i], '/')
                    &&& (absolute ==> next[i] != dotdot())
                } by {
                    if i < kept.len() {
                        assert(next[i] == kept[i]);
                    } else {
                        assert(next[i] == dotdot());
                        assert(dotdot()[0] != '/' && dotdot()[1] != '/');
                        assert(dotdot().len() == 2);
                    }
                }
                assert forall|i: int, j: int|
                    0 <= i < j < next.len() && #[trigger] next[j] == dotdot() implies #[trigger] next[i]
                        == dotdot() by {
                    assert(next[i] == kept[i]);
                    if j < kept.len() {
                        assert(next[j] == kept[j]);
                    } else {
                        let l = kept.len() - 1;
                        assert(kept[l] == dotdot());
                        if i < l {
                            assert(kept[l] == dotdot());
                        }
                    }
                }
            }
        } else {
            assert forall|i: int| 0 <= i < next.len() implies {
                &&& (#[trigger] next[i]).len() > 0
                &&& next[i] != dot()
                &&& free_of(next[i], '/')
                &&& (absolute ==> next[i] != dotdot())
            } by {
                if i < kept.len() {
                    assert(next[i] == kept[i]);
                }
            }
            assert forall|i: int, j: int|
                0 <= i < j < next.len() && #[trigger] next[j] == dotdot() implies #[trigger] next[i]
                    == dotdot() by {
                assert(next[i] == kept[i]);
                if j < kept.len() {
                    assert(next[j] == kept[j]);
                }
            }
        }
    }
}

proof fn lemma_norm_parts_fixed(k: Seq<Seq<char>>, absolute: bool)
    requires
        kept_parts(k, absolute),
    ensures
        norm_parts(k, absolute) == k,
    decreases k.len(),
{
    if k.len() > 0 {
        let init = k.drop_last();
        assert forall|i: int| 0 <= i < init.len() implies {
            &&& (#[trigger] init[i]).len() > 0
            &&& init[i] != dot()
            &&& free_of(init[i], '/')
            &&& (absolute ==> init[i] != dotdot())
        } by {
            assert(init[i] == k[i]);
        }
        assert forall|i: int, j: int|
            0 <= i < j < init.len() && #[trigger] init[j] == dotdot() implies #[trigger] init[i]
                == dotdot() by {
            assert(init[i] == k[i]);
            assert(init[j] == k[j]);
        }
        lemma_norm_parts_fixed(init, absolute);
        let last = k[k.len() - 1];
        assert(last.len() > 0 && last != dot());
        if last == dotdot() {
            assert(!absolute);
            if init.len() > 0 {
                assert(k[init.len() - 1] == dotdot());
            }
        }
        assert(init.push(last) =~= k);
    }
}

proof fn lemma_norm_parts_skip_empty(k: Seq<Seq<char>>, absolute: bool)
    ensures
        norm_parts(seq![Seq::<char>::empty()] + k, absolute) == norm_parts(k, absolute),
    decreases k.len(),
{
    let e = seq![Seq::<char>::empty()];
    if k.len() == 0 {
        assert(e + k =~= e);
        assert(e.drop_last() =~= Seq::<Seq<char>>::empty());
        assert(norm_parts(Seq::<Seq<char>>::empty(), absolute) == Seq::<Seq<char>>::empty());
        assert(e.last().len() == 0);
    } else {
        lemma_norm_parts_skip_empty(k.drop_last(), absolute);
        assert((e + k).drop_last() =~= e + k.drop_last());
        assert((e + k).last() == k.last());
    }
}

proof fn lemma_join_after_empty(k: Seq<Seq<char>>)
    requires
        k.len() >= 1,
    ensures
        join(seq![Seq::<char>::empty()] + k, slash()) == slash() + join(k, slash()),
    decreases k.len(),
{
    let e = seq![Seq::<char>::empty()];
    if k.len() == 1 {
        assert((e + k).drop_last() =~= e);
        assert(join(e, slash()) == Seq::<char>::empty());
        assert(Seq::<char>::empty() + slash() + k[0] =~= slash() + k[0]);
    } else {
        lemma_join_after_empty(k.drop_last());
        assert((e + k).drop_last() =~= e + k.drop_last());
        assert(slash() + join(k.drop_last(), slash()) + slash() + k.last() =~= slash() + (join(
            k.drop_last(),
            slash(),
        ) + slash() + k.last()));
    }
}

proof fn lemma_join_first(k: Seq<Seq<char>>)
    requires
        k.len() >= 1,
        k[0].len() > 0,
    ensures
        join(k, slash()).len() > 0,
        join(k, slash())[0] == k[0][0],
    decreases k.len(),
{
    if k.len() > 1 {
        lemma_join_first(k.drop_last());
    }
}

/// Normalizing a normalized path changes nothing.
pub proof fn law_normalize_idempotent(p: Seq<char>)
    ensures
        normalize(normalize(p)) == normalize(p),
{
    let absolute = starts_with(p, slash());
    let pieces = split(p, '/');
    lemma_split_pieces_free(p, '/');
    lemma_norm_parts_kept(pieces, absolute);
    let k = norm_parts(pieces, absolute);
    let n = normalize(p);
    if absolute {
        assert(n == slash() + join(k, slash()));
        assert(starts_with(n, slash())) by {
            assert(n.take(1) =~= slash());
        }
        if k.len() == 0 {
            assert(n =~= seq!['/']);
            assert(n.drop_last() =~= Seq::<char>::empty());
            assert(n.last() == '/');
            let e = seq![Seq::<char>::empty()];
            assert(split(Seq::<char>::empty(), '/') == e);
            assert(split(n, '/') == e.push(Seq::<char>::empty()));
            assert(e.push(Seq::<char>::empty()) =~= e + e);
            lemma_norm_parts_skip_empty(e, true);
            lemma_norm_parts_skip_empty(Seq::<Seq<char>>::empty(), true);
            assert(e + Seq::<Seq<char>>::empty() =~= e);
            assert(norm_parts(Seq::<Seq<char>>::empty(), true) == Seq::<Seq<char>>::empty());
            assert(join(Seq::<Seq<char>>::empty(), slash()) =~= Seq::<char>::empty());
            assert(normalize(n) =~= slash());
            assert(n =~= slash());
        } else {
            let e = seq![Seq::<char>::empty()];
            let ek = e + k;
            assert forall|i: int| 0 <= i < ek.len() implies free_of(#[trigger] ek[i], '/') by {
                if i > 0 {
                    assert(ek[i] == k[i - 1]);
                }
            }
            lemma_join_after_empty(k);
            lemma_split_join(ek, '/');
            assert(seq!['/'] =~= slash());
            assert(split(n, '/') == ek);
            lemma_norm_parts_skip_empty(k, true);
            lemma_norm_parts_fixed(k, true);
        }
    } else {
        if k.len() == 0 {
            assert(join(k, slash()) =~= Seq::<char>::empty());
            assert(n == dot());
            assert(!starts_with(n, slash())) by {
                assert(n.take(1) =~= dot());
                assert(dot()[0] != slash()[0]);
            }
            assert(free_of(dot(), '/'));
            lemma_split_free(dot(), '/');
            assert(seq![dot()].drop_last() =~= Seq::<Seq<char>>::empty());
            assert(seq![dot()].last() == dot());
            assert(norm_parts(Seq::<Seq<char>>::empty(), false) == Seq::<Seq<char>>::empty());
            assert(norm_parts(seq![dot()], false) =~= Seq::<Seq<char>>::empty());
        } else {
            assert(k[0].len() > 0 && free_of(k[0], '/'));
            lemma_join_first(k);
            assert(n == join(k, slash()));
            assert(!starts_with(n, slash())) by {
                assert(n.take(1)[0] == k[0][0]);
            }
            assert forall|i: int| 0 <= i < k.len() implies free_of(#[trigger] k[i], '/') by {}
            assert(seq!['/'] =~= slash());
            lemma_split_join(k, '/');
            lemma_norm_parts_fixed(k, false);
        }
    }
}

/// Applying `a` and then `b` is applying `a + b`.
pub proof fn lemma_apply_all_append(db: Tables, a: Seq<RowChangeView>, b: Seq<RowChangeView>)
    ensures
        apply_all(db, a + b) == apply_all(apply_all(db, a), b),
    decreases b.len(),
{
    if b.len() == 0 {
        assert(a + b =~= a);
    } else {
        lemma_apply_all_append(db, a, b.drop_last());
        assert((a + b).drop_last() =~= a + b.drop_last());
        assert((a + b).last() == b.last());
    }
}

/// No change removes a file record, and adding one makes it present.
proof fn lemma_files_grow(db: Tables, cs: Seq<RowChangeView>, n: Seq<char>)
    requires
        db.files.contains_key(n) || cs.contains(RowChangeView::AddFile(n)),
    ensures
        apply_all(db, cs).files.contains_key(n),
    decreases cs.len(),
{
    if cs.len() > 0 {
        let init = cs.drop_last();
        if db.files.contains_key(n) || init.contains(RowChangeView::AddFile(n)) {
            lemma_files_grow(db, init, n);
        } else {
            let i = choose|i: int| 0 <= i < cs.len() && cs[i] == RowChangeView::AddFile(n);
            if i < init.len() {
                assert(init[i] == cs[i]);
            }
            assert(cs.last() == RowChangeView::AddFile(n));
        }
    }
}

/// A rollback leaves the tables as the last commit left them: a record
/// added since then for a new name is there before the rollback, and gone
/// after it, when no change is pending any more.
pub proof fn law_rollback_restores(s: Tables, pending: Seq<RowChangeView>, n: Seq<char>)
    requires
        !s.files.contains_key(n),
        pending.contains(RowChangeView::AddFile(n)),
    ensures
        apply_all(s, pending).files.contains_key(n),
        apply_all(s, Seq::<RowChangeView>::empty()) == s,
        !apply_all(s, Seq::<RowChangeView>::empty()).files.contains_key(n),
{
    lemma_files_grow(s, pending, n);
}

/// The dependency rows that recording the sources `l` of target `t`
/// writes, in order.
pub open spec fn dep_adds(t: i64, l: Seq<(Seq<char>, i64)>) -> Seq<RowChangeView> {
    Seq::new(l.len(), |i: int| RowChangeView::AddDep(t, l[i].0, l[i].1))
}

/// `src` is among the sources of `l`.
pub open spec fn listed(l: Seq<(Seq<char>, i64)>, src: i64) -> bool {
    exists|i: int| 0 <= i < l.len() && #[trigger] l[i].1 == src
}

/// The mode of the last entry of `l` for `src`.
pub open spec fn last_mode(l: Seq<(Seq<char>, i64)>, src: i64) -> Seq<char>
    decreases l.len(),
{
    if l.len() == 0 {
        Seq::empty()
    } else if l.last().1 == src {
        l.last().0
    } else {
        last_mode(l.drop_last(), src)
    }
}

proof fn lemma_dep_adds(m: Tables, t: i64, l: Seq<(Seq<char>, i64)>)
    ensures
        ({
            let a = apply_all(m, dep_adds(t, l));
            &&& a.files == m.files
            &&& forall|k: (i64, i64)|
                k.0 != t ==> (#[trigger] a.deps.contains_key(k) == m.deps.contains_key(k) && (
                m.deps.contains_key(k) ==> a.deps[k] == m.deps[k]))
            &&& forall|src: i64|
                #[trigger] a.deps.contains_key((t, src)) == (m.deps.contains_key((t, src))
                    || listed(l, src))
            &&& forall|src: i64|
                listed(l, src) ==> #[trigger] a.deps[(t, src)] == (last_mode(l, src), false)
            &&& forall|src: i64|
                !listed(l, src) && m.deps.contains_key((t, src)) ==> #[trigger] a.deps[(t, src)]
                    == m.deps[(t, src)]
        }),
    decreases l.len(),
{
    if l.len() == 0 {
        assert(dep_adds(t, l) =~= Seq::<RowChangeView>::empty());
    } else {
        let init = l.drop_last();
        lemma_dep_adds(m, t, init);
        assert(dep_adds(t, l).drop_last() =~= dep_adds(t, init));
        let (md, sr) = l.last();
        assert(dep_adds(t, l).last() == RowChangeView::AddDep(t, md, sr));
        let b = apply_all(m, dep_adds(t, init));
        let a = apply_all(m, dep_adds(t, l));
        assert(a.deps == b.deps.insert((t, sr), (md, false)));
        assert forall|src: i64| listed(l, src) <==> (listed(init, src) || src == sr) by {
            if listed(l, src) {
                let i = choose|i: int| 0 <= i < l.len() && #[trigger] l[i].1 == src;
                if i < init.len() {
                    assert(init[i] == l[i]);
                }
            }
            if listed(init, src) {
                let i = choose|i: int| 0 <= i < init.len() && #[trigger] init[i].1 == src;
                assert(l[i] == init[i]);
            }
            if src == sr {
                assert(l[l.len() - 1].1 == src);
            }
        }
    }
}

/// Replacing the dependencies of target `t` (marking them, recording the
/// sources `l`, then deleting the rows still marked) leaves exactly the rows
/// of `l` for `t`, each with the mode last recorded for it, and changes
/// no other row.
pub proof fn law_zap_deps_keeps_recorded(db: Tables, t: i64, l: Seq<(Seq<char>, i64)>)
    ensures
        ({
            let after = apply_all(
                db,
                seq![RowChangeView::MarkDeps(t)] + dep_adds(t, l) + seq![
                    RowChangeView::DropMarkedDeps(t),
                ],
            );
            &&& after.files == db.files
            &&& forall|k: (i64, i64)|
                k.0 != t ==> (#[trigger] after.deps.contains_key(k) == db.deps.contains_key(k) && (
                db.deps.contains_key(k) ==> after.deps[k] == db.deps[k]))
            &&& forall|src: i64| #[trigger] after.deps.contains_key((t, src)) == listed(l, src)
            &&& forall|src: i64|
                listed(l, src) ==> #[trigger] after.deps[(t, src)] == (last_mode(l, src), false)
        }),
{
    let mark = seq![RowChangeView::MarkDeps(t)];
    let adds = dep_adds(t, l);
    let drop = seq![RowChangeView::DropMarkedDeps(t)];
    lemma_apply_all_append(db, mark + adds, drop);
    lemma_apply_all_append(db, mark, adds);
    assert(mark.drop_last() =~= Seq::<RowChangeView>::empty());
    assert(apply_all(db, Seq::<RowChangeView>::empty()) == db);
    assert(mark.last() == RowChangeView::MarkDeps(t));
    let m = apply_all(db, mark);
    assert(m == apply_change(db, RowChangeView::MarkDeps(t)));
    lemma_dep_adds(m, t, l);
    let a = apply_all(m, adds);
    assert(apply_all(db, mark + adds) == a);
    assert(drop.drop_last() =~= Seq::<RowChangeView>::empty());
    assert(apply_all(a, Seq::<RowChangeView>::empty()) == a);
    assert(drop.last() == RowChangeView::DropMarkedDeps(t));
    assert(apply_all(a, drop) == apply_change(a, RowChangeView::DropMarkedDeps(t)));
    let after = apply_all(db, mark + adds + drop);
    assert(after == apply_change(a, RowChangeView::DropMarkedDeps(t)));
    assert forall|src: i64| #[trigger] after.deps.contains_key((t, src)) == listed(l, src) by {
        if !listed(l, src) && m.deps.contains_key((t, src)) {
            assert(a.deps[(t, src)] == m.deps[(t, src)]);
        }
    }
}

/// What counts as a source: a file that redo did not generate, or one that
/// the user overrode by hand, is a source while it exists; a generated file
/// that is neither overridden nor changed since it was built is not; and a
/// `//` pseudo-file never is.
pub proof fn law_sources(f: FileView, newstamp: Seq<char>, runid: Option<i64>)
    ensures
        !starts_with(f.name, slash() + slash()) && f.is_override && newstamp != stamp_missing()
            ==> is_source_spec(f, newstamp, runid),
        !starts_with(f.name, slash() + slash()) && !f.is_generated && newstamp != stamp_missing()
            ==> is_source_spec(f, newstamp, runid),
        starts_with(f.name, slash() + slash()) ==> !is_source_spec(f, newstamp, runid),
        f.is_generated && !f.is_override && f.stamp == Some(newstamp) && !reached(
            f.failed_runid,
            runid,
        ) ==> !is_source_spec(f, newstamp, runid),
        newstamp == stamp_missing() && !f.is_generated ==> !is_source_spec(f, newstamp, runid),
{
}

} // verus!
