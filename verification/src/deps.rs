//! Dirtiness: whether a target must be rebuilt, decided from its record,
//! the stamps of the files on disk and, recursively, its dependencies.
//!
//! The decision runs on a `DepGraph`: the records of the files involved, the
//! dependencies listed for each (in the order the database gives them), the
//! stamp of each file on disk now and whether it exists. Records saved along
//! the way, marks of checked files and messages are kept in a `DirtyState`;
//! the caller writes the saved records back to the database and emits the
//! messages, in order.
use vstd::prelude::*;
use crate::cycles::CyclicDependencyError;
use crate::state::{
    fixed_always, opt_str, reached, stamp_is, stamp_missing, is_missing_stamp, File, FileView,
};
use crate::text::{append_slice, copy_chars, i64_chars, int_str, to_chars};

verus! {

/// Outcome of a dirtiness check.
#[derive(Debug)]
pub enum DirtyResult {
    Clean,
    Dirty,
    /// Not dirty itself, but these files must be rebuilt before it is known.
    NeedsBuild(Vec<File>),
}

pub enum DirtyView {
    Clean,
    Dirty,
    NeedsBuild(Seq<FileView>),
}

pub open spec fn file_views(v: Seq<File>) -> Seq<FileView> {
    Seq::new(v.len(), |i: int| v[i]@)
}

impl View for DirtyResult {
    type V = DirtyView;

    open spec fn view(&self) -> DirtyView {
        match self {
            DirtyResult::Clean => DirtyView::Clean,
            DirtyResult::Dirty => DirtyView::Dirty,
            DirtyResult::NeedsBuild(v) => DirtyView::NeedsBuild(file_views(v@)),
        }
    }
}

impl DirtyResult {
    pub fn is_clean(&self) -> (r: bool)
        ensures
            r == (self@ is Clean),
    {
        match self {
            DirtyResult::Clean => true,
            _ => false,
        }
    }

    pub fn is_dirty(&self) -> (r: bool)
        ensures
            r == !(self@ is Clean),
    {
        !self.is_clean()
    }
}

/// How a dependency was recorded: `c` (rebuild if it comes to exist) or
/// `m` (rebuild if it changes).
#[derive(Clone, Copy, PartialEq, Eq, Structural)]
pub enum DepMode {
    Created,
    Modified,
}

/// One file as the check sees it.
pub struct DepNode {
    /// The record as the database holds it.
    pub file: File,
    /// Its dependencies: how each is recorded and the id of its source.
    pub deps: Vec<(DepMode, i64)>,
    /// Its stamp on disk now.
    pub stamp: String,
    /// Whether it exists on disk now.
    pub exists: bool,
    /// Its name relative to the directory redo was started in.
    pub nicename: String,
}

/// Where checked files are remembered: in their records (`checked_runid`,
/// saved to the database) or only in memory for this one command (as
/// `redo-ood` does, which also stays silent about overrides).
#[derive(Clone, Copy, PartialEq, Eq, Structural)]
pub enum CheckMode {
    Recorded,
    Cached,
}

pub struct DepGraph {
    pub nodes: Vec<DepNode>,
    pub runid: Option<i64>,
    pub mode: CheckMode,
    /// Debug messages are wanted (`REDO_DEBUG` of 1 or more).
    pub debug: bool,
}

/// What the check leaves behind, in order.
pub enum DirtyEffect {
    /// Write this record to the database.
    Save(File),
    /// A target was modified by hand: warn about it by name.
    Warn(String),
    /// A debug message.
    Note(String),
}

pub enum EffectView {
    Save(FileView),
    Warn(Seq<char>),
    Note(Seq<char>),
}

impl View for DirtyEffect {
    type V = EffectView;

    open spec fn view(&self) -> EffectView {
        match self {
            DirtyEffect::Save(f) => EffectView::Save(f@),
            DirtyEffect::Warn(s) => EffectView::Warn(s@),
            DirtyEffect::Note(s) => EffectView::Note(s@),
        }
    }
}

pub struct DirtyState {
    /// The current record of each node of the graph (same order).
    pub records: Vec<File>,
    /// The ids checked so far, in `Cached` mode.
    pub cache: Vec<i64>,
    pub effects: Vec<DirtyEffect>,
}

pub struct StView {
    pub recs: Seq<FileView>,
    pub cache: Set<i64>,
    pub fx: Seq<EffectView>,
}

impl View for DirtyState {
    type V = StView;

    open spec fn view(&self) -> StView {
        StView {
            recs: file_views(self.records@),
            cache: self.cache@.to_set(),
            fx: Seq::new(self.effects@.len(), |i: int| self.effects@[i]@),
        }
    }
}

// ---------------------------------------------------------------------------
// The graph, read in specifications
// ---------------------------------------------------------------------------

pub open spec fn ids(g: &DepGraph) -> Seq<i64> {
    Seq::new(g.nodes@.len(), |k: int| g.nodes@[k].file.id)
}

pub open spec fn index_of(s: Seq<i64>, x: i64) -> int
    decreases s.len(),
{
    if s.len() == 0 {
        -1
    } else if s.last() == x {
        if index_of(s.drop_last(), x) >= 0 {
            index_of(s.drop_last(), x)
        } else {
            s.len() - 1
        }
    } else {
        index_of(s.drop_last(), x)
    }
}

pub proof fn lemma_index_of(s: Seq<i64>, x: i64)
    ensures
        -1 <= index_of(s, x) < s.len(),
        index_of(s, x) >= 0 ==> s[index_of(s, x)] == x,
        index_of(s, x) >= 0 ==> forall|j: int| 0 <= j < index_of(s, x) ==> s[j] != x,
        index_of(s, x) < 0 <==> !s.contains(x),
    decreases s.len(),
{
    if s.len() > 0 {
        lemma_index_of(s.drop_last(), x);
        if s.contains(x) {
            let j = choose|j: int| 0 <= j < s.len() && s[j] == x;
            if j < s.len() - 1 {
                assert(s.drop_last()[j] == x);
            }
        }
        if s.drop_last().contains(x) {
            let j = choose|j: int| 0 <= j < s.drop_last().len() && s.drop_last()[j] == x;
            assert(s[j] == x);
        }
        assert forall|j: int| 0 <= j < index_of(s, x) implies s[j] != x by {
            assert(s[j] == s.drop_last()[j]);
        }
    }
}

pub open spec fn node_of(g: &DepGraph, id: i64) -> int {
    index_of(ids(g), id)
}

pub open spec fn in_graph(g: &DepGraph, id: i64) -> bool {
    ids(g).contains(id)
}

/// The graph's ids are distinct.
pub open spec fn graph_wf(g: &DepGraph) -> bool {
    ids(g).no_duplicates()
}

/// The state holds one record per node, under the node's id.
pub open spec fn state_wf(g: &DepGraph, st: StView) -> bool {
    &&& st.recs.len() == g.nodes@.len()
    &&& forall|k: int| 0 <= k < st.recs.len() ==> (#[trigger] st.recs[k]).id == g.nodes@[k].file.id
}

/// The files being checked up the current chain: distinct, all in the graph.
pub open spec fn chain_ok(g: &DepGraph, ac: Seq<i64>) -> bool {
    &&& ac.no_duplicates()
    &&& forall|x: i64| ac.contains(x) ==> in_graph(g, x)
}

pub open spec fn is_checked_in(g: &DepGraph, st: StView, f: FileView) -> bool {
    match g.mode {
        CheckMode::Recorded => reached(f.checked_runid, g.runid),
        CheckMode::Cached => st.cache.contains(f.id),
    }
}

/// The state after `f` is written to the database.
pub open spec fn saved(g: &DepGraph, st: StView, f: FileView) -> StView {
    let k = node_of(g, f.id);
    StView {
        recs: if k >= 0 {
            st.recs.update(k, f)
        } else {
            st.recs
        },
        fx: st.fx.push(EffectView::Save(f)),
        ..st
    }
}

pub open spec fn noted(g: &DepGraph, st: StView, text: Seq<char>) -> StView {
    if g.debug {
        StView { fx: st.fx.push(EffectView::Note(text)), ..st }
    } else {
        st
    }
}

pub open spec fn marked_checked(g: &DepGraph, st: StView, f: FileView) -> StView {
    match g.mode {
        CheckMode::Recorded => saved(g, st, FileView { checked_runid: g.runid, ..f }),
        CheckMode::Cached => StView { cache: st.cache.insert(f.id), ..st },
    }
}

pub open spec fn warned(g: &DepGraph, st: StView, f: FileView) -> StView {
    if f.is_override && g.mode == CheckMode::Recorded {
        StView { fx: st.fx.push(EffectView::Warn(f.name)), ..st }
    } else {
        st
    }
}

/// The dependencies of `f` as the database lists them now: none for a file
/// that redo does not build or that was overridden; otherwise each recorded
/// dependency whose source is known, with the source's current record.
pub open spec fn dep_list(g: &DepGraph, st: StView, ds: Seq<(DepMode, i64)>) -> Seq<
    (DepMode, FileView),
>
    decreases ds.len(),
{
    if ds.len() == 0 {
        Seq::empty()
    } else {
        let rest = dep_list(g, st, ds.drop_last());
        let (m, id) = ds.last();
        let k = node_of(g, id);
        if k >= 0 {
            rest.push((m, fixed_always(st.recs[k], g.runid)))
        } else {
            rest
        }
    }
}

pub open spec fn dep_files(g: &DepGraph, st: StView, f: FileView) -> Seq<(DepMode, FileView)> {
    let k = node_of(g, f.id);
    if f.is_override || !f.is_generated || k < 0 {
        Seq::empty()
    } else {
        dep_list(g, st, g.nodes@[k].deps@)
    }
}

pub open spec fn bool_str(b: bool) -> Seq<char> {
    if b {
        "true"@
    } else {
        "false"@
    }
}

pub open spec fn opt_int_str(o: Option<i64>) -> Seq<char> {
    match o {
        Some(n) => "Some("@ + int_str(n as int) + ")"@,
        None => "None"@,
    }
}

pub open spec fn max_i64(a: i64, b: i64) -> i64 {
    if a >= b {
        a
    } else {
        b
    }
}

// ---------------------------------------------------------------------------
// The rule
// ---------------------------------------------------------------------------

/// Whether `f` is dirty, checked below the chain `ac` of files already
/// being checked, against the run threshold `maxc`; with the state after the
/// check. `Err` is a dependency cycle.
pub open spec fn dirty(
    g: &DepGraph,
    st: StView,
    f: FileView,
    depth: Seq<char>,
    maxc: i64,
    ac: Seq<i64>,
) -> (Result<DirtyView, ()>, StView)
    decreases ids(g).len() - ac.len(), 1int, 0int,
{
    if ac.contains(f.id) {
        (Err(()), st)
    } else {
        let ac2 = ac.push(f.id);
        let st = noted(
            g,
            st,
            depth + "?"@ + g.nodes@[node_of(g, f.id)].nicename@ + " "@ + bool_str(f.is_generated)
                + ","@ + bool_str(f.is_override),
        );
        if f.failed_runid is Some && f.failed_runid->0 > 0 {
            (Ok(DirtyView::Dirty), noted(g, st, depth + "-- DIRTY (failed last time)"@))
        } else if f.changed_runid is None {
            (Ok(DirtyView::Dirty), noted(g, st, depth + "-- DIRTY (never built)"@))
        } else if f.changed_runid->0 > maxc {
            (
                Ok(DirtyView::Dirty),
                noted(
                    g,
                    st,
                    depth + "-- DIRTY (built "@ + int_str(f.changed_runid->0 as int) + " > "@
                        + int_str(maxc as int) + "; "@ + opt_int_str(g.runid) + ")"@,
                ),
            )
        } else if is_checked_in(g, st, f) {
            (Ok(DirtyView::Clean), noted(g, st, depth + "-- CLEAN (checked)"@))
        } else if f.stamp is None {
            (Ok(DirtyView::Dirty), noted(g, st, depth + "-- DIRTY (no stamp)"@))
        } else {
            let newstamp = g.nodes@[node_of(g, f.id)].stamp@;
            if f.stamp != Some(newstamp) {
                let st = if newstamp == stamp_missing() {
                    let st = noted(g, st, depth + "-- DIRTY (missing)"@);
                    if f.is_generated {
                        let st = noted(
                            g,
                            st,
                            depth + "   converted target -> source "@ + int_str(f.id as int),
                        );
                        saved(g, st, FileView { is_generated: false, failed_runid: None, ..f })
                    } else {
                        st
                    }
                } else {
                    noted(g, st, depth + "-- DIRTY (mtime)"@)
                };
                (
                    Ok(
                        if f.csum is Some {
                            DirtyView::NeedsBuild(seq![f])
                        } else {
                            DirtyView::Dirty
                        },
                    ),
                    st,
                )
            } else {
                let mc = max_i64(
                    f.changed_runid->0,
                    match f.checked_runid {
                        Some(c) => c,
                        None => 0,
                    },
                );
                dirty_deps(g, st, f, depth, mc, ac2, dep_files(g, st, f), 0, Seq::empty())
            }
        }
    }
}

/// The dependency loop of `dirty`: the dependencies `ds` of `f` from index
/// `i` on, with the files gathered so far that must be built first.
pub open spec fn dirty_deps(
    g: &DepGraph,
    st: StView,
    f: FileView,
    depth: Seq<char>,
    mc: i64,
    ac2: Seq<i64>,
    ds: Seq<(DepMode, FileView)>,
    i: int,
    must: Seq<FileView>,
) -> (Result<DirtyView, ()>, StView)
    decreases ids(g).len() - ac2.len() + 1, 0int, ds.len() - i,
{
    if i < 0 || i >= ds.len() {
        if must.len() > 0 {
            (Ok(DirtyView::NeedsBuild(must)), st)
        } else {
            let st = noted(g, st, depth + "-- CLEAN"@);
            let st = warned(g, st, f);
            (Ok(DirtyView::Clean), marked_checked(g, st, f))
        }
    } else {
        let (m, f2) = ds[i];
        let (r, st) = if m == DepMode::Created {
            if g.nodes@[node_of(g, f2.id)].exists {
                (Ok(DirtyView::Dirty), noted(g, st, depth + "-- DIRTY (created)"@))
            } else {
                (Ok(DirtyView::Clean), st)
            }
        } else if ac2.len() > ids(g).len() {
            (Err(()), st)
        } else {
            let (sub, st) = dirty(g, st, f2, depth + "  "@, mc, ac2);
            match sub {
                Err(_) => (Err(()), st),
                Ok(s) => if s is Clean {
                    (Ok(DirtyView::Clean), st)
                } else {
                    (Ok(s), noted(g, st, depth + "-- DIRTY (sub)"@))
                },
            }
        };
        match r {
            Err(_) => (Err(()), st),
            Ok(d) => match d {
                DirtyView::Dirty => if f.csum is None {
                    (Ok(DirtyView::Dirty), st)
                } else {
                    (Ok(DirtyView::NeedsBuild(seq![f])), st)
                },
                DirtyView::NeedsBuild(fs) => dirty_deps(
                    g,
                    st,
                    f,
                    depth,
                    mc,
                    ac2,
                    ds,
                    i + 1,
                    must + fs,
                ),
                DirtyView::Clean => dirty_deps(g, st, f, depth, mc, ac2, ds, i + 1, must),
            },
        }
    }
}

// ---------------------------------------------------------------------------
// The check
// ---------------------------------------------------------------------------

pub open spec fn pairs_view(v: Seq<(DepMode, File)>) -> Seq<(DepMode, FileView)> {
    Seq::new(v.len(), |i: int| (v[i].0, v[i].1@))
}

proof fn lemma_chain_len(g: &DepGraph, ac: Seq<i64>)
    requires
        chain_ok(g, ac),
    ensures
        ac.len() <= ids(g).len(),
{
    ac.unique_seq_to_set();
    ids(g).lemma_cardinality_of_set();
    assert(ac.to_set().subset_of(ids(g).to_set()));
    vstd::set_lib::lemma_len_subset(ac.to_set(), ids(g).to_set());
}

fn find_node(g: &DepGraph, id: i64) -> (r: Option<usize>)
    ensures
        match r {
            Some(k) => k as int == node_of(g, id) && k < g.nodes@.len(),
            None => node_of(g, id) < 0,
        },
{
    proof {
        lemma_index_of(ids(g), id);
    }
    let mut k: usize = 0;
    while k < g.nodes.len()
        invariant
            k <= g.nodes@.len(),
            forall|j: int| 0 <= j < k ==> ids(g)[j] != id,
            -1 <= node_of(g, id) < ids(g).len(),
            node_of(g, id) >= 0 ==> ids(g)[node_of(g, id)] == id,
            node_of(g, id) >= 0 ==> forall|j: int| 0 <= j < node_of(g, id) ==> ids(g)[j] != id,
            node_of(g, id) < 0 <==> !ids(g).contains(id),
        decreases g.nodes@.len() - k,
    {
        if g.nodes[k].file.id == id {
            assert(ids(g)[k as int] == id);
            return Some(k);
        }
        assert(ids(g)[k as int] == g.nodes@[k as int].file.id);
        k = k + 1;
    }
    assert(!ids(g).contains(id)) by {
        if ids(g).contains(id) {
            let j = choose|j: int| 0 <= j < ids(g).len() && ids(g)[j] == id;
        }
    }
    None
}

fn add_note(g: &DepGraph, st: &mut DirtyState, text: Vec<char>)
    ensures
        final(st)@ == noted(g, old(st)@, text@),
        final(st).records@ == old(st).records@,
{
    if g.debug {
        let ghost before = st@;
        st.effects.push(DirtyEffect::Note(crate::text::from_chars(text.as_slice())));
        assert(st@.fx =~= before.fx.push(EffectView::Note(text@)));
        assert(st@.recs =~= before.recs);
        assert(st@.cache =~= before.cache);
    }
}

fn save_record(g: &DepGraph, st: &mut DirtyState, f: &File)
    requires
        state_wf(g, old(st)@),
    ensures
        final(st)@ == saved(g, old(st)@, f@),
        state_wf(g, final(st)@),
{
    let ghost before = st@;
    match find_node(g, f.id) {
        Some(k) => {
            proof {
                lemma_index_of(ids(g), f.id);
            }
            st.records.set(k, f.duplicate());
        },
        None => {},
    }
    st.effects.push(DirtyEffect::Save(f.duplicate()));
    assert(st@.recs =~= saved(g, before, f@).recs);
    assert(st@.fx =~= saved(g, before, f@).fx);
    assert(st@.cache =~= before.cache);
}

fn cache_contains(st: &DirtyState, id: i64) -> (r: bool)
    ensures
        r == st@.cache.contains(id),
{
    let mut i: usize = 0;
    while i < st.cache.len()
        invariant
            i <= st.cache@.len(),
            forall|j: int| 0 <= j < i ==> st.cache@[j] != id,
        decreases st.cache@.len() - i,
    {
        if st.cache[i] == id {
            assert(st.cache@.contains(id));
            return true;
        }
        i = i + 1;
    }
    false
}

fn mark_checked(g: &DepGraph, st: &mut DirtyState, f: &File)
    requires
        state_wf(g, old(st)@),
    ensures
        final(st)@ == marked_checked(g, old(st)@, f@),
        state_wf(g, final(st)@),
{
    match g.mode {
        CheckMode::Recorded => {
            let mut c = f.duplicate();
            c.set_checked(g.runid);
            save_record(g, st, &c);
        },
        CheckMode::Cached => {
            let ghost before = st@;
            st.cache.push(f.id);
            proof {
                old(st).cache@.lemma_push_to_set_commute(f.id);
            }
            assert(st.cache@ == old(st).cache@.push(f.id));
            assert(st@.recs =~= before.recs);
            assert(st@.fx =~= before.fx);
        },
    }
}

fn warn_if_override(g: &DepGraph, st: &mut DirtyState, f: &File)
    ensures
        final(st)@ == warned(g, old(st)@, f@),
        final(st).records@ == old(st).records@,
{
    if f.is_override && g.mode == CheckMode::Recorded {
        let ghost before = st@;
        st.effects.push(DirtyEffect::Warn(f.name.clone()));
        assert(st@.fx =~= before.fx.push(EffectView::Warn(f@.name)));
        assert(st@.recs =~= before.recs);
        assert(st@.cache =~= before.cache);
    }
}

fn dep_files_exec(g: &DepGraph, st: &DirtyState, f: &File) -> (r: Vec<(DepMode, File)>)
    requires
        state_wf(g, st@),
    ensures
        pairs_view(r@) == dep_files(g, st@, f@),
        forall|i: int| 0 <= i < r@.len() ==> in_graph(g, (#[trigger] r@[i]).1.id),
{
    let mut r: Vec<(DepMode, File)> = Vec::new();
    if f.is_override || !f.is_generated {
        assert(pairs_view(r@) =~= Seq::<(DepMode, FileView)>::empty());
        return r;
    }
    let k = match find_node(g, f.id) {
        Some(k) => k,
        None => {
            assert(pairs_view(r@) =~= Seq::<(DepMode, FileView)>::empty());
            return r;
        },
    };
    let ds = &g.nodes[k].deps;
    let mut i: usize = 0;
    assert(ds@.take(0) =~= Seq::<(DepMode, i64)>::empty());
    while i < ds.len()
        invariant
            i <= ds@.len(),
            state_wf(g, st@),
            pairs_view(r@) == dep_list(g, st@, ds@.take(i as int)),
            forall|j: int| 0 <= j < r@.len() ==> in_graph(g, (#[trigger] r@[j]).1.id),
        decreases ds@.len() - i,
    {
        let (m, id) = ds[i];
        assert(ds@.take(i + 1).drop_last() =~= ds@.take(i as int));
        assert(ds@.take(i + 1).last() == (m, id));
        match find_node(g, id) {
            Some(j) => {
                let mut c = st.records[j].duplicate();
                c.fix_always(g.runid);
                let ghost before = r@;
                proof {
                    lemma_index_of(ids(g), id);
                }
                assert(st@.recs[j as int].id == g.nodes@[j as int].file.id);
                assert(c.id == id);
                r.push((m, c));
                assert(pairs_view(r@) =~= pairs_view(before).push((m, c@)));
                assert(in_graph(g, id)) by {
                    assert(ids(g)[j as int] == id);
                }
            },
            None => {},
        }
        i = i + 1;
    }
    assert(ds@.take(i as int) =~= ds@);
    r
}

pub open spec fn result_view(r: Result<DirtyResult, CyclicDependencyError>) -> Result<
    DirtyView,
    (),
> {
    match r {
        Ok(d) => Ok(d@),
        Err(_) => Err(()),
    }
}

fn cat(a: &[char], lit: &str) -> (r: Vec<char>)
    ensures
        r@ == a@ + lit@,
{
    let mut v = copy_chars(a);
    let l = to_chars(lit);
    append_slice(&mut v, l.as_slice());
    v
}

fn cat2(a: &[char], b: &[char]) -> (r: Vec<char>)
    ensures
        r@ == a@ + b@,
{
    let mut v = copy_chars(a);
    append_slice(&mut v, b);
    v
}

fn bool_chars(b: bool) -> (r: Vec<char>)
    ensures
        r@ == bool_str(b),
{
    if b {
        to_chars("true")
    } else {
        to_chars("false")
    }
}

fn opt_int_chars(o: Option<i64>) -> (r: Vec<char>)
    ensures
        r@ == opt_int_str(o),
{
    match o {
        Some(n) => {
            let a = to_chars("Some(");
            let b = cat2(a.as_slice(), i64_chars(n).as_slice());
            cat(b.as_slice(), ")")
        },
        None => to_chars("None"),
    }
}

fn contains_i64(v: &Vec<i64>, x: i64) -> (r: bool)
    ensures
        r == v@.contains(x),
{
    let mut i: usize = 0;
    while i < v.len()
        invariant
            i <= v@.len(),
            forall|j: int| 0 <= j < i ==> v@[j] != x,
        decreases v@.len() - i,
    {
        if v[i] == x {
            assert(v@.contains(x));
            return true;
        }
        i = i + 1;
    }
    false
}

fn copy_i64s(v: &Vec<i64>) -> (r: Vec<i64>)
    ensures
        r@ == v@,
{
    let mut r: Vec<i64> = Vec::new();
    let mut i: usize = 0;
    while i < v.len()
        invariant
            i <= v@.len(),
            r@ == v@.take(i as int),
        decreases v@.len() - i,
    {
        r.push(v[i]);
        assert(r@ =~= v@.take(i + 1));
        i = i + 1;
    }
    assert(v@.take(i as int) =~= v@);
    r
}

fn isdirty_rec(
    g: &DepGraph,
    st: &mut DirtyState,
    f: &File,
    depth: &Vec<char>,
    maxc: i64,
    ac: &Vec<i64>,
) -> (r: Result<DirtyResult, CyclicDependencyError>)
    requires
        state_wf(g, old(st)@),
        in_graph(g, f.id),
        chain_ok(g, ac@),
    ensures
        state_wf(g, final(st)@),
        (result_view(r), final(st)@) == dirty(g, old(st)@, f@, depth@, maxc, ac@),
    decreases ids(g).len() - ac@.len(),
{
    if contains_i64(ac, f.id) {
        return Err(CyclicDependencyError);
    }
    let mut ac2 = copy_i64s(ac);
    ac2.push(f.id);
    let k = match find_node(g, f.id) {
        Some(k) => k,
        None => {
            proof {
                lemma_index_of(ids(g), f.id);
            }
            return Err(CyclicDependencyError);
        },
    };
    let t = cat(depth.as_slice(), "?");
    let t = cat2(t.as_slice(), to_chars(g.nodes[k].nicename.as_str()).as_slice());
    let t = cat(t.as_slice(), " ");
    let t = cat2(t.as_slice(), bool_chars(f.is_generated).as_slice());
    let t = cat(t.as_slice(), ",");
    let t = cat2(t.as_slice(), bool_chars(f.is_override).as_slice());
    add_note(g, st, t);
    if let Some(fr) = f.failed_runid {
        if fr > 0 {
            add_note(g, st, cat(depth.as_slice(), "-- DIRTY (failed last time)"));
            return Ok(DirtyResult::Dirty);
        }
    }
    let changed = match f.changed_runid {
        Some(c) => c,
        None => {
            add_note(g, st, cat(depth.as_slice(), "-- DIRTY (never built)"));
            return Ok(DirtyResult::Dirty);
        },
    };
    if changed > maxc {
        let t = cat(depth.as_slice(), "-- DIRTY (built ");
        let t = cat2(t.as_slice(), i64_chars(changed).as_slice());
        let t = cat(t.as_slice(), " > ");
        let t = cat2(t.as_slice(), i64_chars(maxc).as_slice());
        let t = cat(t.as_slice(), "; ");
        let t = cat2(t.as_slice(), opt_int_chars(g.runid).as_slice());
        let t = cat(t.as_slice(), ")");
        add_note(g, st, t);
        return Ok(DirtyResult::Dirty);
    }
    let checked = match g.mode {
        CheckMode::Recorded => f.is_checked(g.runid),
        CheckMode::Cached => cache_contains(st, f.id),
    };
    if checked {
        add_note(g, st, cat(depth.as_slice(), "-- CLEAN (checked)"));
        return Ok(DirtyResult::Clean);
    }
    if f.stamp.is_none() {
        add_note(g, st, cat(depth.as_slice(), "-- DIRTY (no stamp)"));
        return Ok(DirtyResult::Dirty);
    }
    let newstamp = to_chars(g.nodes[k].stamp.as_str());
    if !stamp_is(&f.stamp, newstamp.as_slice()) {
        if is_missing_stamp(newstamp.as_slice()) {
            add_note(g, st, cat(depth.as_slice(), "-- DIRTY (missing)"));
            if f.is_generated {
                let t = cat(depth.as_slice(), "   converted target -> source ");
                let t = cat2(t.as_slice(), i64_chars(f.id).as_slice());
                add_note(g, st, t);
                let mut c = f.duplicate();
                c.is_generated = false;
                c.failed_runid = None;
                save_record(g, st, &c);
            }
        } else {
            add_note(g, st, cat(depth.as_slice(), "-- DIRTY (mtime)"));
        }
        if f.csum.is_some() {
            let mut v: Vec<File> = Vec::new();
            v.push(f.duplicate());
            assert(file_views(v@) =~= seq![f@]);
            return Ok(DirtyResult::NeedsBuild(v));
        } else {
            return Ok(DirtyResult::Dirty);
        }
    }
    let mc: i64 = match f.checked_runid {
        Some(c) => if changed >= c {
            changed
        } else {
            c
        },
        None => if changed >= 0 {
            changed
        } else {
            0
        },
    };
    let ghost st0 = st@;
    let ds = dep_files_exec(g, st, f);
    let ghost dsv = pairs_view(ds@);
    let ghost target = dirty_deps(g, st0, f@, depth@, mc, ac2@, dsv, 0, Seq::empty());
    assert(dirty(g, old(st)@, f@, depth@, maxc, ac@) == target);
    let depth2 = cat(depth.as_slice(), "  ");
    let mut must: Vec<File> = Vec::new();
    let mut i: usize = 0;
    assert(file_views(must@) =~= Seq::<FileView>::empty());
    assert(ac2@.no_duplicates()) by {
        assert forall|a: int, b: int| 0 <= a < b < ac2@.len() implies ac2@[a] != ac2@[b] by {
            if b == ac2@.len() - 1 {
                assert(ac@.contains(ac2@[a]) || a == ac2@.len() - 1);
                assert(ac@[a] == ac2@[a]);
            } else {
                assert(ac@[a] == ac2@[a]);
                assert(ac@[b] == ac2@[b]);
            }
        }
    }
    assert(chain_ok(g, ac2@)) by {
        assert forall|x: i64| ac2@.contains(x) implies in_graph(g, x) by {
            let j = choose|j: int| 0 <= j < ac2@.len() && ac2@[j] == x;
            if j < ac@.len() {
                assert(ac@[j] == x);
                assert(ac@.contains(x));
            }
        }
    }
    proof {
        lemma_chain_len(g, ac2@);
    }
    while i < ds.len()
        invariant
            i <= ds@.len(),
            state_wf(g, st@),
            chain_ok(g, ac2@),
            ac2@ == ac@.push(f.id),
            ac2@.len() <= ids(g).len(),
            dsv == pairs_view(ds@),
            depth2@ == depth@ + "  "@,
            forall|j: int| 0 <= j < ds@.len() ==> in_graph(g, (#[trigger] ds@[j]).1.id),
            dirty_deps(g, st@, f@, depth@, mc, ac2@, dsv, i as int, file_views(must@)) == target,
            target == dirty(g, old(st)@, f@, depth@, maxc, ac@),
        decreases ds@.len() - i,
    {
        let m = ds[i].0;
        let f2 = &ds[i].1;
        assert(dsv[i as int] == (m, f2@));
        let ghost st_i = st@;
        let ghost must_i = file_views(must@);
        let dirty_now: DirtyResult;
        if m == DepMode::Created {
            let j = match find_node(g, f2.id) {
                Some(j) => j,
                None => {
                    proof {
                        lemma_index_of(ids(g), f2.id);
                        assert(in_graph(g, ds@[i as int].1.id));
                    }
                    return Err(CyclicDependencyError);
                },
            };
            if g.nodes[j].exists {
                add_note(g, st, cat(depth.as_slice(), "-- DIRTY (created)"));
                dirty_now = DirtyResult::Dirty;
            } else {
                dirty_now = DirtyResult::Clean;
            }
        } else {
            proof {
                lemma_chain_len(g, ac2@);
                assert(in_graph(g, ds@[i as int].1.id));
            }
            let sub = isdirty_rec(g, st, f2, &depth2, mc, &ac2);
            match sub {
                Err(e) => {
                    return Err(e);
                },
                Ok(s) => {
                    if s.is_clean() {
                        dirty_now = DirtyResult::Clean;
                    } else {
                        add_note(g, st, cat(depth.as_slice(), "-- DIRTY (sub)"));
                        dirty_now = s;
                    }
                },
            }
        }
        match dirty_now {
            DirtyResult::Dirty => {
                if f.csum.is_none() {
                    return Ok(DirtyResult::Dirty);
                } else {
                    let mut v: Vec<File> = Vec::new();
                    v.push(f.duplicate());
                    assert(file_views(v@) =~= seq![f@]);
                    return Ok(DirtyResult::NeedsBuild(v));
                }
            },
            DirtyResult::NeedsBuild(fs) => {
                let ghost before = file_views(must@);
                let ghost add = file_views(fs@);
                let mut fs = fs;
                must.append(&mut fs);
                assert(file_views(must@) =~= before + add);
            },
            DirtyResult::Clean => {},
        }
        i = i + 1;
    }
    if must.len() > 0 {
        return Ok(DirtyResult::NeedsBuild(must));
    }
    add_note(g, st, cat(depth.as_slice(), "-- CLEAN"));
    warn_if_override(g, st, f);
    mark_checked(g, st, f);
    Ok(DirtyResult::Clean)
}

/// Whether the file `f` (which must be in the graph) is dirty, checked below
/// the chain `already_checked` of files being checked (each in the graph,
/// none twice), against the run threshold `max_changed`. The state gains the
/// records to save, the marks of checked files and the messages (each debug
/// message prefixed with `depth`). `Err` is a dependency cycle.
pub fn isdirty(
    g: &DepGraph,
    st: &mut DirtyState,
    f: &File,
    depth: &str,
    max_changed: i64,
    already_checked: &Vec<i64>,
) -> (r: Result<DirtyResult, CyclicDependencyError>)
    requires
        state_wf(g, old(st)@),
        in_graph(g, f.id),
        chain_ok(g, already_checked@),
    ensures
        state_wf(g, final(st)@),
        (result_view(r), final(st)@) == dirty(
            g,
            old(st)@,
            f@,
            depth@,
            max_changed,
            already_checked@,
        ),
{
    let d = to_chars(depth);
    isdirty_rec(g, st, f, &d, max_changed, already_checked)
}

/// A file met again while its own dependencies are being checked is a
/// dependency cycle; nothing is recorded.
pub proof fn law_cycle_is_error(
    g: &DepGraph,
    st: StView,
    f: FileView,
    depth: Seq<char>,
    maxc: i64,
    ac: Seq<i64>,
)
    requires
        ac.contains(f.id),
    ensures
        dirty(g, st, f, depth, maxc, ac).0 is Err,
        dirty(g, st, f, depth, maxc, ac).1 == st,
{
}

/// A file that failed to build, or was never built, is dirty.
pub proof fn law_failed_or_unbuilt_is_dirty(
    g: &DepGraph,
    st: StView,
    f: FileView,
    depth: Seq<char>,
    maxc: i64,
    ac: Seq<i64>,
)
    requires
        !ac.contains(f.id),
        (f.failed_runid is Some && f.failed_runid->0 > 0) || f.changed_runid is None,
    ensures
        dirty(g, st, f, depth, maxc, ac).0 == Ok::<DirtyView, ()>(DirtyView::Dirty),
{
}

/// A file built after the run threshold is dirty.
pub proof fn law_built_later_is_dirty(
    g: &DepGraph,
    st: StView,
    f: FileView,
    depth: Seq<char>,
    maxc: i64,
    ac: Seq<i64>,
)
    requires
        !ac.contains(f.id),
        !(f.failed_runid is Some && f.failed_runid->0 > 0),
        f.changed_runid is Some,
        f.changed_runid->0 > maxc,
    ensures
        dirty(g, st, f, depth, maxc, ac).0 == Ok::<DirtyView, ()>(DirtyView::Dirty),
{
}

/// The dependency list keeps each recorded dependency whose source is in
/// the graph, with its mode and the source's id.
proof fn lemma_dep_list_has(g: &DepGraph, st: StView, ds: Seq<(DepMode, i64)>, j: int)
    requires
        state_wf(g, st),
        0 <= j < ds.len(),
        node_of(g, ds[j].1) >= 0,
    ensures
        exists|k: int|
            0 <= k < dep_list(g, st, ds).len() && (#[trigger] dep_list(g, st, ds)[k]).0 == ds[j].0
                && dep_list(g, st, ds)[k].1.id == ds[j].1,
    decreases ds.len(),
{
    let rest = dep_list(g, st, ds.drop_last());
    if j == ds.len() - 1 {
        let id = ds.last().1;
        let k2 = node_of(g, id);
        lemma_index_of(ids(g), id);
        assert(st.recs[k2].id == g.nodes@[k2].file.id);
        let l = dep_list(g, st, ds);
        assert(l == rest.push((ds.last().0, fixed_always(st.recs[k2], g.runid))));
        assert(l[rest.len() as int].1.id == id);
    } else {
        assert(ds.drop_last()[j] == ds[j]);
        lemma_dep_list_has(g, st, ds.drop_last(), j);
        let k = choose|k: int|
            0 <= k < rest.len() && (#[trigger] rest[k]).0 == ds[j].0 && rest[k].1.id == ds[j].1;
        let l = dep_list(g, st, ds);
        assert(l[k] == rest[k]);
    }
}

/// A `Created` dependency that now exists, from position `i` on, keeps the
/// dependency loop from finding the target clean.
proof fn lemma_created_not_clean(
    g: &DepGraph,
    st: StView,
    f: FileView,
    depth: Seq<char>,
    mc: i64,
    ac2: Seq<i64>,
    ds: Seq<(DepMode, FileView)>,
    i: int,
    must: Seq<FileView>,
)
    requires
        0 <= i,
        exists|j: int|
            i <= j < ds.len() && (#[trigger] ds[j]).0 == DepMode::Created && g.nodes@[node_of(
                g,
                ds[j].1.id,
            )].exists,
    ensures
        !(dirty_deps(g, st, f, depth, mc, ac2, ds, i, must).0 matches Ok(DirtyView::Clean)),
    decreases ds.len() - i,
{
    let j = choose|j: int|
        i <= j < ds.len() && (#[trigger] ds[j]).0 == DepMode::Created && g.nodes@[node_of(
            g,
            ds[j].1.id,
        )].exists;
    if j > i {
        let (m, f2) = ds[i];
        let (r, st3) = if m == DepMode::Created {
            if g.nodes@[node_of(g, f2.id)].exists {
                (Ok(DirtyView::Dirty), noted(g, st, depth + "-- DIRTY (created)"@))
            } else {
                (Ok(DirtyView::Clean), st)
            }
        } else if ac2.len() > ids(g).len() {
            (Err(()), st)
        } else {
            let (sub, st4) = dirty(g, st, f2, depth + "  "@, mc, ac2);
            match sub {
                Err(_) => (Err(()), st4),
                Ok(s) => if s is Clean {
                    (Ok(DirtyView::Clean), st4)
                } else {
                    (Ok(s), noted(g, st4, depth + "-- DIRTY (sub)"@))
                },
            }
        };
        match r {
            Ok(DirtyView::NeedsBuild(fs)) => {
                lemma_created_not_clean(g, st3, f, depth, mc, ac2, ds, i + 1, must + fs);
            },
            Ok(DirtyView::Clean) => {
                lemma_created_not_clean(g, st3, f, depth, mc, ac2, ds, i + 1, must);
            },
            _ => {},
        }
    } else {
        let (m, f2) = ds[i];
        assert(m == DepMode::Created);
        assert(g.nodes@[node_of(g, f2.id)].exists);
        assert(!(dirty_deps(g, st, f, depth, mc, ac2, ds, i, must).0 matches Ok(DirtyView::Clean)));
    }
}

/// A target made by redo, not overridden, unchanged on disk and not yet
/// checked, one of whose `c` dependencies (a `.do` file that did not exist
/// when it was built) now exists, is never found clean: it must be rebuilt.
pub proof fn law_created_dependency_forces_rebuild(
    g: &DepGraph,
    st: StView,
    f: FileView,
    depth: Seq<char>,
    maxc: i64,
    ac: Seq<i64>,
    j: int,
)
    requires
        state_wf(g, st),
        !ac.contains(f.id),
        !(f.failed_runid is Some && f.failed_runid->0 > 0),
        f.changed_runid is Some,
        f.changed_runid->0 <= maxc,
        !is_checked_in(g, st, f),
        f.is_generated,
        !f.is_override,
        node_of(g, f.id) >= 0,
        f.stamp == Some(g.nodes@[node_of(g, f.id)].stamp@),
        0 <= j < g.nodes@[node_of(g, f.id)].deps@.len(),
        g.nodes@[node_of(g, f.id)].deps@[j].0 == DepMode::Created,
        node_of(g, g.nodes@[node_of(g, f.id)].deps@[j].1) >= 0,
        g.nodes@[node_of(g, g.nodes@[node_of(g, f.id)].deps@[j].1)].exists,
    ensures
        !(dirty(g, st, f, depth, maxc, ac).0 matches Ok(DirtyView::Clean)),
{
    let k = node_of(g, f.id);
    lemma_index_of(ids(g), f.id);
    let ds0 = g.nodes@[k].deps@;
    let ac2 = ac.push(f.id);
    let st1 = noted(
        g,
        st,
        depth + "?"@ + g.nodes@[node_of(g, f.id)].nicename@ + " "@ + bool_str(f.is_generated)
            + ","@ + bool_str(f.is_override),
    );
    let mc = max_i64(
        f.changed_runid->0,
        match f.checked_runid {
            Some(c) => c,
            None => 0,
        },
    );
    assert(st1.recs == st.recs && st1.cache == st.cache);
    assert(state_wf(g, st1));
    lemma_dep_list_has(g, st1, ds0, j);
    let l = dep_files(g, st1, f);
    assert(l == dep_list(g, st1, ds0));
    let q = choose|q: int|
        0 <= q < l.len() && (#[trigger] l[q]).0 == ds0[j].0 && l[q].1.id == ds0[j].1;
    assert(l[q].0 == DepMode::Created && g.nodes@[node_of(g, l[q].1.id)].exists);
    lemma_created_not_clean(g, st1, f, depth, mc, ac2, l, 0, Seq::<FileView>::empty());
    assert(!is_checked_in(g, st1, f));
    assert(f.stamp == Some(g.nodes@[node_of(g, f.id)].stamp@));
}

} // verus!
