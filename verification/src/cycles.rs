//! Cycle detection across nested redo processes. Each process that starts a
//! build records the target's id in the `REDO_CYCLES` variable, a list of
//! ids separated by `:`; a target whose id is already listed would wait for
//! itself.
use vstd::prelude::*;
use crate::text::{
    all_digits, append_slice, contains_chars, copy_chars, free_of, from_chars, i64_chars, int_str,
    is_digit, join_chars, lemma_split_join, lemma_split_pieces_free, nat_str, seqs, split,
    split_chars, to_chars,
};

verus! {

#[derive(Debug)]
pub struct CyclicDependencyError;

impl CyclicDependencyError {
    /// The text that describes this error.
    pub fn message(&self) -> (r: String)
        ensures
            r@ == "cyclic dependency detected"@,
    {
        String::from_str("cyclic dependency detected")
    }
}

/// The ids listed in a `REDO_CYCLES` value: its non-empty pieces between
/// colons.
pub open spec fn cycle_entries(v: Seq<char>) -> Set<Seq<char>> {
    Set::new(|p: Seq<char>| split(v, ':').contains(p) && p.len() > 0)
}

/// Fails when the target with id `fid` is already being built further up
/// the chain of processes recorded in `cycles`.
pub fn check(cycles: &str, fid: i64) -> (r: Result<(), CyclicDependencyError>)
    ensures
        r is Err <==> cycle_entries(cycles@).contains(int_str(fid as int)),
{
    let v = to_chars(cycles);
    let parts = split_chars(v.as_slice(), ':');
    let me = i64_chars(fid);
    proof {
        lemma_nat_str_nonempty(fid);
    }
    if contains_chars(&parts, me.as_slice()) {
        Err(CyclicDependencyError)
    } else {
        Ok(())
    }
}

pub proof fn lemma_nat_str_nonempty(n: i64)
    ensures
        int_str(n as int).len() > 0,
        free_of(int_str(n as int), ':'),
{
    lemma_nat_str_digits(if n < 0 { (-(n as int)) as nat } else { n as nat });
    let s = int_str(n as int);
    if n < 0 {
        let d = nat_str((-(n as int)) as nat);
        assert forall|i: int| 0 <= i < s.len() implies s[i] != ':' by {
            if i > 0 {
                assert(s[i] == d[i - 1]);
                assert(is_digit(d[i - 1]));
            }
        }
    } else {
        assert forall|i: int| 0 <= i < s.len() implies s[i] != ':' by {
            assert(is_digit(s[i]));
        }
    }
}

pub proof fn lemma_nat_str_digits(n: nat)
    ensures
        nat_str(n).len() > 0,
        all_digits(nat_str(n)),
    decreases n,
{
    if n >= 10 {
        lemma_nat_str_digits(n / 10);
        let s = nat_str(n);
        assert forall|i: int| 0 <= i < s.len() implies is_digit(#[trigger] s[i]) by {
            if i < s.len() - 1 {
                assert(s[i] == nat_str(n / 10)[i]);
            }
        }
    }
}

/// The `REDO_CYCLES` value after the target with id `fid` is recorded: the
/// ids listed before, each once, and `fid`.
pub fn add(cycles: &str, fid: i64) -> (r: String)
    ensures
        cycle_entries(r@) == cycle_entries(cycles@).insert(int_str(fid as int)),
        split(r@, ':').no_duplicates(),
        forall|i: int| 0 <= i < split(r@, ':').len() ==> #[trigger] split(r@, ':')[i].len() > 0,
{
    let v = to_chars(cycles);
    let parts = split_chars(v.as_slice(), ':');
    let ghost ps = split(v@, ':');
    proof {
        lemma_split_pieces_free(v@, ':');
    }
    let mut entries: Vec<Vec<char>> = Vec::new();
    let mut i: usize = 0;
    while i < parts.len()
        invariant
            i <= parts@.len(),
            seqs(parts@) == ps,
            ps == split(cycles@, ':'),
            forall|k: int| 0 <= k < ps.len() ==> free_of(#[trigger] ps[k], ':'),
            seqs(entries@).no_duplicates(),
            forall|k: int| 0 <= k < entries@.len() ==> #[trigger] entries@[k]@.len() > 0,
            forall|k: int| 0 <= k < entries@.len() ==> free_of(#[trigger] entries@[k]@, ':'),
            forall|p: Seq<char>|
                seqs(entries@).contains(p) <==> (ps.take(i as int).contains(p) && p.len() > 0),
        decreases parts@.len() - i,
    {
        let ghost before = seqs(entries@);
        let ghost cur = ps[i as int];
        assert(seqs(parts@)[i as int] == parts@[i as int]@);
        let ghost pushed: bool;
        if parts[i].len() > 0 && !contains_chars(&entries, parts[i].as_slice()) {
            let e = copy_chars(parts[i].as_slice());
            entries.push(e);
            assert(seqs(entries@) =~= before.push(cur));
            proof {
                pushed = true;
            }
        } else {
            assert(seqs(entries@) =~= before);
            proof {
                pushed = false;
            }
        }
        assert(pushed ==> seqs(entries@) == before.push(cur) && cur.len() > 0);
        assert(!pushed ==> seqs(entries@) == before && (cur.len() == 0 || before.contains(cur)));
        let ghost pt = ps.take(i + 1);
        assert(pt =~= ps.take(i as int).push(cur));
        assert forall|p: Seq<char>|
            seqs(entries@).contains(p) <==> (pt.contains(p) && p.len() > 0) by {
            let es = seqs(entries@);
            if es.contains(p) {
                let k = choose|k: int| 0 <= k < es.len() && es[k] == p;
                if k < before.len() {
                    assert(before[k] == p);
                    assert(before.contains(p));
                    let k2 = choose|k2: int|
                        0 <= k2 < ps.take(i as int).len() && ps.take(i as int)[k2] == p;
                    assert(pt[k2] == p);
                } else {
                    assert(pt[i as int] == p);
                }
            }
            if pt.contains(p) && p.len() > 0 {
                let k = choose|k: int| 0 <= k < pt.len() && pt[k] == p;
                if k < i {
                    assert(ps.take(i as int)[k] == p);
                    assert(ps.take(i as int).contains(p));
                    assert(before.contains(p));
                    let k2 = choose|k2: int| 0 <= k2 < before.len() && before[k2] == p;
                    assert(es[k2] == p);
                } else {
                    assert(p == cur);
                    if pushed {
                        assert(es[before.len() as int] == p);
                    } else {
                        assert(before.contains(p));
                    }
                }
            }
        }
        i = i + 1;
    }
    assert(ps.take(i as int) =~= ps);
    let me = i64_chars(fid);
    proof {
        lemma_nat_str_nonempty(fid);
    }
    let ghost before = seqs(entries@);
    if !contains_chars(&entries, me.as_slice()) {
        entries.push(me);
        assert(seqs(entries@) =~= before.push(int_str(fid as int)));
    }
    let ghost es = seqs(entries@);
    assert(es.contains(int_str(fid as int))) by {
        if !before.contains(int_str(fid as int)) {
            assert(es[es.len() - 1] == int_str(fid as int));
        }
    }
    assert forall|k: int| 0 <= k < es.len() implies free_of(#[trigger] es[k], ':') by {
        assert(es[k] == entries@[k]@);
    }
    let joined = join_chars(&entries, &[':']);
    proof {
        assert(es.len() >= 1);
        lemma_split_join(es, ':');
        assert(seq![':'] =~= [':']@);
    }
    let r = from_chars(joined.as_slice());
    assert forall|p: Seq<char>|
        cycle_entries(r@).contains(p) <==> cycle_entries(cycles@).insert(int_str(fid as int)).contains(
            p,
        ) by {
        if p == int_str(fid as int) {
            assert(es.contains(p));
        } else {
            if es.contains(p) {
                let k = choose|k: int| 0 <= k < es.len() && es[k] == p;
                if k < before.len() {
                    assert(before[k] == p);
                    assert(before.contains(p));
                } else {
                }
            }
            if before.contains(p) {
                let k = choose|k: int| 0 <= k < before.len() && before[k] == p;
                assert(es[k] == p);
            }
        }
    }
    assert(cycle_entries(r@) =~= cycle_entries(cycles@).insert(int_str(fid as int)));
    assert forall|k: int| 0 <= k < split(r@, ':').len() implies #[trigger] split(r@, ':')[k].len()
        > 0 by {
        assert(es[k] == entries@[k]@);
    }
    r
}

/// Once a target is recorded by `add`, `check` finds it: a target being
/// built is a cycle for every process below it.
pub proof fn law_added_is_cycle(before: Seq<char>, after: Seq<char>, fid: i64)
    requires
        cycle_entries(after) == cycle_entries(before).insert(int_str(fid as int)),
    ensures
        cycle_entries(after).contains(int_str(fid as int)),
{
}

/// Recording one target leaves what `check` says of every other target.
pub proof fn law_add_keeps_others(before: Seq<char>, after: Seq<char>, fid: i64, other: i64)
    requires
        cycle_entries(after) == cycle_entries(before).insert(int_str(fid as int)),
        other != fid,
    ensures
        cycle_entries(after).contains(int_str(other as int)) == cycle_entries(before).contains(
            int_str(other as int),
        ),
{
    crate::text::lemma_parse_int_str(fid);
    crate::text::lemma_parse_int_str(other);
}

} // verus!
