//! Where redo looks for the `.do` file of a target: first `target.do` next
//! to it, then `default.EXT.do` files for each extension of its name, in
//! its own directory and then in each parent directory up to the root.
use vstd::prelude::*;
use crate::deps::DepMode;
use crate::state::{normalize, normalize_chars, opt_str, slash};
use crate::text::{
    append_slice, copy_chars, from_chars, join, join_chars, lemma_split_nonempty, seqs, split,
    split_chars, starts_with, starts_with_exec, to_chars,
};

verus! {

/// What `Path::parent` gives for the path `s` (as text), if anything.
pub uninterp spec fn path_parent(s: Seq<char>) -> Option<Seq<char>>;

/// What `Path::file_name` gives for the path `s` (as text), if anything.
pub uninterp spec fn path_file_name(s: Seq<char>) -> Option<Seq<char>>;

/// `std::path::Path::parent`, read back as a string. The result depends on
/// the path alone; its component rules are not restated here.
#[verifier::external_body]
pub(crate) fn parent_of(s: &str) -> (r: Option<String>)
    ensures
        opt_str(r) == path_parent(s@),
{
    std::path::Path::new(s).parent().map(|p| p.to_string_lossy().to_string())
}

/// `std::path::Path::file_name`, read back as a string. The result depends
/// on the path alone; its component rules are not restated here.
#[verifier::external_body]
pub(crate) fn file_name_of(s: &str) -> (r: Option<String>)
    ensures
        opt_str(r) == path_file_name(s@),
{
    std::path::Path::new(s).file_name().map(|n| n.to_string_lossy().to_string())
}

pub open spec fn or_empty(o: Option<Seq<char>>) -> Seq<char> {
    match o {
        Some(s) => s,
        None => Seq::empty(),
    }
}

pub open spec fn or_slash(o: Option<Seq<char>>) -> Seq<char> {
    match o {
        Some(s) => s,
        None => slash(),
    }
}

/// `s` without the trailing occurrences of `c` (`str::trim_end_matches`).
pub open spec fn trim_end_char(s: Seq<char>, c: char) -> Seq<char>
    decreases s.len(),
{
    if s.len() > 0 && s.last() == c {
        trim_end_char(s.drop_last(), c)
    } else {
        s
    }
}

pub fn trim_end_char_exec(v: &[char], c: char) -> (r: Vec<char>)
    ensures
        r@ == trim_end_char(v@, c),
{
    let mut e: usize = v.len();
    assert(v@.take(e as int) =~= v@);
    while e > 0 && v[e - 1] == c
        invariant
            e <= v@.len(),
            trim_end_char(v@, c) == trim_end_char(v@.take(e as int), c),
        decreases e,
    {
        assert(v@.take(e as int).drop_last() =~= v@.take(e - 1));
        e = e - 1;
    }
    crate::text::slice_prefix(v, e)
}

pub open spec fn dotseq() -> Seq<char> {
    seq!['.']
}

/// The `default*.do` candidates for a file name: for each way of cutting the
/// name at a dot into a base name and an extension (the extension keeps its
/// leading dot, the whole name gives the empty extension), the do-file name
/// `default` + extension + `.do`, the base name and the extension; shortest
/// base name first.
pub open spec fn default_do_files_spec(filename: Seq<char>) -> Seq<
    (Seq<char>, Seq<char>, Seq<char>),
> {
    let parts = split(filename, '.');
    Seq::new(
        parts.len(),
        |j: int|
            {
                let i = j + 1;
                let ext = if i == parts.len() {
                    Seq::<char>::empty()
                } else {
                    dotseq() + join(parts.skip(i), dotseq())
                };
                ("default"@ + ext + ".do"@, join(parts.take(i), dotseq()), ext)
            },
    )
}

pub open spec fn triples(v: Seq<(String, String, String)>) -> Seq<(Seq<char>, Seq<char>, Seq<char>)> {
    Seq::new(v.len(), |i: int| (v[i].0@, v[i].1@, v[i].2@))
}

pub open spec fn quints(v: Seq<(String, String, String, String, String)>) -> Seq<
    (Seq<char>, Seq<char>, Seq<char>, Seq<char>, Seq<char>),
> {
    Seq::new(v.len(), |i: int| (v[i].0@, v[i].1@, v[i].2@, v[i].3@, v[i].4@))
}

fn take_parts(v: &Vec<Vec<char>>, n: usize) -> (r: Vec<Vec<char>>)
    requires
        n <= v@.len(),
    ensures
        seqs(r@) == seqs(v@).take(n as int),
{
    range_parts(v, 0, n)
}

fn range_parts(v: &Vec<Vec<char>>, from: usize, to: usize) -> (r: Vec<Vec<char>>)
    requires
        from <= to <= v@.len(),
    ensures
        seqs(r@) == seqs(v@).subrange(from as int, to as int),
{
    let mut r: Vec<Vec<char>> = Vec::new();
    let mut i = from;
    while i < to
        invariant
            from <= i <= to <= v@.len(),
            seqs(r@) == seqs(v@).subrange(from as int, i as int),
        decreases to - i,
    {
        let ghost before = seqs(r@);
        r.push(copy_chars(v[i].as_slice()));
        assert(seqs(r@) =~= before.push(v@[i as int]@));
        assert(seqs(v@).subrange(from as int, i + 1) =~= seqs(v@).subrange(from as int, i as int).push(
            v@[i as int]@,
        ));
        i = i + 1;
    }
    r
}

fn default_do_files(filename: &[char]) -> (r: Vec<(String, String, String)>)
    ensures
        triples(r@) == default_do_files_spec(filename@),
{
    let parts = split_chars(filename, '.');
    let ghost ps = split(filename@, '.');
    let mut r: Vec<(String, String, String)> = Vec::new();
    let mut j: usize = 0;
    assert(['.']@ =~= dotseq());
    while j < parts.len()
        invariant
            j <= parts@.len(),
            seqs(parts@) == ps,
            ps == split(filename@, '.'),
            triples(r@) == default_do_files_spec(filename@).take(j as int),
        decreases parts@.len() - j,
    {
        let i = j + 1;
        assert(['.']@ =~= dotseq());
        let base_parts = take_parts(&parts, i);
        let basename = join_chars(&base_parts, &['.']);
        let ext: Vec<char> = if i == parts.len() {
            Vec::new()
        } else {
            let rest = range_parts(&parts, i, parts.len());
            assert(seqs(parts@).subrange(i as int, parts@.len() as int) =~= ps.skip(i as int));
            let joined = join_chars(&rest, &['.']);
            let mut e: Vec<char> = Vec::new();
            e.push('.');
            append_slice(&mut e, joined.as_slice());
            assert(e@ =~= dotseq() + joined@);
            e
        };
        let mut dofile = to_chars("default");
        append_slice(&mut dofile, ext.as_slice());
        let tail = to_chars(".do");
        append_slice(&mut dofile, tail.as_slice());
        let ghost before = triples(r@);
        let ghost want = default_do_files_spec(filename@)[j as int];
        assert(basename@ == want.1);
        assert(ext@ == want.2);
        assert(dofile@ =~= want.0);
        r.push((from_chars(dofile.as_slice()), from_chars(basename.as_slice()), from_chars(ext.as_slice())));
        assert(triples(r@) =~= before.push(default_do_files_spec(filename@)[j as int]));
        assert(default_do_files_spec(filename@).take(j + 1) =~= default_do_files_spec(filename@).take(
            j as int,
        ).push(default_do_files_spec(filename@)[j as int]));
        j = j + 1;
    }
    assert(default_do_files_spec(filename@).take(j as int) =~= default_do_files_spec(filename@));
    r
}

pub type Candidate = (String, String, String, String, String);

pub open spec fn level_basedir(bits: Seq<Seq<char>>, i: int) -> Seq<char> {
    let j = join(bits.take(i), slash());
    if j.len() == 0 {
        slash()
    } else {
        j
    }
}

pub open spec fn level_subdir(bits: Seq<Seq<char>>, i: int) -> Seq<char> {
    join(bits.skip(i), slash())
}

pub open spec fn full_basename(sub: Seq<char>, b: Seq<char>) -> Seq<char> {
    if sub.len() == 0 {
        b
    } else {
        sub + slash() + b
    }
}

/// The `default*.do` candidates in the directory made of the first `i`
/// components of `bits`, for a target `i` levels below it.
pub open spec fn level_rows(
    bits: Seq<Seq<char>>,
    defs: Seq<(Seq<char>, Seq<char>, Seq<char>)>,
    i: int,
) -> Seq<(Seq<char>, Seq<char>, Seq<char>, Seq<char>, Seq<char>)> {
    Seq::new(
        defs.len(),
        |k: int|
            (
                level_basedir(bits, i),
                defs[k].0,
                level_subdir(bits, i),
                full_basename(level_subdir(bits, i), defs[k].1),
                defs[k].2,
            ),
    )
}

/// The candidates of the levels `i`, `i - 1`, ..., 1 (innermost first).
pub open spec fn rows_from(
    bits: Seq<Seq<char>>,
    defs: Seq<(Seq<char>, Seq<char>, Seq<char>)>,
    i: int,
) -> Seq<(Seq<char>, Seq<char>, Seq<char>, Seq<char>, Seq<char>)>
    decreases i,
{
    if i < 1 {
        Seq::empty()
    } else {
        level_rows(bits, defs, i) + rows_from(bits, defs, i - 1)
    }
}

/// The candidate `.do` files, in the order they are tried, as
/// `(dodir, dofile, basedir, basename, ext)`: first `filename.do` in the
/// target's own directory (`dirname`, taken under `base` unless absolute),
/// then the `default*.do` files of `filename2` in the directory `dirname2`
/// of the normalized absolute target and in each of its ancestors.
pub open spec fn candidates(
    base: Seq<char>,
    dirname: Seq<char>,
    filename: Seq<char>,
    dirname2: Seq<char>,
    filename2: Seq<char>,
) -> Seq<(Seq<char>, Seq<char>, Seq<char>, Seq<char>, Seq<char>)> {
    let dodir = if starts_with(dirname, slash()) {
        dirname
    } else {
        trim_end_char(base + slash() + dirname, '/')
    };
    let bits = split(dirname2, '/');
    seq![(dodir, filename + ".do"@, Seq::<char>::empty(), filename, Seq::<char>::empty())]
        + rows_from(bits, default_do_files_spec(filename2), bits.len() as int)
}

fn join_slash(v: &Vec<Vec<char>>) -> (r: Vec<char>)
    ensures
        r@ == join(seqs(v@), slash()),
{
    let r = join_chars(v, &['/']);
    assert(['/']@ =~= slash());
    r
}

/// See `candidates`.
pub fn do_candidates(
    base: &str,
    dirname: &str,
    filename: &str,
    dirname2: &str,
    filename2: &str,
) -> (r: Vec<Candidate>)
    ensures
        quints(r@) == candidates(base@, dirname@, filename@, dirname2@, filename2@),
{
    let dn = to_chars(dirname);
    let dodir: Vec<char> = if starts_with_exec(dn.as_slice(), &['/']) {
        assert(['/']@ =~= slash());
        dn
    } else {
        assert(['/']@ =~= slash());
        let mut d = to_chars(base);
        d.push('/');
        append_slice(&mut d, dn.as_slice());
        assert(d@ =~= base@ + slash() + dirname@);
        trim_end_char_exec(d.as_slice(), '/')
    };
    let mut dofile = to_chars(filename);
    let tail = to_chars(".do");
    append_slice(&mut dofile, tail.as_slice());
    let mut r: Vec<Candidate> = Vec::new();
    r.push((from_chars(dodir.as_slice()), from_chars(dofile.as_slice()), String::new(), String::from_str(filename), String::new()));
    let ghost first = seq![(dodir@, filename@ + ".do"@, Seq::<char>::empty(), filename@, Seq::<char>::empty())];
    assert(quints(r@) =~= first);
    let d2 = to_chars(dirname2);
    let bits = split_chars(d2.as_slice(), '/');
    let ghost bs = seqs(bits@);
    let f2 = to_chars(filename2);
    let defs = default_do_files(f2.as_slice());
    let ghost ds = default_do_files_spec(filename2@);
    let ghost total = candidates(base@, dirname@, filename@, dirname2@, filename2@);
    let mut i: usize = bits.len();
    assert(total =~= quints(r@) + rows_from(bs, ds, i as int));
    while i >= 1
        invariant
            i <= bits@.len(),
            bs == seqs(bits@),
            ds == triples(defs@),
            quints(r@) + rows_from(bs, ds, i as int) == total,
        decreases i,
    {
        let base_parts = take_parts(&bits, i);
        let j = join_slash(&base_parts);
        let basedir: Vec<char> = if j.len() == 0 {
            let mut s: Vec<char> = Vec::new();
            s.push('/');
            assert(s@ =~= slash());
            s
        } else {
            j
        };
        let sub_parts = range_parts(&bits, i, bits.len());
        assert(bs.subrange(i as int, bs.len() as int) =~= bs.skip(i as int));
        let subdir = join_slash(&sub_parts);
        let ghost lvl = level_rows(bs, ds, i as int);
        let ghost start = quints(r@);
        let mut k: usize = 0;
        while k < defs.len()
            invariant
                k <= defs@.len(),
                ds == triples(defs@),
                basedir@ == level_basedir(bs, i as int),
                subdir@ == level_subdir(bs, i as int),
                lvl == level_rows(bs, ds, i as int),
                quints(r@) == start + lvl.take(k as int),
            decreases defs@.len() - k,
        {
            let fb: Vec<char> = if subdir.len() == 0 {
                to_chars(defs[k].1.as_str())
            } else {
                let mut x = copy_chars(subdir.as_slice());
                x.push('/');
                let b = to_chars(defs[k].1.as_str());
                append_slice(&mut x, b.as_slice());
                assert(x@ =~= subdir@ + slash() + defs@[k as int].1@);
                x
            };
            let ghost before = quints(r@);
            r.push((from_chars(basedir.as_slice()), defs[k].0.clone(), from_chars(subdir.as_slice()), from_chars(fb.as_slice()), defs[k].2.clone()));
            assert(quints(r@) =~= before.push(lvl[k as int]));
            assert(lvl.take(k + 1) =~= lvl.take(k as int).push(lvl[k as int]));
            k = k + 1;
        }
        assert(lvl.take(k as int) =~= lvl);
        assert(rows_from(bs, ds, i as int) == lvl + rows_from(bs, ds, i - 1));
        assert(start + lvl + rows_from(bs, ds, i - 1) =~= start + (lvl + rows_from(bs, ds, i - 1)));
        i = i - 1;
    }
    assert(rows_from(bs, ds, i as int) =~= Seq::<(Seq<char>, Seq<char>, Seq<char>, Seq<char>, Seq<char>)>::empty());
    assert(quints(r@) =~= total);
    r
}

/// The target `t` as a normalized absolute path, taken under `base` unless
/// already absolute.
pub open spec fn full_target(t: Seq<char>, base: Seq<char>) -> Seq<char> {
    if starts_with(t, slash()) {
        normalize(t)
    } else {
        normalize(base + slash() + t)
    }
}

/// The candidate `.do` files for the target `t` (see `candidates`), where
/// directory and file names are those that `Path::parent` and
/// `Path::file_name` give (an empty name, or `/` for the directory of the
/// absolute target, where they give none).
pub fn possible_do_files(t: &str, base: &str) -> (r: Vec<Candidate>)
    ensures
        quints(r@) == candidates(
            base@,
            or_empty(path_parent(t@)),
            or_empty(path_file_name(t@)),
            or_slash(path_parent(full_target(t@, base@))),
            or_empty(path_file_name(full_target(t@, base@))),
        ),
{
    let dirname = match parent_of(t) {
        Some(p) => p,
        None => String::new(),
    };
    let filename = match file_name_of(t) {
        Some(p) => p,
        None => String::new(),
    };
    let tv = to_chars(t);
    let full: Vec<char> = if starts_with_exec(tv.as_slice(), &['/']) {
        assert(['/']@ =~= slash());
        normalize_chars(tv.as_slice())
    } else {
        assert(['/']@ =~= slash());
        let mut x = to_chars(base);
        x.push('/');
        append_slice(&mut x, tv.as_slice());
        assert(x@ =~= base@ + slash() + t@);
        normalize_chars(x.as_slice())
    };
    let full_s = from_chars(full.as_slice());
    let dirname2 = match parent_of(full_s.as_str()) {
        Some(p) => p,
        None => {
            let mut s = String::new();
            crate::text::string_push(&mut s, '/');
            assert(s@ =~= slash());
            s
        },
    };
    let filename2 = match file_name_of(full_s.as_str()) {
        Some(p) => p,
        None => String::new(),
    };
    do_candidates(base, dirname.as_str(), filename.as_str(), dirname2.as_str(), filename2.as_str())
}

/// The path of a candidate `.do` file: its directory, a slash, its name.
pub open spec fn dopath(c: (Seq<char>, Seq<char>, Seq<char>, Seq<char>, Seq<char>)) -> Seq<char> {
    c.0 + slash() + c.1
}

/// The first candidate that exists (`exists[j]` tells whether candidate `j`
/// does), and the dependencies that looking for it records: `c` on each
/// candidate tried before it, `m` on it.
pub open spec fn do_file_deps(
    cands: Seq<(Seq<char>, Seq<char>, Seq<char>, Seq<char>, Seq<char>)>,
    exists: Seq<bool>,
    j: int,
) -> (Option<int>, Seq<(DepMode, Seq<char>)>)
    decreases cands.len() - j,
{
    if j < 0 || j >= cands.len() || j >= exists.len() {
        (None, Seq::empty())
    } else if exists[j] {
        (Some(j), seq![(DepMode::Modified, dopath(cands[j]))])
    } else {
        let rest = do_file_deps(cands, exists, j + 1);
        (rest.0, seq![(DepMode::Created, dopath(cands[j]))] + rest.1)
    }
}

pub open spec fn mode_paths(v: Seq<(DepMode, String)>) -> Seq<(DepMode, Seq<char>)> {
    Seq::new(v.len(), |i: int| (v[i].0, v[i].1@))
}

/// The index of the `.do` file to use among the candidates, if any exists,
/// and the dependencies to record on the way (see `do_file_deps`).
pub fn find_do_file(cands: &Vec<Candidate>, exists: &Vec<bool>) -> (r: (
    Option<usize>,
    Vec<(DepMode, String)>,
))
    requires
        exists@.len() == cands@.len(),
    ensures
        (match r.0 {
            Some(k) => Some(k as int),
            None => None,
        }) == do_file_deps(quints(cands@), exists@, 0).0,
        mode_paths(r.1@) == do_file_deps(quints(cands@), exists@, 0).1,
{
    let mut deps: Vec<(DepMode, String)> = Vec::new();
    let mut j: usize = 0;
    let ghost cs = quints(cands@);
    while j < cands.len()
        invariant
            j <= cands@.len(),
            exists@.len() == cands@.len(),
            cs == quints(cands@),
            forall|q: int| 0 <= q < j ==> !exists@[q],
            mode_paths(deps@) == Seq::new(j as nat, |q: int| (DepMode::Created, dopath(cs[q]))),
        decreases cands@.len() - j,
    {
        let mut p = to_chars(cands[j].0.as_str());
        p.push('/');
        let f = to_chars(cands[j].1.as_str());
        append_slice(&mut p, f.as_slice());
        assert(p@ =~= dopath(cs[j as int]));
        let ghost before = mode_paths(deps@);
        if exists[j] {
            deps.push((DepMode::Modified, from_chars(p.as_slice())));
            proof {
                lemma_do_file_deps_prefix(cs, exists@, j as int);
            }
            assert(mode_paths(deps@) =~= before.push((DepMode::Modified, dopath(cs[j as int]))));
            return (Some(j), deps);
        }
        deps.push((DepMode::Created, from_chars(p.as_slice())));
        assert(mode_paths(deps@) =~= before.push((DepMode::Created, dopath(cs[j as int]))));
        assert(mode_paths(deps@) =~= Seq::new((j + 1) as nat, |q: int| (DepMode::Created, dopath(cs[q]))));
        j = j + 1;
    }
    proof {
        lemma_do_file_deps_prefix(cs, exists@, j as int);
    }
    assert(mode_paths(deps@) =~= Seq::new(j as nat, |q: int| (DepMode::Created, dopath(cs[q]))) + Seq::<(DepMode, Seq<char>)>::empty());
    (None, deps)
}

/// Before the first existing candidate, every candidate is recorded as `c`.
proof fn lemma_do_file_deps_prefix(
    cs: Seq<(Seq<char>, Seq<char>, Seq<char>, Seq<char>, Seq<char>)>,
    exists: Seq<bool>,
    j: int,
)
    requires
        0 <= j <= cs.len(),
        exists.len() == cs.len(),
        forall|q: int| 0 <= q < j ==> !exists[q],
    ensures
        do_file_deps(cs, exists, 0).0 == do_file_deps(cs, exists, j).0,
        do_file_deps(cs, exists, 0).1 == Seq::new(j as nat, |q: int| (DepMode::Created, dopath(cs[q])))
            + do_file_deps(cs, exists, j).1,
    decreases j,
{
    if j > 0 {
        lemma_do_file_deps_prefix(cs, exists, j - 1);
        let a = Seq::new((j - 1) as nat, |q: int| (DepMode::Created, dopath(cs[q])));
        let b = Seq::new(j as nat, |q: int| (DepMode::Created, dopath(cs[q])));
        assert(do_file_deps(cs, exists, j - 1).1 == seq![(DepMode::Created, dopath(cs[j - 1]))]
            + do_file_deps(cs, exists, j).1);
        assert(a + (seq![(DepMode::Created, dopath(cs[j - 1]))] + do_file_deps(cs, exists, j).1)
            =~= b + do_file_deps(cs, exists, j).1);
    } else {
        assert(Seq::new(0nat, |q: int| (DepMode::Created, dopath(cs[q]))) + do_file_deps(cs, exists, 0).1 =~= do_file_deps(cs, exists, 0).1);
    }
}

/// How many times `c` occurs in `s`.
pub open spec fn count_char(s: Seq<char>, c: char) -> nat
    decreases s.len(),
{
    if s.len() == 0 {
        0
    } else {
        count_char(s.drop_last(), c) + if s.last() == c {
            1nat
        } else {
            0nat
        }
    }
}

proof fn lemma_split_len(s: Seq<char>, c: char)
    ensures
        split(s, c).len() == count_char(s, c) + 1,
    decreases s.len(),
{
    if s.len() > 0 {
        lemma_split_len(s.drop_last(), c);
        lemma_split_nonempty(s.drop_last(), c);
    }
}

/// Joining the pieces of a split gives the text back.
proof fn lemma_join_split(s: Seq<char>, c: char)
    ensures
        join(split(s, c), seq![c]) == s,
    decreases s.len(),
{
    if s.len() == 0 {
        assert(split(s, c) =~= seq![Seq::<char>::empty()]);
        assert(s =~= Seq::<char>::empty());
    } else {
        let dl = s.drop_last();
        lemma_join_split(dl, c);
        lemma_split_nonempty(dl, c);
        let rest = split(dl, c);
        let ch = s.last();
        if ch == c {
            let p = rest.push(Seq::<char>::empty());
            assert(p.drop_last() =~= rest);
            assert(join(p, seq![c]) == join(rest, seq![c]) + seq![c] + Seq::<char>::empty());
            assert(dl + seq![c] + Seq::<char>::empty() =~= s);
        } else {
            let n = rest.len();
            let p = rest.update(n - 1, rest.last().push(ch));
            assert(split(s, c) == p);
            if n == 1 {
                assert(join(p, seq![c]) == p[0]);
                assert(join(rest, seq![c]) == rest[0]);
                assert(rest[0].push(ch) =~= s);
            } else {
                assert(p.drop_last() =~= rest.drop_last());
                assert(p.last() == rest.last().push(ch));
                assert(join(rest, seq![c]) == join(rest.drop_last(), seq![c]) + seq![c] + rest.last());
                assert(join(p, seq![c]) == join(rest.drop_last(), seq![c]) + seq![c] + rest.last().push(ch));
                assert(join(rest.drop_last(), seq![c]) + seq![c] + rest.last().push(ch)
                    =~= (join(rest.drop_last(), seq![c]) + seq![c] + rest.last()).push(ch));
                assert(dl.push(ch) =~= s);
            }
        }
    }
}

/// Cutting the pieces after the first `i` and joining each side gives the
/// whole joined text around one separator.
proof fn lemma_join_cut(parts: Seq<Seq<char>>, i: int, sep: Seq<char>)
    requires
        1 <= i < parts.len(),
    ensures
        join(parts.take(i), sep) + sep + join(parts.skip(i), sep) == join(parts, sep),
    decreases parts.len(),
{
    let n = parts.len();
    let dl = parts.drop_last();
    if i == n - 1 {
        assert(parts.take(i) =~= dl);
        assert(parts.skip(i) =~= seq![parts.last()]);
        assert(join(parts.skip(i), sep) == parts.last());
    } else {
        lemma_join_cut(dl, i, sep);
        assert(dl.take(i) =~= parts.take(i));
        let sk = parts.skip(i);
        assert(sk.drop_last() =~= dl.skip(i));
        assert(sk.last() == parts.last());
        assert(join(sk, sep) == join(dl.skip(i), sep) + sep + parts.last());
        assert(join(parts.take(i), sep) + sep + (join(dl.skip(i), sep) + sep + parts.last()) =~= (
        join(dl.take(i), sep) + sep + join(dl.skip(i), sep)) + sep + parts.last());
    }
}

proof fn lemma_join_take_grows(parts: Seq<Seq<char>>, i: int, sep: Seq<char>)
    requires
        1 <= i < parts.len(),
    ensures
        join(parts.take(i + 1), sep).len() == join(parts.take(i), sep).len() + sep.len()
            + parts[i].len(),
{
    let t = parts.take(i + 1);
    assert(t.drop_last() =~= parts.take(i));
    assert(t.last() == parts[i]);
}

proof fn lemma_join_take_increasing(parts: Seq<Seq<char>>, a: int, b: int)
    requires
        1 <= a < b <= parts.len(),
    ensures
        join(parts.take(a), dotseq()).len() < join(parts.take(b), dotseq()).len(),
    decreases b - a,
{
    lemma_join_take_grows(parts, b - 1, dotseq());
    if a < b - 1 {
        lemma_join_take_increasing(parts, a, b - 1);
    }
}

/// The `default*.do` candidates of a name cut it, without loss, at each of
/// its dots in turn and finally at its end: one candidate per dot plus one;
/// each base name followed by its extension gives the name back; each
/// extension is empty or starts with the dot it was cut at; each do-file is
/// `default` + the extension + `.do`; and the base names grow strictly, so
/// no cut is offered twice, the last being the whole name.
pub proof fn law_default_do_files_cut_at_dots(f: Seq<char>)
    ensures
        ({
            let d = default_do_files_spec(f);
            &&& d.len() == count_char(f, '.') + 1
            &&& forall|j: int| 0 <= j < d.len() ==> (#[trigger] d[j]).1 + d[j].2 == f
            &&& forall|j: int| 0 <= j < d.len() ==> (#[trigger] d[j]).0 == "default"@ + d[j].2 + ".do"@
            &&& forall|j: int| 0 <= j < d.len() ==> (#[trigger] d[j]).2.len() == 0 || d[j].2[0] == '.'
            &&& forall|j: int, k: int|
                0 <= j < k < d.len() ==> (#[trigger] d[j]).1.len() < (#[trigger] d[k]).1.len()
            &&& d[d.len() - 1].1 == f
        }),
{
    let parts = split(f, '.');
    let d = default_do_files_spec(f);
    lemma_split_len(f, '.');
    lemma_join_split(f, '.');
    assert(dotseq() == seq!['.']);
    let n = parts.len() as int;
    assert forall|j: int| 0 <= j < d.len() implies (#[trigger] d[j]).1 + d[j].2 == f by {
        let i = j + 1;
        if i == n {
            assert(parts.take(i) =~= parts);
            assert(d[j].2 =~= Seq::<char>::empty());
            assert(d[j].1 + d[j].2 =~= d[j].1);
        } else {
            lemma_join_cut(parts, i, dotseq());
            assert(d[j].1 + d[j].2 =~= join(parts.take(i), dotseq()) + dotseq() + join(
                parts.skip(i),
                dotseq(),
            ));
        }
    }
    assert forall|j: int, k: int|
        0 <= j < k < d.len() implies (#[trigger] d[j]).1.len() < (#[trigger] d[k]).1.len() by {
        lemma_join_take_increasing(parts, j + 1, k + 1);
    }
    assert(parts.take(n) =~= parts);
}

} // verus!
