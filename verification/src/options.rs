//! Command-line options: an option spec names
//! each flag (short and long forms, whether it takes a parameter, a default
//! in brackets), and the command line is read against it.
use vstd::prelude::*;
use crate::text::{
    append_slice, copy_chars, ends_with, eq_chars, find, find_exec, from_chars, i64_chars,
    int_str, parse_i64, parse_i64_chars, seqs, slice_range, split, split_chars, starts_with,
    starts_with_exec, to_chars, trim, trim_chars, trim_start, trim_start_chars,
};

verus! {

/// The value of one option.
#[derive(Debug)]
pub enum OptValue {
    Bool(bool),
    Int(i64),
    Str(String),
    Unset,
}

pub enum OptVal {
    Bool(bool),
    Int(i64),
    Str(Seq<char>),
    Unset,
}

impl View for OptValue {
    type V = OptVal;

    open spec fn view(&self) -> OptVal {
        match self {
            OptValue::Bool(b) => OptVal::Bool(*b),
            OptValue::Int(i) => OptVal::Int(*i),
            OptValue::Str(s) => OptVal::Str(s@),
            OptValue::Unset => OptVal::Unset,
        }
    }
}

pub open spec fn as_bool_spec(v: OptVal) -> bool {
    match v {
        OptVal::Bool(b) => b,
        OptVal::Int(i) => i != 0,
        OptVal::Str(s) => s.len() > 0,
        OptVal::Unset => false,
    }
}

pub open spec fn as_i64_spec(v: OptVal) -> i64 {
    match v {
        OptVal::Bool(b) => if b {
            1
        } else {
            0
        },
        OptVal::Int(i) => i,
        OptVal::Str(s) => match parse_i64(s) {
            Some(n) => n,
            None => 0,
        },
        OptVal::Unset => 0,
    }
}

pub open spec fn as_str_spec(v: OptVal) -> Seq<char> {
    match v {
        OptVal::Bool(b) => if b {
            "true"@
        } else {
            "false"@
        },
        OptVal::Int(i) => int_str(i as int),
        OptVal::Str(s) => s,
        OptVal::Unset => Seq::empty(),
    }
}

impl OptValue {
    pub fn copy(&self) -> (r: OptValue)
        ensures
            r@ == self@,
    {
        match self {
            OptValue::Bool(b) => OptValue::Bool(*b),
            OptValue::Int(i) => OptValue::Int(*i),
            OptValue::Str(s) => OptValue::Str(s.clone()),
            OptValue::Unset => OptValue::Unset,
        }
    }

    pub fn as_bool(&self) -> (r: bool)
        ensures
            r == as_bool_spec(self@),
    {
        match self {
            OptValue::Bool(b) => *b,
            OptValue::Int(i) => *i != 0,
            OptValue::Str(s) => {
                let v = to_chars(s.as_str());
                v.len() > 0
            },
            OptValue::Unset => false,
        }
    }

    pub fn as_i64(&self) -> (r: i64)
        ensures
            r == as_i64_spec(self@),
    {
        match self {
            OptValue::Bool(b) => if *b {
                1
            } else {
                0
            },
            OptValue::Int(i) => *i,
            OptValue::Str(s) => {
                let v = to_chars(s.as_str());
                match parse_i64_chars(v.as_slice()) {
                    Some(n) => n,
                    None => 0,
                }
            },
            OptValue::Unset => 0,
        }
    }

    pub fn as_str(&self) -> (r: String)
        ensures
            r@ == as_str_spec(self@),
    {
        match self {
            OptValue::Bool(b) => if *b {
                String::from_str("true")
            } else {
                String::from_str("false")
            },
            OptValue::Int(i) => crate::text::i64_to_string(*i),
            OptValue::Str(s) => s.clone(),
            OptValue::Unset => String::new(),
        }
    }
}

// ---------------------------------------------------------------------------
// The values of all options
// ---------------------------------------------------------------------------

/// The options' values by name. A name that starts with `no_` or `no-`
/// stands for the negation of the option named by the rest.
pub struct OptDict {
    opts: Vec<(String, OptValue)>,
}

pub open spec fn keys_of(v: Seq<(String, OptValue)>) -> Seq<Seq<char>> {
    Seq::new(v.len(), |i: int| v[i].0@)
}

pub open spec fn dict_map(v: Seq<(String, OptValue)>) -> Map<Seq<char>, OptVal>
    decreases v.len(),
{
    if v.len() == 0 {
        Map::empty()
    } else {
        dict_map(v.drop_last()).insert(v.last().0@, v.last().1@)
    }
}

proof fn lemma_dict_map_dom(v: Seq<(String, OptValue)>, k: Seq<char>)
    ensures
        dict_map(v).contains_key(k) <==> keys_of(v).contains(k),
    decreases v.len(),
{
    if v.len() > 0 {
        lemma_dict_map_dom(v.drop_last(), k);
        assert(keys_of(v.drop_last()) =~= keys_of(v).drop_last());
        if keys_of(v).contains(k) && k != v.last().0@ {
            let j = choose|j: int| 0 <= j < keys_of(v).len() && keys_of(v)[j] == k;
            assert(keys_of(v.drop_last())[j] == k);
        }
        if keys_of(v.drop_last()).contains(k) {
            let j = choose|j: int| 0 <= j < keys_of(v.drop_last()).len() && keys_of(v.drop_last())[j] == k;
            assert(keys_of(v)[j] == k);
        }
        if k == v.last().0@ {
            assert(keys_of(v)[v.len() - 1] == k);
        }
    }
}

/// With distinct keys, the value stored under entry `j`'s key is entry `j`'s.
proof fn lemma_dict_map_at(v: Seq<(String, OptValue)>, j: int)
    requires
        keys_of(v).no_duplicates(),
        0 <= j < v.len(),
    ensures
        dict_map(v).contains_key(v[j].0@),
        dict_map(v)[v[j].0@] == v[j].1@,
    decreases v.len(),
{
    if j < v.len() - 1 {
        assert(keys_of(v.drop_last()).no_duplicates()) by {
            assert forall|a: int, b: int| 0 <= a < b < keys_of(v.drop_last()).len() implies keys_of(v.drop_last())[a] != keys_of(v.drop_last())[b] by {
                assert(keys_of(v.drop_last())[a] == keys_of(v)[a]);
                assert(keys_of(v.drop_last())[b] == keys_of(v)[b]);
            }
        }
        lemma_dict_map_at(v.drop_last(), j);
        assert(keys_of(v)[j] != keys_of(v)[v.len() - 1]);
        assert(v.drop_last()[j] == v[j]);
    }
}

/// Replacing entry `j` changes only the value under its key.
proof fn lemma_dict_map_update(v: Seq<(String, OptValue)>, j: int, e: (String, OptValue))
    requires
        keys_of(v).no_duplicates(),
        0 <= j < v.len(),
        e.0@ == v[j].0@,
    ensures
        dict_map(v.update(j, e)) == dict_map(v).insert(e.0@, e.1@),
    decreases v.len(),
{
    let w = v.update(j, e);
    if j == v.len() - 1 {
        assert(w.drop_last() =~= v.drop_last());
        lemma_dict_map_dom(v.drop_last(), e.0@);
        assert(dict_map(w) =~= dict_map(v).insert(e.0@, e.1@));
    } else {
        assert(keys_of(v.drop_last()).no_duplicates()) by {
            assert forall|a: int, b: int| 0 <= a < b < keys_of(v.drop_last()).len() implies keys_of(v.drop_last())[a] != keys_of(v.drop_last())[b] by {
                assert(keys_of(v.drop_last())[a] == keys_of(v)[a]);
                assert(keys_of(v.drop_last())[b] == keys_of(v)[b]);
            }
        }
        lemma_dict_map_update(v.drop_last(), j, e);
        assert(w.drop_last() =~= v.drop_last().update(j, e));
        assert(keys_of(v)[j] != keys_of(v)[v.len() - 1]);
        assert(dict_map(w) =~= dict_map(v).insert(e.0@, e.1@));
    }
}

/// The entry for a key with a `no_` or `no-` prefix: the rest of the key,
/// with the value negated (`Bool(b)` becomes `!b`, `Int(i)` becomes
/// `i == 0`, anything else `false`).
pub open spec fn negated_prefix(key: Seq<char>) -> bool {
    starts_with(key, "no_"@) || starts_with(key, "no-"@)
}

pub open spec fn negate(v: OptVal) -> OptVal {
    match v {
        OptVal::Bool(b) => OptVal::Bool(!b),
        OptVal::Int(i) => OptVal::Bool(i == 0),
        _ => OptVal::Bool(false),
    }
}

pub open spec fn set_spec(m: Map<Seq<char>, OptVal>, key: Seq<char>, val: OptVal) -> Map<
    Seq<char>,
    OptVal,
> {
    if negated_prefix(key) {
        m.insert(key.skip(3), negate(val))
    } else {
        m.insert(key, val)
    }
}

/// Reading a negated name gives `true` exactly where the option is
/// `Bool(false)` or `Int(0)`.
pub open spec fn get_spec(m: Map<Seq<char>, OptVal>, key: Seq<char>) -> OptVal {
    if negated_prefix(key) {
        let k = key.skip(3);
        if m.contains_key(k) {
            match m[k] {
                OptVal::Bool(b) => OptVal::Bool(!b),
                OptVal::Int(i) => OptVal::Bool(i == 0),
                _ => OptVal::Bool(false),
            }
        } else {
            OptVal::Bool(false)
        }
    } else if m.contains_key(key) {
        m[key]
    } else {
        OptVal::Unset
    }
}

impl OptDict {
    pub closed spec fn wf(&self) -> bool {
        keys_of(self.opts@).no_duplicates()
    }

    pub closed spec fn map(&self) -> Map<Seq<char>, OptVal> {
        dict_map(self.opts@)
    }

    pub fn new() -> (r: OptDict)
        ensures
            r.wf(),
            r.map() == Map::<Seq<char>, OptVal>::empty(),
    {
        let r = OptDict { opts: Vec::new() };
        assert(keys_of(r.opts@) =~= Seq::<Seq<char>>::empty());
        r
    }

    fn find(&self, key: &[char]) -> (r: Option<usize>)
        requires
            self.wf(),
        ensures
            match r {
                Some(j) => j < self.opts@.len() && self.opts@[j as int].0@ == key@,
                None => !keys_of(self.opts@).contains(key@),
            },
    {
        let mut j: usize = 0;
        while j < self.opts.len()
            invariant
                j <= self.opts@.len(),
                forall|q: int| 0 <= q < j ==> self.opts@[q].0@ != key@,
            decreases self.opts@.len() - j,
        {
            let k = to_chars(self.opts[j].0.as_str());
            if eq_chars(k.as_slice(), key) {
                return Some(j);
            }
            j = j + 1;
        }
        assert(!keys_of(self.opts@).contains(key@)) by {
            if keys_of(self.opts@).contains(key@) {
                let q = choose|q: int| 0 <= q < keys_of(self.opts@).len() && keys_of(self.opts@)[q] == key@;
                assert(self.opts@[q].0@ == key@);
            }
        }
        None
    }

    fn lookup(&self, key: &[char]) -> (r: Option<OptValue>)
        requires
            self.wf(),
        ensures
            match r {
                Some(v) => self.map().contains_key(key@) && self.map()[key@] == v@,
                None => !self.map().contains_key(key@),
            },
    {
        match self.find(key) {
            Some(j) => {
                proof {
                    lemma_dict_map_at(self.opts@, j as int);
                }
                Some(self.opts[j].1.copy())
            },
            None => {
                proof {
                    lemma_dict_map_dom(self.opts@, key@);
                }
                None
            },
        }
    }

    fn insert(&mut self, key: Vec<char>, val: OptValue)
        requires
            old(self).wf(),
        ensures
            final(self).wf(),
            final(self).map() == old(self).map().insert(key@, val@),
    {
        match self.find(key.as_slice()) {
            Some(j) => {
                let e = (from_chars(key.as_slice()), val);
                let ghost ev = e;
                proof {
                    lemma_dict_map_update(self.opts@, j as int, ev);
                }
                self.opts.set(j, e);
                assert(keys_of(self.opts@) =~= keys_of(old(self).opts@));
            },
            None => {
                let ghost before = self.opts@;
                self.opts.push((from_chars(key.as_slice()), val));
                assert(self.opts@.drop_last() =~= before);
                assert(keys_of(self.opts@) =~= keys_of(before).push(key@));
                assert(keys_of(self.opts@).no_duplicates()) by {
                    assert forall|a: int, b: int| 0 <= a < b < keys_of(self.opts@).len() implies keys_of(self.opts@)[a] != keys_of(self.opts@)[b] by {
                        if b == keys_of(self.opts@).len() - 1 {
                            assert(keys_of(before)[a] == keys_of(self.opts@)[a]);
                        } else {
                            assert(keys_of(before)[a] == keys_of(self.opts@)[a]);
                            assert(keys_of(before)[b] == keys_of(self.opts@)[b]);
                        }
                    }
                }
            },
        }
    }

    /// The value of the option `key` (see `get_spec`).
    pub fn get(&self, key: &str) -> (r: OptValue)
        requires
            self.wf(),
        ensures
            r@ == get_spec(self.map(), key@),
    {
        let kv = to_chars(key);
        let neg = starts_with_exec(kv.as_slice(), &['n', 'o', '_']) || starts_with_exec(kv.as_slice(), &['n', 'o', '-']);
        proof {
            assert(['n', 'o', '_']@ =~= "no_"@) by {
                reveal_strlit("no_");
            }
            assert(['n', 'o', '-']@ =~= "no-"@) by {
                reveal_strlit("no-");
            }
        }
        if neg {
            let k = crate::text::slice_range(kv.as_slice(), 3, kv.len());
            assert(k@ =~= key@.skip(3));
            match self.lookup(k.as_slice()) {
                Some(OptValue::Bool(b)) => OptValue::Bool(!b),
                Some(OptValue::Int(i)) => OptValue::Bool(i == 0),
                _ => OptValue::Bool(false),
            }
        } else {
            match self.lookup(kv.as_slice()) {
                Some(v) => v,
                None => OptValue::Unset,
            }
        }
    }

    /// Sets the option `key` (see `set_spec`).
    pub fn set(&mut self, key: &str, val: OptValue)
        requires
            old(self).wf(),
        ensures
            final(self).wf(),
            final(self).map() == set_spec(old(self).map(), key@, val@),
    {
        let kv = to_chars(key);
        let neg = starts_with_exec(kv.as_slice(), &['n', 'o', '_']) || starts_with_exec(kv.as_slice(), &['n', 'o', '-']);
        proof {
            assert(['n', 'o', '_']@ =~= "no_"@) by {
                reveal_strlit("no_");
            }
            assert(['n', 'o', '-']@ =~= "no-"@) by {
                reveal_strlit("no-");
            }
        }
        if neg {
            let k = crate::text::slice_range(kv.as_slice(), 3, kv.len());
            assert(k@ =~= key@.skip(3));
            let nv = match val {
                OptValue::Bool(b) => OptValue::Bool(!b),
                OptValue::Int(i) => OptValue::Bool(i == 0),
                _ => OptValue::Bool(false),
            };
            self.insert(k, nv);
        } else {
            self.insert(kv, val);
        }
    }

    pub fn bool_val(&self, key: &str) -> (r: bool)
        requires
            self.wf(),
        ensures
            r == as_bool_spec(get_spec(self.map(), key@)),
    {
        self.get(key).as_bool()
    }

    pub fn int_val(&self, key: &str) -> (r: i64)
        requires
            self.wf(),
        ensures
            r == as_i64_spec(get_spec(self.map(), key@)),
    {
        self.get(key).as_i64()
    }

    pub fn str_val(&self, key: &str) -> (r: String)
        requires
            self.wf(),
        ensures
            r@ == as_str_spec(get_spec(self.map(), key@)),
    {
        self.get(key).as_str()
    }
}

// ---------------------------------------------------------------------------
// The option spec
// ---------------------------------------------------------------------------

/// One option of the spec.
#[derive(Debug)]
pub struct OptDef {
    pub long_name: String,
    pub short_name: Option<char>,
    pub has_param: bool,
    pub default: OptValue,
    pub negatable: bool,
}

pub struct DefView {
    pub long_name: Seq<char>,
    pub short_name: Option<char>,
    pub has_param: bool,
    pub default: OptVal,
    pub negatable: bool,
}

impl View for OptDef {
    type V = DefView;

    open spec fn view(&self) -> DefView {
        DefView {
            long_name: self.long_name@,
            short_name: self.short_name,
            has_param: self.has_param,
            default: self.default@,
            negatable: self.negatable,
        }
    }
}

/// A parsed option spec.
pub struct Options {
    defs: Vec<OptDef>,
}

pub open spec fn def_views(v: Seq<OptDef>) -> Seq<DefView> {
    Seq::new(v.len(), |i: int| v[i]@)
}

/// The lines of `s` as `str::lines` gives them: the pieces between line
/// feeds, without a final empty piece, each terminated line losing one
/// trailing carriage return.
pub open spec fn lines_spec(s: Seq<char>) -> Seq<Seq<char>> {
    let p = split(s, '\n');
    let body = Seq::new(
        (p.len() - 1) as nat,
        |i: int|
            if p[i].len() > 0 && p[i].last() == '\r' {
                p[i].drop_last()
            } else {
                p[i]
            },
    );
    if p.len() > 0 && p.last().len() > 0 {
        body.push(p.last())
    } else {
        body
    }
}

/// `s` with every `a` replaced by `b`.
pub open spec fn replace_char(s: Seq<char>, a: char, b: char) -> Seq<char> {
    Seq::new(s.len(), |i: int| if s[i] == a { b } else { s[i] })
}

/// The last index of `c` in `s`, if any.
pub open spec fn rfind_char(s: Seq<char>, c: char) -> Option<int>
    decreases s.len(),
{
    if s.len() == 0 {
        None
    } else if s.last() == c {
        Some(s.len() - 1)
    } else {
        rfind_char(s.drop_last(), c)
    }
}

/// A value given on the command line or in brackets: an integer when it
/// reads as one, text otherwise.
pub open spec fn param_value(v: Seq<char>) -> OptVal {
    match parse_i64(v) {
        Some(n) => OptVal::Int(n),
        None => OptVal::Str(v),
    }
}

/// The default an option's description gives: the text between the last
/// `[` and the next `]` (read by `param_value`), else nothing for an option
/// that takes a parameter and `false` for a flag.
pub open spec fn default_of(extra: Seq<char>, has_param: bool) -> OptVal {
    let fallback = if has_param {
        OptVal::Unset
    } else {
        OptVal::Bool(false)
    };
    match rfind_char(extra, '[') {
        Some(start) => match find(extra.skip(start), seq![']']) {
            Some(end) => param_value(extra.subrange(start + 1, start + end)),
            None => fallback,
        },
        None => fallback,
    }
}

/// The short and long names given by the comma-separated flag names
/// `names[..i]`: each is trimmed and loses a `no-` prefix; a name of one
/// ASCII character is the short name, any other the long name (with `-`
/// written `_`); later names replace earlier ones.
pub open spec fn names_of(names: Seq<Seq<char>>, i: int) -> (Option<char>, Seq<char>)
    decreases i,
{
    if i <= 0 || i > names.len() {
        (None, Seq::empty())
    } else {
        let (short, long) = names_of(names, i - 1);
        let t = trim(names[i - 1]);
        let f = if starts_with(t, "no-"@) {
            t.skip(3)
        } else {
            t
        };
        if f.len() == 1 && f[0] <= '\x7f' {
            (Some(f[0]), long)
        } else {
            (short, replace_char(f, '-', '_'))
        }
    }
}

/// Some flag name is written with a `no-` prefix.
pub open spec fn any_negated(names: Seq<Seq<char>>) -> bool {
    exists|k: int| 0 <= k < names.len() && starts_with(#[trigger] names[k], "no-"@)
}

/// The option that one line of the spec (after the `--` line, without
/// leading whitespace, not empty) defines.
pub open spec fn def_of_line(line: Seq<char>) -> DefView {
    let sp = find(line, seq![' ']);
    let flags0 = match sp {
        Some(p) => line.take(p),
        None => line,
    };
    let extra = match sp {
        Some(p) => trim(line.skip(p + 1)),
        None => Seq::empty(),
    };
    let has_param = ends_with(flags0, seq!['=']);
    let flags = if has_param {
        flags0.drop_last()
    } else {
        flags0
    };
    let default = default_of(extra, has_param);
    let names = split(flags, ',');
    let (short, long0) = names_of(names, names.len() as int);
    let long = if long0.len() == 0 && short is Some {
        seq![short->0]
    } else {
        long0
    };
    let negated = any_negated(names);
    DefView {
        long_name: long,
        short_name: short,
        has_param,
        default: if negated {
            match default {
                OptVal::Bool(b) => OptVal::Bool(!b),
                _ => OptVal::Bool(true),
            }
        } else {
            default
        },
        negatable: !has_param,
    }
}

/// The options defined by `lines[..i]`: lines up to and including the first
/// `--` line are skipped, as are empty lines and lines that start with a
/// space (each line is read without its leading whitespace).
pub open spec fn defs_of(lines: Seq<Seq<char>>, i: int) -> (Seq<DefView>, bool)
    decreases i,
{
    if i <= 0 || i > lines.len() {
        (Seq::empty(), false)
    } else {
        let (defs, past) = defs_of(lines, i - 1);
        let line = trim_start(lines[i - 1]);
        if line == "--"@ {
            (defs, true)
        } else if !past || line.len() == 0 || line[0] == ' ' {
            (defs, past)
        } else {
            (defs.push(def_of_line(line)), past)
        }
    }
}

pub open spec fn spec_defs(optspec: Seq<char>) -> Seq<DefView> {
    let lines = lines_spec(optspec);
    defs_of(lines, lines.len() as int).0
}

fn lines_exec(s: &[char]) -> (r: Vec<Vec<char>>)
    ensures
        seqs(r@) == lines_spec(s@),
{
    let p = split_chars(s, '\n');
    proof {
        crate::text::lemma_split_nonempty(s@, '\n');
    }
    let ghost ps = split(s@, '\n');
    let mut r: Vec<Vec<char>> = Vec::new();
    let mut i: usize = 0;
    let n = p.len();
    while i + 1 < n
        invariant
            n == p@.len(),
            n >= 1,
            i + 1 <= n,
            seqs(p@) == ps,
            seqs(r@) == Seq::new(
                i as nat,
                |k: int|
                    if ps[k].len() > 0 && ps[k].last() == '\r' {
                        ps[k].drop_last()
                    } else {
                        ps[k]
                    },
            ),
        decreases n - i,
    {
        let piece = p[i].as_slice();
        assert(seqs(p@)[i as int] == piece@);
        let line: Vec<char> = if piece.len() > 0 && piece[piece.len() - 1] == '\r' {
            crate::text::slice_prefix(piece, piece.len() - 1)
        } else {
            copy_chars(piece)
        };
        proof {
            if piece@.len() > 0 && piece@.last() == '\r' {
                assert(line@ =~= piece@.drop_last());
            }
        }
        let ghost before = seqs(r@);
        r.push(line);
        assert(seqs(r@) =~= before.push(line@));
        assert(seqs(r@) =~= Seq::new(
            (i + 1) as nat,
            |k: int|
                if ps[k].len() > 0 && ps[k].last() == '\r' {
                    ps[k].drop_last()
                } else {
                    ps[k]
                },
        ));
        i = i + 1;
    }
    let last = p[n - 1].as_slice();
    assert(seqs(p@)[n - 1] == last@);
    if last.len() > 0 {
        let ghost before = seqs(r@);
        r.push(copy_chars(last));
        assert(seqs(r@) =~= before.push(last@));
    }
    r
}

fn replace_char_exec(s: &[char], a: char, b: char) -> (r: Vec<char>)
    ensures
        r@ == replace_char(s@, a, b),
{
    let mut r: Vec<char> = Vec::new();
    let mut i: usize = 0;
    while i < s.len()
        invariant
            i <= s@.len(),
            r@ == replace_char(s@, a, b).take(i as int),
        decreases s@.len() - i,
    {
        r.push(if s[i] == a {
            b
        } else {
            s[i]
        });
        assert(r@ =~= replace_char(s@, a, b).take(i + 1));
        i = i + 1;
    }
    assert(replace_char(s@, a, b).take(i as int) =~= replace_char(s@, a, b));
    r
}

pub fn rfind_char_exec(s: &[char], c: char) -> (r: Option<usize>)
    ensures
        match r {
            Some(k) => rfind_char(s@, c) == Some(k as int) && k < s@.len() && s@[k as int] == c,
            None => rfind_char(s@, c) is None,
        },
{
    let mut e: usize = s.len();
    assert(s@.take(e as int) =~= s@);
    while e > 0
        invariant
            e <= s@.len(),
            rfind_char(s@, c) == rfind_char(s@.take(e as int), c),
        decreases e,
    {
        if s[e - 1] == c {
            assert(s@.take(e as int).last() == c);
            return Some(e - 1);
        }
        assert(s@.take(e as int).drop_last() =~= s@.take(e - 1));
        e = e - 1;
    }
    None
}

fn param_value_exec(v: &[char]) -> (r: OptValue)
    ensures
        r@ == param_value(v@),
{
    match parse_i64_chars(v) {
        Some(n) => OptValue::Int(n),
        None => OptValue::Str(from_chars(v)),
    }
}

fn default_of_exec(extra: &[char], has_param: bool) -> (r: OptValue)
    ensures
        r@ == default_of(extra@, has_param),
{
    let fallback = if has_param {
        OptValue::Unset
    } else {
        OptValue::Bool(false)
    };
    match rfind_char_exec(extra, '[') {
        Some(start) => {
            let tail = slice_range(extra, start, extra.len());
            assert(tail@ =~= extra@.skip(start as int));
            match find_exec(tail.as_slice(), &[']']) {
                Some(end) => {
                    assert([']']@ =~= seq![']']);
                    proof {
                        crate::text::lemma_find_from_props(tail@, seq![']'], 0);
                        assert(tail@[0] == '[');
                        assert(tail@.subrange(0, 1)[0] == '[');
                        assert(!crate::text::occurs_at(tail@, seq![']'], 0));
                    }
                    let v = slice_range(extra, start + 1, start + end);
                    param_value_exec(v.as_slice())
                },
                None => {
                    assert([']']@ =~= seq![']']);
                    fallback
                },
            }
        },
        None => fallback,
    }
}

fn names_of_exec(names: &Vec<Vec<char>>) -> (r: (Option<char>, Vec<char>))
    ensures
        (r.0, r.1@) == names_of(seqs(names@), names@.len() as int),
{
    let mut short: Option<char> = None;
    let mut long: Vec<char> = Vec::new();
    let mut i: usize = 0;
    assert((short, long@) == names_of(seqs(names@), 0));
    while i < names.len()
        invariant
            i <= names@.len(),
            (short, long@) == names_of(seqs(names@), i as int),
        decreases names@.len() - i,
    {
        assert(seqs(names@)[i as int] == names@[i as int]@);
        let t = trim_chars(names[i].as_slice());
        let nd = starts_with_exec(t.as_slice(), &['n', 'o', '-']);
        assert(['n', 'o', '-']@ =~= "no-"@) by {
            reveal_strlit("no-");
        }
        let f: Vec<char> = if nd {
            let x = slice_range(t.as_slice(), 3, t.len());
            assert(x@ =~= t@.skip(3));
            x
        } else {
            t
        };
        if f.len() == 1 && f[0] <= '\x7f' {
            short = Some(f[0]);
        } else {
            long = replace_char_exec(f.as_slice(), '-', '_');
        }
        i = i + 1;
    }
    (short, long)
}

fn def_of_line_exec(line: &[char]) -> (r: OptDef)
    ensures
        r@ == def_of_line(line@),
{
    assert([' ']@ =~= seq![' ']);
    let n = line.len();
    let sp = find_exec(line, &[' ']);
    proof {
        crate::text::lemma_find_from_props(line@, seq![' '], 0);
    }
    let (flags0, extra): (Vec<char>, Vec<char>) = match sp {
        Some(p) => {
            let a = slice_range(line, 0, p);
            assert(a@ =~= line@.take(p as int));
            let b = slice_range(line, p + 1, n);
            assert(b@ =~= line@.skip(p + 1));
            (a, trim_chars(b.as_slice()))
        },
        None => (copy_chars(line), Vec::new()),
    };
    assert(['=']@ =~= seq!['=']);
    let has_param = crate::text::ends_with_exec(flags0.as_slice(), &['=']);
    let flags: Vec<char> = if has_param {
        crate::text::slice_prefix(flags0.as_slice(), flags0.len() - 1)
    } else {
        flags0
    };
    proof {
        if has_param {
            assert(flags@ =~= flags0@.drop_last());
        }
    }
    let default = default_of_exec(extra.as_slice(), has_param);
    let names = split_chars(flags.as_slice(), ',');
    let (short, long0) = names_of_exec(&names);
    let long: Vec<char> = if long0.len() == 0 && short.is_some() {
        let mut v: Vec<char> = Vec::new();
        v.push(short.unwrap());
        assert(v@ =~= seq![short->0]);
        v
    } else {
        long0
    };
    let mut negated = false;
    let mut k: usize = 0;
    assert(['n', 'o', '-']@ =~= "no-"@) by {
        reveal_strlit("no-");
    }
    while k < names.len()
        invariant
            k <= names@.len(),
            ['n', 'o', '-']@ == "no-"@,
            negated == exists|q: int| 0 <= q < k && starts_with(#[trigger] seqs(names@)[q], "no-"@),
        decreases names@.len() - k,
    {
        assert(seqs(names@)[k as int] == names@[k as int]@);
        if starts_with_exec(names[k].as_slice(), &['n', 'o', '-']) {
            negated = true;
        }
        k = k + 1;
    }
    let d = if negated {
        match default {
            OptValue::Bool(b) => OptValue::Bool(!b),
            _ => OptValue::Bool(true),
        }
    } else {
        default
    };
    proof {
        let sp_s = find(line@, seq![' ']);
        let flags0_s = match sp_s {
            Some(p) => line@.take(p),
            None => line@,
        };
        let extra_s = match sp_s {
            Some(p) => trim(line@.skip(p + 1)),
            None => Seq::empty(),
        };
        assert(flags0@ == flags0_s);
        assert(extra@ == extra_s);
        assert(has_param == ends_with(flags0_s, seq!['=']));
        let flags_s = if has_param { flags0_s.drop_last() } else { flags0_s };
        assert(flags@ == flags_s);
        assert(default@ == default_of(extra_s, has_param)) by {
            assert(default@ == default_of(extra@, has_param));
        }
        let names_s = split(flags_s, ',');
        assert(seqs(names@) == names_s);
        assert((short, long0@) == names_of(names_s, names_s.len() as int));
        let negated_s = any_negated(names_s);
        assert(negated == negated_s);
        let (sh, l0) = names_of(names_s, names_s.len() as int);
        let long_s = if l0.len() == 0 && sh is Some { seq![sh->0] } else { l0 };
        assert(long@ == long_s);
        let dflt = default_of(extra_s, has_param);
        let d_s = if negated_s {
            match dflt {
                OptVal::Bool(b) => OptVal::Bool(!b),
                _ => OptVal::Bool(true),
            }
        } else {
            dflt
        };
        assert(d@ == d_s);
        assert(def_of_line(line@) == DefView { long_name: long_s, short_name: sh, has_param, default: d_s, negatable: !has_param });
    }
    OptDef {
        long_name: from_chars(long.as_slice()),
        short_name: short,
        has_param,
        default: d,
        negatable: !has_param,
    }
}

fn is_separator_line(line: &[char]) -> (r: bool)
    ensures
        r == (line@ == "--"@),
{
    proof {
        reveal_strlit("--");
    }
    let r = line.len() == 2 && line[0] == '-' && line[1] == '-';
    assert(r ==> line@ =~= "--"@);
    r
}

impl Options {
    pub closed spec fn defs_view(&self) -> Seq<DefView> {
        def_views(self.defs@)
    }

    /// Reads an option spec (see `spec_defs`).
    pub fn new(optspec: &str) -> (r: Options)
        ensures
            r.defs_view() == spec_defs(optspec@),
    {
        let sv = to_chars(optspec);
        let lines = lines_exec(sv.as_slice());
        let ghost ls = seqs(lines@);
        let mut defs: Vec<OptDef> = Vec::new();
        let mut past = false;
        let mut i: usize = 0;
        assert(def_views(defs@) =~= Seq::<DefView>::empty());
        while i < lines.len()
            invariant
                i <= lines@.len(),
                ls == seqs(lines@),
                (def_views(defs@), past) == defs_of(ls, i as int),
            decreases lines@.len() - i,
        {
            assert(ls[i as int] == lines@[i as int]@);
            let line = trim_start_chars(lines[i].as_slice());
            if is_separator_line(line.as_slice()) {
                past = true;
            } else if !past || line.len() == 0 || line[0] == ' ' {
            } else {
                let d = def_of_line_exec(line.as_slice());
                let ghost before = def_views(defs@);
                defs.push(d);
                assert(def_views(defs@) =~= before.push(def_of_line(line@)));
            }
            i = i + 1;
        }
        Options { defs }
    }
}

// ---------------------------------------------------------------------------
// Reading a command line
// ---------------------------------------------------------------------------

/// Why reading a command line stops the command (with exit code 97).
#[derive(Debug)]
pub enum ParseExit {
    /// `--help`, `--usage`, `-h` or `-?`: print the usage.
    Usage,
    /// An unknown long option, by the name given.
    UnknownLong(String),
    /// An unknown short option.
    UnknownShort(char),
}

pub enum ExitView {
    Usage,
    UnknownLong(Seq<char>),
    UnknownShort(char),
}

impl View for ParseExit {
    type V = ExitView;

    open spec fn view(&self) -> ExitView {
        match self {
            ParseExit::Usage => ExitView::Usage,
            ParseExit::UnknownLong(s) => ExitView::UnknownLong(s@),
            ParseExit::UnknownShort(c) => ExitView::UnknownShort(*c),
        }
    }
}

/// The first option with the long name `name`.
pub open spec fn find_long(defs: Seq<DefView>, name: Seq<char>) -> Option<int>
    decreases defs.len(),
{
    if defs.len() == 0 {
        None
    } else {
        match find_long(defs.drop_last(), name) {
            Some(k) => Some(k),
            None => if defs.last().long_name == name {
                Some(defs.len() - 1)
            } else {
                None
            },
        }
    }
}

/// The first option with the short name `c`.
pub open spec fn find_short(defs: Seq<DefView>, c: char) -> Option<int>
    decreases defs.len(),
{
    if defs.len() == 0 {
        None
    } else {
        match find_short(defs.drop_last(), c) {
            Some(k) => Some(k),
            None => if defs.last().short_name == Some(c) {
                Some(defs.len() - 1)
            } else {
                None
            },
        }
    }
}

/// `n + 1`, wrapping at the top of `i64`.
pub open spec fn inc(n: i64) -> i64 {
    if n == i64::MAX {
        i64::MIN
    } else {
        (n + 1) as i64
    }
}

/// A flag given once more: its count goes up by one.
pub open spec fn counted(m: Map<Seq<char>, OptVal>, name: Seq<char>) -> Map<Seq<char>, OptVal> {
    set_spec(m, name, OptVal::Int(inc(as_i64_spec(get_spec(m, name)))))
}

/// The options' values before any argument is read: each option's default.
pub open spec fn defaults_map(defs: Seq<DefView>, i: int) -> Map<Seq<char>, OptVal>
    decreases i,
{
    if i <= 0 || i > defs.len() {
        Map::empty()
    } else {
        set_spec(defaults_map(defs, i - 1), defs[i - 1].long_name, defs[i - 1].default)
    }
}

/// Reading `args` from index `i` with the values `m` and the non-option
/// arguments `extra` gathered so far. `--` ends the options; `--name`,
/// `--name=value` and `--no-name` are long options; `-abc` is a group of
/// short options, where one that takes a parameter takes the rest of the
/// group, or else the next argument.
pub open spec fn parse_from(
    defs: Seq<DefView>,
    args: Seq<Seq<char>>,
    i: int,
    m: Map<Seq<char>, OptVal>,
    extra: Seq<Seq<char>>,
) -> Result<(Map<Seq<char>, OptVal>, Seq<Seq<char>>), ExitView>
    decreases args.len() + 2 - i, 1int, 0int,
{
    if i < 0 || i >= args.len() {
        Ok((m, extra))
    } else {
        let arg = args[i];
        if arg == "--"@ {
            Ok((m, extra + args.skip(i + 1)))
        } else if starts_with(arg, "--"@) {
            let flag = arg.skip(2);
            let eq = find(flag, seq!['=']);
            let name = match eq {
                Some(p) => flag.take(p),
                None => flag,
            };
            let neg = starts_with(name, "no-"@);
            let actual = if neg {
                name.skip(3)
            } else {
                name
            };
            let normalized = replace_char(actual, '-', '_');
            if normalized == "help"@ || normalized == "usage"@ {
                Err(ExitView::Usage)
            } else {
                match find_long(defs, normalized) {
                    None => Err(ExitView::UnknownLong(name)),
                    Some(d) => if defs[d].has_param {
                        match eq {
                            Some(p) => parse_from(
                                defs,
                                args,
                                i + 1,
                                set_spec(m, defs[d].long_name, param_value(flag.skip(p + 1))),
                                extra,
                            ),
                            None => if i + 1 < args.len() {
                                parse_from(
                                    defs,
                                    args,
                                    i + 2,
                                    set_spec(m, defs[d].long_name, param_value(args[i + 1])),
                                    extra,
                                )
                            } else {
                                parse_from(defs, args, i + 2, m, extra)
                            },
                        }
                    } else if neg {
                        parse_from(
                            defs,
                            args,
                            i + 1,
                            set_spec(m, defs[d].long_name, OptVal::Bool(false)),
                            extra,
                        )
                    } else {
                        parse_from(defs, args, i + 1, counted(m, defs[d].long_name), extra)
                    },
                }
            }
        } else if starts_with(arg, "-"@) && arg.len() > 1 {
            parse_shorts(defs, args, i, arg.skip(1), 0, m, extra)
        } else {
            parse_from(defs, args, i + 1, m, extra.push(arg))
        }
    }
}

/// Reading the short options `chars` of the group `args[i]` from index `j`.
pub open spec fn parse_shorts(
    defs: Seq<DefView>,
    args: Seq<Seq<char>>,
    i: int,
    chars: Seq<char>,
    j: int,
    m: Map<Seq<char>, OptVal>,
    extra: Seq<Seq<char>>,
) -> Result<(Map<Seq<char>, OptVal>, Seq<Seq<char>>), ExitView>
    decreases args.len() + 2 - i, 0int, chars.len() - j,
{
    if i < 0 || i >= args.len() {
        Ok((m, extra))
    } else if j < 0 || j >= chars.len() {
        parse_from(defs, args, i + 1, m, extra)
    } else {
        let c = chars[j];
        if c == 'h' || c == '?' {
            Err(ExitView::Usage)
        } else {
            match find_short(defs, c) {
                None => Err(ExitView::UnknownShort(c)),
                Some(d) => if defs[d].has_param {
                    if j + 1 < chars.len() {
                        parse_from(
                            defs,
                            args,
                            i + 1,
                            set_spec(m, defs[d].long_name, param_value(chars.skip(j + 1))),
                            extra,
                        )
                    } else if i + 1 < args.len() {
                        parse_from(
                            defs,
                            args,
                            i + 2,
                            set_spec(m, defs[d].long_name, param_value(args[i + 1])),
                            extra,
                        )
                    } else {
                        parse_from(defs, args, i + 2, m, extra)
                    }
                } else {
                    parse_shorts(defs, args, i, chars, j + 1, counted(m, defs[d].long_name), extra)
                },
            }
        }
    }
}

pub open spec fn parse_spec(defs: Seq<DefView>, args: Seq<Seq<char>>) -> Result<
    (Map<Seq<char>, OptVal>, Seq<Seq<char>>),
    ExitView,
> {
    parse_from(defs, args, 0, defaults_map(defs, defs.len() as int), Seq::empty())
}

pub open spec fn strings(v: Seq<String>) -> Seq<Seq<char>> {
    Seq::new(v.len(), |i: int| v[i]@)
}

pub open spec fn parse_view(r: Result<(OptDict, Vec<String>), ParseExit>) -> Result<
    (Map<Seq<char>, OptVal>, Seq<Seq<char>>),
    ExitView,
> {
    match r {
        Ok((d, e)) => Ok((d.map(), strings(e@))),
        Err(x) => Err(x@),
    }
}

fn lit_chars(s: &str) -> (r: Vec<char>)
    ensures
        r@ == s@,
{
    to_chars(s)
}

impl Options {
    fn find_long_exec(&self, name: &[char]) -> (r: Option<usize>)
        ensures
            match r {
                Some(k) => find_long(self.defs_view(), name@) == Some(k as int) && k < self.defs@.len(),
                None => find_long(self.defs_view(), name@) is None,
            },
    {
        let mut k: usize = 0;
        assert(self.defs_view().take(0) =~= Seq::<DefView>::empty());
        while k < self.defs.len()
            invariant
                k <= self.defs@.len(),
                find_long(self.defs_view().take(k as int), name@) is None,
            decreases self.defs@.len() - k,
        {
            let l = to_chars(self.defs[k].long_name.as_str());
            assert(self.defs_view().take(k + 1).drop_last() =~= self.defs_view().take(k as int));
            if eq_chars(l.as_slice(), name) {
                proof {
                    lemma_find_long_prefix(self.defs_view(), name@, k + 1);
                }
                return Some(k);
            }
            k = k + 1;
        }
        assert(self.defs_view().take(k as int) =~= self.defs_view());
        None
    }

    fn find_short_exec(&self, c: char) -> (r: Option<usize>)
        ensures
            match r {
                Some(k) => find_short(self.defs_view(), c) == Some(k as int) && k < self.defs@.len(),
                None => find_short(self.defs_view(), c) is None,
            },
    {
        let mut k: usize = 0;
        assert(self.defs_view().take(0) =~= Seq::<DefView>::empty());
        while k < self.defs.len()
            invariant
                k <= self.defs@.len(),
                find_short(self.defs_view().take(k as int), c) is None,
            decreases self.defs@.len() - k,
        {
            assert(self.defs_view().take(k + 1).drop_last() =~= self.defs_view().take(k as int));
            if self.defs[k].short_name == Some(c) {
                proof {
                    lemma_find_short_prefix(self.defs_view(), c, k + 1);
                }
                return Some(k);
            }
            k = k + 1;
        }
        assert(self.defs_view().take(k as int) =~= self.defs_view());
        None
    }

    /// Reads the long option `args[i]` (which starts with `--` and is not
    /// `--`); gives the index of the next argument to read.
    fn read_long(
        &self,
        args: &Vec<String>,
        i: usize,
        arg: &[char],
        opt: &mut OptDict,
        extra: &Vec<String>,
    ) -> (r: Result<usize, ParseExit>)
        requires
            old(opt).wf(),
            i < args@.len(),
            args@.len() < usize::MAX,
            arg@ == args@[i as int]@,
            arg@ != "--"@,
            starts_with(arg@, "--"@),
        ensures
            final(opt).wf(),
            match r {
                Ok(ni) => i < ni <= args@.len() + 1 && parse_from(
                    self.defs_view(),
                    strings(args@),
                    i as int,
                    old(opt).map(),
                    strings(extra@),
                ) == parse_from(
                    self.defs_view(),
                    strings(args@),
                    ni as int,
                    final(opt).map(),
                    strings(extra@),
                ),
                Err(e) => parse_from(
                    self.defs_view(),
                    strings(args@),
                    i as int,
                    old(opt).map(),
                    strings(extra@),
                ) == Err::<(Map<Seq<char>, OptVal>, Seq<Seq<char>>), ExitView>(e@),
            },
    {
        proof {
            reveal_strlit("--");
            reveal_strlit("no-");
        }
        assert(strings(args@)[i as int] == arg@);
        let alen = args.len();
        let n = arg.len();
        let flag = slice_range(arg, 2, n);
        assert(flag@ =~= arg@.skip(2));
        assert(['=']@ =~= seq!['=']);
        let eq = find_exec(flag.as_slice(), &['=']);
        proof {
            crate::text::lemma_find_from_props(flag@, seq!['='], 0);
        }
        let fl = flag.len();
        let name: Vec<char> = match eq {
            Some(p) => {
                let x = slice_range(flag.as_slice(), 0, p);
                assert(x@ =~= flag@.take(p as int));
                x
            },
            None => copy_chars(flag.as_slice()),
        };
        let nd = lit_chars("no-");
        let neg = starts_with_exec(name.as_slice(), nd.as_slice());
        let actual: Vec<char> = if neg {
            let x = slice_range(name.as_slice(), 3, name.len());
            assert(x@ =~= name@.skip(3));
            x
        } else {
            copy_chars(name.as_slice())
        };
        let normalized = replace_char_exec(actual.as_slice(), '-', '_');
        let help = lit_chars("help");
        let usage = lit_chars("usage");
        if eq_chars(normalized.as_slice(), help.as_slice()) || eq_chars(
            normalized.as_slice(),
            usage.as_slice(),
        ) {
            return Err(ParseExit::Usage);
        }
        match self.find_long_exec(normalized.as_slice()) {
            None => Err(ParseExit::UnknownLong(from_chars(name.as_slice()))),
            Some(d) => {
                assert(self.defs_view()[d as int] == self.defs@[d as int]@);
                if self.defs[d].has_param {
                    match eq {
                        Some(p) => {
                            let v = slice_range(flag.as_slice(), p + 1, fl);
                            assert(v@ =~= flag@.skip(p + 1));
                            let pv = param_value_exec(v.as_slice());
                            opt.set(self.defs[d].long_name.as_str(), pv);
                            Ok(i + 1)
                        },
                        None => {
                            if i + 1 < args.len() {
                                let a = to_chars(args[i + 1].as_str());
                                assert(strings(args@)[i + 1] == a@);
                                let pv = param_value_exec(a.as_slice());
                                opt.set(self.defs[d].long_name.as_str(), pv);
                            }
                            Ok(i + 2)
                        },
                    }
                } else if neg {
                    opt.set(self.defs[d].long_name.as_str(), OptValue::Bool(false));
                    Ok(i + 1)
                } else {
                    let cur = opt.get(self.defs[d].long_name.as_str()).as_i64();
                    let next = if cur == i64::MAX {
                        i64::MIN
                    } else {
                        cur + 1
                    };
                    opt.set(self.defs[d].long_name.as_str(), OptValue::Int(next));
                    Ok(i + 1)
                }
            },
        }
    }

    /// Reads the group of short options `chars` of `args[i]`; gives the
    /// index of the next argument to read.
    fn read_group(
        &self,
        args: &Vec<String>,
        i: usize,
        chars: &[char],
        opt: &mut OptDict,
        extra: &Vec<String>,
    ) -> (r: Result<usize, ParseExit>)
        requires
            old(opt).wf(),
            i < args@.len(),
            args@.len() < usize::MAX,
        ensures
            final(opt).wf(),
            match r {
                Ok(ni) => i < ni <= args@.len() + 1 && parse_shorts(
                    self.defs_view(),
                    strings(args@),
                    i as int,
                    chars@,
                    0,
                    old(opt).map(),
                    strings(extra@),
                ) == parse_from(
                    self.defs_view(),
                    strings(args@),
                    ni as int,
                    final(opt).map(),
                    strings(extra@),
                ),
                Err(e) => parse_shorts(
                    self.defs_view(),
                    strings(args@),
                    i as int,
                    chars@,
                    0,
                    old(opt).map(),
                    strings(extra@),
                ) == Err::<(Map<Seq<char>, OptVal>, Seq<Seq<char>>), ExitView>(e@),
            },
    {
        let ghost target = parse_shorts(
            self.defs_view(),
            strings(args@),
            i as int,
            chars@,
            0,
            old(opt).map(),
            strings(extra@),
        );
        let n = chars.len();
        let alen = args.len();
        let mut j: usize = 0;
        while j < n
            invariant
                n == chars@.len(),
                j <= n,
                i < args@.len(),
                alen == args@.len(),
                alen < usize::MAX,
                opt.wf(),
                target == parse_shorts(
                    self.defs_view(),
                    strings(args@),
                    i as int,
                    chars@,
                    0,
                    old(opt).map(),
                    strings(extra@),
                ),
                parse_shorts(
                    self.defs_view(),
                    strings(args@),
                    i as int,
                    chars@,
                    j as int,
                    opt.map(),
                    strings(extra@),
                ) == target,
            decreases n - j,
        {
            let c = chars[j];
            if c == 'h' || c == '?' {
                return Err(ParseExit::Usage);
            }
            match self.find_short_exec(c) {
                None => {
                    return Err(ParseExit::UnknownShort(c));
                },
                Some(d) => {
                    assert(self.defs_view()[d as int] == self.defs@[d as int]@);
                    if self.defs[d].has_param {
                        if j + 1 < n {
                            let v = slice_range(chars, j + 1, n);
                            assert(v@ =~= chars@.skip(j + 1));
                            let pv = param_value_exec(v.as_slice());
                            opt.set(self.defs[d].long_name.as_str(), pv);
                            return Ok(i + 1);
                        } else {
                            if i + 1 < args.len() {
                                let a = to_chars(args[i + 1].as_str());
                                assert(strings(args@)[i + 1] == a@);
                                let pv = param_value_exec(a.as_slice());
                                opt.set(self.defs[d].long_name.as_str(), pv);
                            }
                            return Ok(i + 2);
                        }
                    } else {
                        let cur = opt.get(self.defs[d].long_name.as_str()).as_i64();
                        let next = if cur == i64::MAX {
                            i64::MIN
                        } else {
                            cur + 1
                        };
                        opt.set(self.defs[d].long_name.as_str(), OptValue::Int(next));
                    }
                },
            }
            j = j + 1;
        }
        Ok(i + 1)
    }

    /// Reads a command line against the spec (see `parse_spec`): the
    /// options' values and the other arguments, or why the command stops.
    pub fn parse(&self, args: &Vec<String>) -> (r: Result<(OptDict, Vec<String>), ParseExit>)
        requires
            args@.len() < usize::MAX,
        ensures
            r matches Ok((d, _)) ==> d.wf(),
            parse_view(r) == parse_spec(self.defs_view(), strings(args@)),
    {
        let mut opt = OptDict::new();
        let mut k: usize = 0;
        while k < self.defs.len()
            invariant
                k <= self.defs@.len(),
                opt.wf(),
                opt.map() == defaults_map(self.defs_view(), k as int),
            decreases self.defs@.len() - k,
        {
            assert(self.defs_view()[k as int] == self.defs@[k as int]@);
            opt.set(self.defs[k].long_name.as_str(), self.defs[k].default.copy());
            k = k + 1;
        }
        let mut extra: Vec<String> = Vec::new();
        let ghost target = parse_spec(self.defs_view(), strings(args@));
        assert(strings(extra@) =~= Seq::<Seq<char>>::empty());
        let mut i: usize = 0;
        let dd = lit_chars("--");
        let d1 = lit_chars("-");
        while i < args.len()
            invariant
                i <= args@.len() + 1,
                args@.len() < usize::MAX,
                opt.wf(),
                target == parse_spec(self.defs_view(), strings(args@)),
                dd@ == "--"@,
                d1@ == "-"@,
                parse_from(self.defs_view(), strings(args@), i as int, opt.map(), strings(extra@))
                    == target,
            decreases args@.len() + 2 - i,
        {
            let arg = to_chars(args[i].as_str());
            assert(strings(args@)[i as int] == arg@);
            if eq_chars(arg.as_slice(), dd.as_slice()) {
                let mut q = i + 1;
                let ghost base = strings(extra@);
                while q < args.len()
                    invariant
                        i + 1 <= q <= args@.len(),
                        strings(extra@) == base + strings(args@).subrange(i + 1, q as int),
                    decreases args@.len() - q,
                {
                    let ghost before = strings(extra@);
                    extra.push(args[q].clone());
                    assert(strings(extra@) =~= before.push(args@[q as int]@));
                    assert(strings(args@).subrange(i + 1, q + 1) =~= strings(args@).subrange(
                        i + 1,
                        q as int,
                    ).push(args@[q as int]@));
                    q = q + 1;
                }
                assert(strings(args@).subrange(i + 1, q as int) =~= strings(args@).skip(i + 1));
                return Ok((opt, extra));
            } else if starts_with_exec(arg.as_slice(), dd.as_slice()) {
                match self.read_long(args, i, arg.as_slice(), &mut opt, &extra) {
                    Ok(ni) => {
                        i = ni;
                    },
                    Err(e) => {
                        return Err(e);
                    },
                }
            } else if starts_with_exec(arg.as_slice(), d1.as_slice()) && arg.len() > 1 {
                let group = slice_range(arg.as_slice(), 1, arg.len());
                assert(group@ =~= arg@.skip(1));
                match self.read_group(args, i, group.as_slice(), &mut opt, &extra) {
                    Ok(ni) => {
                        i = ni;
                    },
                    Err(e) => {
                        return Err(e);
                    },
                }
            } else {
                let ghost before = strings(extra@);
                extra.push(args[i].clone());
                assert(strings(extra@) =~= before.push(arg@));
                i = i + 1;
            }
        }
        Ok((opt, extra))
    }

    /// The usage text: a heading, then one line per option with its short
    /// form (if any), its long form (with `-` for `_`) and ` ...` when it
    /// takes a parameter.
    pub fn usage(&self) -> (r: Vec<String>)
        ensures
            strings(r@) == seq!["Options:"@] + Seq::new(
                self.defs_view().len(),
                |k: int| usage_line(self.defs_view()[k]),
            ),
    {
        let mut r: Vec<String> = Vec::new();
        r.push(String::from_str("Options:"));
        let mut k: usize = 0;
        while k < self.defs.len()
            invariant
                k <= self.defs@.len(),
                strings(r@) == seq!["Options:"@] + Seq::new(
                    k as nat,
                    |q: int| usage_line(self.defs_view()[q]),
                ),
            decreases self.defs@.len() - k,
        {
            let d = &self.defs[k];
            assert(self.defs_view()[k as int] == d@);
            let mut line = lit_chars("  ");
            match d.short_name {
                Some(c) => {
                    line.push('-');
                    line.push(c);
                    append_slice(&mut line, lit_chars(", ").as_slice());
                },
                None => {
                    append_slice(&mut line, lit_chars("    ").as_slice());
                },
            }
            append_slice(&mut line, lit_chars("--").as_slice());
            let ln = to_chars(d.long_name.as_str());
            append_slice(&mut line, replace_char_exec(ln.as_slice(), '_', '-').as_slice());
            if d.has_param {
                append_slice(&mut line, lit_chars(" ...").as_slice());
            }
            proof {
                assert(line@ =~= usage_line(d@));
            }
            let ghost before = strings(r@);
            r.push(from_chars(line.as_slice()));
            assert(strings(r@) =~= before.push(line@));
            assert(strings(r@) =~= seq!["Options:"@] + Seq::new(
                (k + 1) as nat,
                |q: int| usage_line(self.defs_view()[q]),
            ));
            k = k + 1;
        }
        r
    }
}

pub open spec fn usage_line(d: DefView) -> Seq<char> {
    "  "@ + (match d.short_name {
        Some(c) => seq!['-', c] + ", "@,
        None => "    "@,
    }) + "--"@ + replace_char(d.long_name, '_', '-') + (if d.has_param {
        " ..."@
    } else {
        Seq::empty()
    })
}

proof fn lemma_find_long_prefix(defs: Seq<DefView>, name: Seq<char>, k: int)
    requires
        1 <= k <= defs.len(),
        find_long(defs.take(k - 1), name) is None,
        defs[k - 1].long_name == name,
    ensures
        find_long(defs, name) == Some(k - 1),
    decreases defs.len() - k,
{
    assert(defs.take(k).drop_last() =~= defs.take(k - 1));
    lemma_find_long_prefix_more(defs, name, k, defs.len() as int);
    assert(defs.take(defs.len() as int) =~= defs);
}

proof fn lemma_find_long_prefix_more(defs: Seq<DefView>, name: Seq<char>, k: int, n: int)
    requires
        1 <= k <= n <= defs.len(),
        find_long(defs.take(k), name) == Some(k - 1),
    ensures
        find_long(defs.take(n), name) == Some(k - 1),
        n == defs.len() ==> find_long(defs, name) == Some(k - 1),
    decreases n - k,
{
    if n > k {
        lemma_find_long_prefix_more(defs, name, k, n - 1);
        assert(defs.take(n).drop_last() =~= defs.take(n - 1));
    }
    if n == defs.len() {
        assert(defs.take(n) =~= defs);
    }
}

proof fn lemma_find_short_prefix(defs: Seq<DefView>, c: char, k: int)
    requires
        1 <= k <= defs.len(),
        find_short(defs.take(k - 1), c) is None,
        defs[k - 1].short_name == Some(c),
    ensures
        find_short(defs, c) == Some(k - 1),
    decreases defs.len() - k,
{
    assert(defs.take(k).drop_last() =~= defs.take(k - 1));
    lemma_find_short_prefix_more(defs, c, k, defs.len() as int);
    assert(defs.take(defs.len() as int) =~= defs);
}

proof fn lemma_find_short_prefix_more(defs: Seq<DefView>, c: char, k: int, n: int)
    requires
        1 <= k <= n <= defs.len(),
        find_short(defs.take(k), c) == Some(k - 1),
    ensures
        find_short(defs.take(n), c) == Some(k - 1),
    decreases n - k,
{
    if n > k {
        lemma_find_short_prefix_more(defs, c, k, n - 1);
        assert(defs.take(n).drop_last() =~= defs.take(n - 1));
    }
}

/// Setting an option and reading it back gives the value set.
pub proof fn law_set_then_get(m: Map<Seq<char>, OptVal>, key: Seq<char>, val: OptVal)
    requires
        !negated_prefix(key),
    ensures
        get_spec(set_spec(m, key, val), key) == val,
{
}

/// Setting `no_x` to a flag and reading `x` gives the opposite flag; reading
/// `no_x` gives the flag set.
pub proof fn law_set_negated_then_get(m: Map<Seq<char>, OptVal>, key: Seq<char>, b: bool)
    requires
        !negated_prefix(key),
    ensures
        get_spec(set_spec(m, "no_"@ + key, OptVal::Bool(b)), key) == OptVal::Bool(!b),
        get_spec(set_spec(m, "no_"@ + key, OptVal::Bool(b)), "no_"@ + key) == OptVal::Bool(b),
{
    reveal_strlit("no_");
    let nk = "no_"@ + key;
    assert(starts_with(nk, "no_"@)) by {
        assert(nk.take(3) =~= "no_"@);
    }
    assert(nk.skip(3) =~= key);
}

/// Reading `no_x` of a flag `x` gives its opposite.
pub proof fn law_get_negated(m: Map<Seq<char>, OptVal>, key: Seq<char>, b: bool)
    requires
        !negated_prefix(key),
        m.contains_key(key),
        m[key] == OptVal::Bool(b),
    ensures
        get_spec(m, "no_"@ + key) == OptVal::Bool(!b),
{
    reveal_strlit("no_");
    let nk = "no_"@ + key;
    assert(starts_with(nk, "no_"@)) by {
        assert(nk.take(3) =~= "no_"@);
    }
    assert(nk.skip(3) =~= key);
}

/// A short option that takes a parameter and ends its group takes the next
/// argument as its value: `-c v` sets the option to `v` and leaves no extra
/// argument, and with more arguments after it, reading goes on after `v`
/// with the option set.
pub proof fn law_short_option_takes_next_argument(
    defs: Seq<DefView>,
    c: char,
    v: Seq<char>,
    rest: Seq<Seq<char>>,
)
    requires
        find_short(defs, c) is Some,
        defs[find_short(defs, c)->0].has_param,
        c != 'h' && c != '?' && c != '-',
    ensures
        parse_spec(defs, seq![seq!['-', c], v]) == Ok::<_, ExitView>(
            (
                set_spec(
                    defaults_map(defs, defs.len() as int),
                    defs[find_short(defs, c)->0].long_name,
                    param_value(v),
                ),
                Seq::<Seq<char>>::empty(),
            ),
        ),
        parse_spec(defs, seq![seq!['-', c], v] + rest) == parse_from(
            defs,
            seq![seq!['-', c], v] + rest,
            2,
            set_spec(
                defaults_map(defs, defs.len() as int),
                defs[find_short(defs, c)->0].long_name,
                param_value(v),
            ),
            Seq::<Seq<char>>::empty(),
        ),
{
    let d = find_short(defs, c)->0;
    let m0 = defaults_map(defs, defs.len() as int);
    let m1 = set_spec(m0, defs[d].long_name, param_value(v));
    let a = seq!['-', c];
    reveal_strlit("--");
    reveal_strlit("-");
    assert(a != "--"@);
    assert(!starts_with(a, "--"@)) by {
        assert(a.take(2) =~= a);
    }
    assert(starts_with(a, "-"@)) by {
        assert(a.take(1) =~= "-"@);
    }
    assert(a.skip(1) =~= seq![c]);
    let args1 = seq![a, v];
    assert(args1[0] == a);
    assert(parse_shorts(defs, args1, 0, seq![c], 0, m0, Seq::empty()) == parse_from(
        defs,
        args1,
        2,
        m1,
        Seq::empty(),
    ));
    let args2 = seq![a, v] + rest;
    assert(args2[0] == a);
    assert(args2[1] == v);
    assert(parse_shorts(defs, args2, 0, seq![c], 0, m0, Seq::empty()) == parse_from(
        defs,
        args2,
        2,
        m1,
        Seq::empty(),
    ));
}

} // verus!
