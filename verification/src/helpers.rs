//! Small shared helpers: the early-exit value and C-style integer reading.
use vstd::prelude::*;
use crate::text::{
    append_slice, from_chars, i64_chars, int_str, is_digit, lemma_int_str_plain,
    lemma_nat_str_value, lemma_parse_int_str, nat_str, parse_i64, parse_i64_chars, slice_prefix,
    to_chars, trim_start, trim_start_chars,
};

verus! {

/// An early return from a command with a given exit code.
#[derive(Debug)]
pub struct ImmediateReturn {
    pub rv: i32,
}

impl ImmediateReturn {
    pub fn new(rv: i32) -> (r: Self)
        ensures
            r.rv == rv,
    {
        ImmediateReturn { rv }
    }

    /// The text that describes this early return.
    pub fn message(&self) -> (r: String)
        ensures
            r@ == "immediate return with exit code "@ + int_str(self.rv as int),
    {
        let mut v = to_chars("immediate return with exit code ");
        let n = i64_chars(self.rv as i64);
        append_slice(&mut v, n.as_slice());
        from_chars(v.as_slice())
    }
}

/// How many decimal digits `s` starts with.
pub open spec fn digit_run(s: Seq<char>) -> nat
    decreases s.len(),
{
    if s.len() > 0 && is_digit(s[0]) {
        1 + digit_run(s.drop_first())
    } else {
        0
    }
}

/// How long the sign at the front of `s` is: 1 for a `+` or `-`, else 0.
pub open spec fn sign_len(s: Seq<char>) -> nat {
    if s.len() > 0 && (s[0] == '-' || s[0] == '+') {
        1
    } else {
        0
    }
}

/// The number that `s` starts with: an optional sign, then the longest run
/// of decimal digits.
pub open spec fn number_prefix(s: Seq<char>) -> Seq<char> {
    s.take((sign_len(s) + digit_run(s.skip(sign_len(s) as int))) as int)
}

/// C's `atoi`: after leading whitespace, an optional sign and the longest
/// run of decimal digits give the number, and whatever follows is ignored.
/// Text with no digits there, or a number outside `i64`, reads as 0.
pub open spec fn atoi_spec(v: Seq<char>) -> i64 {
    match parse_i64(number_prefix(trim_start(v))) {
        Some(n) => n,
        None => 0,
    }
}

/// A run of `k` digits that ends the text or is followed by a non-digit is
/// the digit run.
proof fn lemma_digit_run(s: Seq<char>, k: int)
    requires
        0 <= k <= s.len(),
        forall|i: int| 0 <= i < k ==> is_digit(#[trigger] s[i]),
        k == s.len() || !is_digit(s[k]),
    ensures
        digit_run(s) == k,
    decreases k,
{
    if k > 0 {
        let t = s.drop_first();
        assert forall|i: int| 0 <= i < k - 1 implies is_digit(#[trigger] t[i]) by {
            assert(t[i] == s[i + 1]);
        }
        if k < s.len() {
            assert(t[k - 1] == s[k]);
        }
        lemma_digit_run(t, k - 1);
    }
}

pub fn atoi_chars(v: &[char]) -> (r: i64)
    ensures
        r == atoi_spec(v@),
{
    let t = trim_start_chars(v);
    let sign: usize = if t.len() > 0 && (t[0] == '-' || t[0] == '+') {
        1
    } else {
        0
    };
    assert(sign == sign_len(t@));
    let mut e: usize = sign;
    while e < t.len() && '0' <= t[e] && t[e] <= '9'
        invariant
            sign <= e <= t@.len(),
            forall|i: int| sign <= i < e ==> is_digit(#[trigger] t@[i]),
        decreases t@.len() - e,
    {
        e = e + 1;
    }
    proof {
        let rest = t@.skip(sign as int);
        assert forall|i: int| 0 <= i < e - sign implies is_digit(#[trigger] rest[i]) by {
            assert(rest[i] == t@[i + sign]);
        }
        if e < t@.len() {
            assert(rest[e - sign] == t@[e as int]);
        }
        lemma_digit_run(rest, e - sign);
    }
    let num = slice_prefix(t.as_slice(), e);
    match parse_i64_chars(num.as_slice()) {
        Some(n) => n,
        None => 0,
    }
}

pub fn atoi(v: &str) -> (r: i64)
    ensures
        r == atoi_spec(v@),
{
    let c = to_chars(v);
    atoi_chars(c.as_slice())
}

/// A number written in decimal is read back by `atoi` as itself.
pub proof fn law_atoi_reads_back(n: i64)
    ensures
        atoi_spec(int_str(n as int)) == n,
{
    let s = int_str(n as int);
    lemma_int_str_plain(n as int);
    assert(trim_start(s) == s);
    let m = if n < 0 {
        (-(n as int)) as nat
    } else {
        n as nat
    };
    lemma_nat_str_value(m);
    let k = sign_len(s);
    let rest = s.skip(k as int);
    if n < 0 {
        assert(rest =~= nat_str(m));
    } else {
        assert(is_digit(s[0]));
        assert(rest =~= nat_str(m));
    }
    lemma_digit_run(rest, rest.len() as int);
    assert(number_prefix(s) =~= s);
    lemma_parse_int_str(n);
}

} // verus!
