use redo::cycles::{add, check};
use redo::helpers::{atoi, ImmediateReturn};
use redo::text::{
    find_exec, i64_to_string, join_chars, parse_i64_chars, quoted_opt, split_chars, to_chars,
    trim_chars, utf8_len_exec, words_chars,
};

fn s(v: &[char]) -> String {
    v.iter().collect()
}

#[test]
fn split_keeps_empty_pieces() {
    let v = to_chars("a::b:");
    let parts = split_chars(&v, ':');
    let got: Vec<String> = parts.iter().map(|p| s(p)).collect();
    assert_eq!(got, vec!["a", "", "b", ""]);
}

#[test]
fn split_then_join_gives_back_the_text() {
    let v = to_chars("x/y//z");
    let parts = split_chars(&v, '/');
    let back = join_chars(&parts, &['/']);
    assert_eq!(s(&back), "x/y//z");
}

#[test]
fn words_split_on_whitespace_runs() {
    let v = to_chars("  /usr/bin/env   python3 -u \t");
    let w = words_chars(&v);
    let got: Vec<String> = w.iter().map(|p| s(p)).collect();
    assert_eq!(got, vec!["/usr/bin/env", "python3", "-u"]);
}

#[test]
fn trim_removes_unicode_whitespace() {
    let v = to_chars("\u{3000} hi \n");
    assert_eq!(s(&trim_chars(&v)), "hi");
}

#[test]
fn find_gives_first_occurrence() {
    let v = to_chars("abcabc");
    assert_eq!(find_exec(&v, &['c', 'a']), Some(2));
    assert_eq!(find_exec(&v, &['x']), None);
    assert_eq!(find_exec(&v, &[]), Some(0));
}

#[test]
fn parse_i64_like_std() {
    assert_eq!(parse_i64_chars(&to_chars("42")), Some(42));
    assert_eq!(parse_i64_chars(&to_chars("+7")), Some(7));
    assert_eq!(parse_i64_chars(&to_chars("-9223372036854775808")), Some(i64::MIN));
    assert_eq!(parse_i64_chars(&to_chars("9223372036854775808")), None);
    assert_eq!(parse_i64_chars(&to_chars("-")), None);
    assert_eq!(parse_i64_chars(&to_chars("1 2")), None);
    assert_eq!(parse_i64_chars(&to_chars("")), None);
}

#[test]
fn integers_are_written_like_display() {
    assert_eq!(i64_to_string(0), "0");
    assert_eq!(i64_to_string(-305), "-305");
    assert_eq!(i64_to_string(i64::MIN), i64::MIN.to_string());
}

#[test]
fn atoi_reads_the_leading_number_or_zero() {
    assert_eq!(atoi(" 12 "), 12);
    assert_eq!(atoi("-3"), -3);
    assert_eq!(atoi("12abc"), 12);
    assert_eq!(atoi("  3 apples"), 3);
    assert_eq!(atoi("+7x"), 7);
    assert_eq!(atoi("- 5"), 0);
    assert_eq!(atoi("abc"), 0);
    assert_eq!(atoi("99999999999999999999"), 0);
    assert_eq!(atoi(""), 0);
    for n in [0i64, 1, -1, 42, i64::MAX, i64::MIN] {
        assert_eq!(atoi(&n.to_string()), n);
    }
}

#[test]
fn quoted_option_like_debug() {
    assert_eq!(quoted_opt(&None), "None");
    assert_eq!(quoted_opt(&Some("a\"b".to_string())), format!("{:?}", Some("a\"b")));
}

#[test]
fn utf8_length_counts_bytes() {
    let v = to_chars("aé€😀");
    assert_eq!(utf8_len_exec(&v), "aé€😀".len() as u128);
}

#[test]
fn immediate_return_message() {
    let r = ImmediateReturn::new(7);
    assert_eq!(r.rv, 7);
    assert_eq!(r.message(), "immediate return with exit code 7");
}

#[test]
fn added_target_is_a_cycle() {
    assert!(check("", 5).is_ok());
    let c = add("", 5);
    assert_eq!(c, "5");
    assert!(check(&c, 5).is_err());
    assert!(check(&c, 55).is_ok());
    let c2 = add(&c, 12);
    assert!(check(&c2, 5).is_err());
    assert!(check(&c2, 12).is_err());
    let c3 = add(&c2, 5);
    let mut parts: Vec<&str> = c3.split(':').collect();
    parts.sort();
    assert_eq!(parts, vec!["12", "5"]);
}

#[test]
fn cycle_check_ignores_empty_pieces() {
    assert!(check("::3::", 3).is_err());
    assert!(check("13:31", 3).is_ok());
    assert_eq!(redo::cycles::CyclicDependencyError.message(), "cyclic dependency detected");
}
