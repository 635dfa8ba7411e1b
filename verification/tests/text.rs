use wanna_cdn::text::{
    chars_of, decimal_chars, parse_i64, parse_u32, parse_u64, signed_decimal_chars, split_chars,
    string_of, strip_all, swap_char, to_ascii_lower, trim_end,
};

fn chars(s: &str) -> Vec<char> {
    s.chars().collect()
}

fn text(v: &[char]) -> String {
    v.iter().collect()
}

#[test]
fn chars_and_strings_convert_both_ways() {
    assert_eq!(chars_of("héllo"), vec!['h', 'é', 'l', 'l', 'o']);
    assert_eq!(string_of(&['a', 'ß', 'c']), "aßc");
    assert_eq!(string_of(&[]), "");
}

#[test]
fn decimal_numerals() {
    assert_eq!(text(&decimal_chars(0)), "0");
    assert_eq!(text(&decimal_chars(7)), "7");
    assert_eq!(text(&decimal_chars(10)), "10");
    assert_eq!(text(&decimal_chars(1743405592)), "1743405592");
    assert_eq!(text(&decimal_chars(u64::MAX)), "18446744073709551615");
    assert_eq!(text(&signed_decimal_chars(-1)), "-1");
    assert_eq!(text(&signed_decimal_chars(i64::MIN)), "-9223372036854775808");
    assert_eq!(text(&signed_decimal_chars(i64::MAX)), "9223372036854775807");
}

#[test]
fn unsigned_literals() {
    assert_eq!(parse_u64(&chars("0")), Some(0));
    assert_eq!(parse_u64(&chars("+17")), Some(17));
    assert_eq!(parse_u64(&chars("007")), Some(7));
    assert_eq!(parse_u64(&chars("18446744073709551615")), Some(u64::MAX));
    assert_eq!(parse_u64(&chars("18446744073709551616")), None);
    assert_eq!(parse_u64(&chars("")), None);
    assert_eq!(parse_u64(&chars("+")), None);
    assert_eq!(parse_u64(&chars("-1")), None);
    assert_eq!(parse_u64(&chars("1 ")), None);
    assert_eq!(parse_u64(&chars("１")), None);
    assert_eq!(parse_u32(&chars("4294967295")), Some(u32::MAX));
    assert_eq!(parse_u32(&chars("4294967296")), None);
}

#[test]
fn parsing_agrees_with_the_standard_library() {
    for s in ["0", "+0", "-0", "12", "+12", "-12", "", "+", "-", "1-", "99999999999999999999", "a"]
    {
        assert_eq!(parse_i64(&chars(s)), s.parse::<i64>().ok(), "{:?}", s);
        assert_eq!(parse_u64(&chars(s)), s.parse::<u64>().ok(), "{:?}", s);
        assert_eq!(parse_u32(&chars(s)), s.parse::<u32>().ok(), "{:?}", s);
    }
}

#[test]
fn splitting_keeps_empty_pieces() {
    let pieces: Vec<String> = split_chars(&chars("a--b-"), '-').iter().map(|p| text(p)).collect();
    assert_eq!(pieces, vec!["a", "", "b", ""]);
    let one: Vec<String> = split_chars(&chars(""), '-').iter().map(|p| text(p)).collect();
    assert_eq!(one, vec![""]);
}

#[test]
fn trimming_removes_every_repetition() {
    assert_eq!(text(&trim_end(&chars("42.mp4.mp4"), &chars(".mp4"))), "42");
    assert_eq!(text(&trim_end(&chars("42.mp4x"), &chars(".mp4"))), "42.mp4x");
    assert_eq!(text(&trim_end(&chars(".mp4"), &chars(".mp4"))), "");
    assert_eq!(text(&trim_end(&chars("abc"), &chars(""))), "abc");
}

#[test]
fn stripping_agrees_with_replace() {
    for s in ["bytes=0-9", "bytes=bytes=1", "bybytes=tes=", "0-bytes=", "byte=1", ""] {
        assert_eq!(text(&strip_all(&chars(s), &chars("bytes="))), s.replace("bytes=", ""));
    }
}

#[test]
fn swapping_and_lowering() {
    assert_eq!(text(&swap_char(&chars("1.2.3"), '.', '_')), "1_2_3");
    assert_eq!(text(&to_ascii_lower(&chars("User-AGENT É"))), "user-agent É");
}
