//! Character-level helpers shared by the parsers and formatters of this crate.
//!
//! Text is modelled as `Seq<char>`, the view of `str` and `String`. Executable
//! code works on `Vec<char>` and slices of it, converting at the edges.

use vstd::prelude::*;
use vstd::slice::{slice_subrange, slice_to_vec};

verus! {

/// `String::push` appends one character to the end of the string.
pub assume_specification[ String::push ](s: &mut String, ch: char)
    ensures
        final(s)@ == old(s)@.push(ch),
;

/// The characters of `s`, in order.
pub fn chars_of(s: &str) -> (v: Vec<char>)
    ensures
        v@ == s@,
{
    let mut v: Vec<char> = Vec::new();
    for c in it: s.chars()
        invariant
            v@ == it.seq().take(it.index()),
            it.seq() == s@,
    {
        v.push(c);
    }
    v
}

/// The string made of the characters of `v`, in order.
pub fn string_of(v: &[char]) -> (s: String)
    ensures
        s@ == v@,
{
    let mut s = String::new();
    let mut i: usize = 0;
    while i < v.len()
        invariant
            i <= v.len(),
            s@ == v@.take(i as int),
        decreases v.len() - i,
    {
        s.push(v[i]);
        i += 1;
    }
    s
}

/// Appends the characters of `tail` to `out`.
pub fn append_chars(out: &mut Vec<char>, tail: &[char])
    ensures
        final(out)@ == old(out)@ + tail@,
{
    let mut i: usize = 0;
    while i < tail.len()
        invariant
            i <= tail.len(),
            out@ == old(out)@ + tail@.take(i as int),
        decreases tail.len() - i,
    {
        out.push(tail[i]);
        i += 1;
    }
}

/// Appends the characters of `tail` to `out`.
pub fn append_str(out: &mut Vec<char>, tail: &str)
    ensures
        final(out)@ == old(out)@ + tail@,
{
    for c in it: tail.chars()
        invariant
            out@ == old(out)@ + it.seq().take(it.index()),
            it.seq() == tail@,
    {
        out.push(c);
    }
}

/// Whether the two texts hold the same characters.
pub fn same_chars(a: &[char], b: &[char]) -> (r: bool)
    ensures
        r == (a@ == b@),
{
    if a.len() != b.len() {
        return false;
    }
    let mut i: usize = 0;
    while i < a.len()
        invariant
            i <= a.len(),
            a.len() == b.len(),
            a@.take(i as int) == b@.take(i as int),
        decreases a.len() - i,
    {
        if a[i] != b[i] {
            return false;
        }
        assert(a@.take(i + 1) == a@.take(i as int).push(a@[i as int]));
        assert(b@.take(i + 1) == b@.take(i as int).push(b@[i as int]));
        i += 1;
    }
    assert(a@ == a@.take(a.len() as int));
    assert(b@ == b@.take(b.len() as int));
    true
}

// ---------------------------------------------------------------------------
// Decimal numbers
// ---------------------------------------------------------------------------

/// Whether `c` is one of `0` to `9`.
pub open spec fn is_digit(c: char) -> bool {
    '0' <= c && c <= '9'
}

/// The digit character that stands for `d`, for `d` below ten.
pub open spec fn digit_char(d: nat) -> char {
    (d + 48) as char
}

/// The number that the digit character `c` stands for.
pub open spec fn digit_value(c: char) -> nat {
    (c as nat - 48) as nat
}

/// The shortest decimal numeral of `n`.
pub open spec fn decimal(n: nat) -> Seq<char>
    decreases n,
{
    if n < 10 {
        seq![digit_char(n)]
    } else {
        decimal(n / 10).push(digit_char(n % 10))
    }
}

/// The decimal numeral of `i`, with a leading minus sign below zero.
pub open spec fn signed_decimal(i: int) -> Seq<char> {
    if i < 0 {
        seq!['-'] + decimal((-i) as nat)
    } else {
        decimal(i as nat)
    }
}

/// Whether every character of `s` is a digit.
pub open spec fn all_digits(s: Seq<char>) -> bool {
    forall|i: int| 0 <= i < s.len() ==> is_digit(#[trigger] s[i])
}

/// The number that a run of digits denotes, most significant digit first.
pub open spec fn digits_value(s: Seq<char>) -> nat
    decreases s.len(),
{
    if s.len() == 0 {
        0
    } else {
        digits_value(s.drop_last()) * 10 + digit_value(s.last())
    }
}

/// The value of `s` read as an unsigned decimal literal with `max` as the
/// largest value: an optional `+`, then one digit or more, nothing else.
pub open spec fn unsigned_literal(s: Seq<char>, max: nat) -> Option<nat> {
    let body = if s.len() > 0 && s[0] == '+' {
        s.skip(1)
    } else {
        s
    };
    if body.len() > 0 && all_digits(body) && digits_value(body) <= max {
        Some(digits_value(body))
    } else {
        None
    }
}

/// The value of `s` read as a signed decimal literal within `min..=max`: an
/// optional `+` or `-`, then one digit or more, nothing else.
pub open spec fn signed_literal(s: Seq<char>, min: int, max: int) -> Option<int> {
    let negative = s.len() > 0 && s[0] == '-';
    let body = if s.len() > 0 && (s[0] == '+' || s[0] == '-') {
        s.skip(1)
    } else {
        s
    };
    let value = if negative {
        -(digits_value(body) as int)
    } else {
        digits_value(body) as int
    };
    if body.len() > 0 && all_digits(body) && min <= value <= max {
        Some(value)
    } else {
        None
    }
}

/// A numeral is made of digits only, and is never empty.
pub proof fn lemma_decimal_digits(n: nat)
    ensures
        decimal(n).len() > 0,
        all_digits(decimal(n)),
    decreases n,
{
    if n >= 10 {
        lemma_decimal_digits(n / 10);
    }
}

/// Reading a numeral gives back the number it was written from.
pub proof fn lemma_decimal_value(n: nat)
    ensures
        digits_value(decimal(n)) == n,
    decreases n,
{
    if n < 10 {
        assert(decimal(n).drop_last() =~= Seq::<char>::empty());
        assert(digits_value(decimal(n).drop_last()) == 0);
    } else {
        lemma_decimal_value(n / 10);
        assert(decimal(n).drop_last() =~= decimal(n / 10));
    }
}

/// In a run of digits, a prefix never denotes more than the whole run.
pub proof fn lemma_digits_value_prefix(s: Seq<char>, k: int)
    requires
        0 <= k <= s.len(),
    ensures
        digits_value(s.take(k)) <= digits_value(s),
    decreases s.len() - k,
{
    if k < s.len() {
        lemma_digits_value_prefix(s, k + 1);
        assert(s.take(k + 1).drop_last() =~= s.take(k));
    } else {
        assert(s.take(k) =~= s);
    }
}

/// The decimal numeral of `n` as characters.
pub fn decimal_chars(n: u64) -> (v: Vec<char>)
    ensures
        v@ == decimal(n as nat),
{
    let mut low: Vec<char> = Vec::new();
    let mut m: u64 = n;
    while m >= 10
        invariant
            decimal(n as nat) == decimal(m as nat) + low@.reverse(),
        decreases m,
    {
        let d: u8 = (m % 10) as u8;
        let c: char = (48u8 + d) as char;
        assert(c == digit_char((m % 10) as nat));
        proof {
            let next = low@.push(c);
            assert(next.reverse() =~= seq![c] + low@.reverse());
            assert(decimal(m as nat) == decimal((m / 10) as nat).push(c));
            assert(decimal((m / 10) as nat).push(c) + low@.reverse() =~= decimal(
                (m / 10) as nat,
            ) + next.reverse());
        }
        low.push(c);
        m = m / 10;
    }
    let mut v: Vec<char> = Vec::new();
    v.push((48u8 + (m as u8)) as char);
    let mut i: usize = low.len();
    while i > 0
        invariant
            i <= low.len(),
            m < 10,
            decimal(n as nat) == decimal(m as nat) + low@.reverse(),
            v@ == decimal(m as nat) + low@.reverse().take(low.len() - i),
        decreases i,
    {
        i -= 1;
        v.push(low[i]);
        assert(low@.reverse().take(low.len() - i) =~= low@.reverse().take(low.len() - i - 1).push(
            low@[i as int],
        ));
    }
    assert(low@.reverse().take(low.len() as int) =~= low@.reverse());
    v
}

/// The decimal numeral of `i` as characters, with a minus sign below zero.
pub fn signed_decimal_chars(i: i64) -> (v: Vec<char>)
    ensures
        v@ == signed_decimal(i as int),
{
    if i < 0 {
        let magnitude: u64 = if i == i64::MIN {
            9223372036854775808u64
        } else {
            (-i) as u64
        };
        let mut v: Vec<char> = Vec::new();
        v.push('-');
        let digits = decimal_chars(magnitude);
        append_chars(&mut v, digits.as_slice());
        v
    } else {
        decimal_chars(i as u64)
    }
}

/// The number that a run of digits denotes, where it is at most `max`.
pub fn parse_digits(s: &[char], max: u64) -> (r: Option<u64>)
    ensures
        r == (if s@.len() > 0 && all_digits(s@) && digits_value(s@) <= max {
            Some(digits_value(s@) as u64)
        } else {
            None
        }),
{
    if s.len() == 0 {
        return None;
    }
    let mut acc: u64 = 0;
    let mut i: usize = 0;
    while i < s.len()
        invariant
            i <= s.len(),
            all_digits(s@.take(i as int)),
            acc == digits_value(s@.take(i as int)),
            acc <= max,
        decreases s.len() - i,
    {
        let c: char = s[i];
        if !(c >= '0' && c <= '9') {
            return None;
        }
        let d: u64 = (c as u32 - 48) as u64;
        assert(d == digit_value(c));
        proof {
            assert(s@.take(i + 1).drop_last() =~= s@.take(i as int));
            assert(s@.take(i + 1).last() == c);
            lemma_digits_value_prefix(s@, i + 1);
        }
        if d > max || acc > (max - d) / 10 {
            return None;
        }
        acc = acc * 10 + d;
        i += 1;
    }
    assert(s@.take(s.len() as int) =~= s@);
    Some(acc)
}

/// Reads an unsigned decimal literal no larger than `max`.
pub fn parse_unsigned(s: &[char], max: u64) -> (r: Option<u64>)
    ensures
        r == match unsigned_literal(s@, max as nat) {
            Some(n) => Some(n as u64),
            None => None,
        },
{
    if s.len() > 0 && s[0] == '+' {
        let body = slice_subrange(s, 1, s.len());
        assert(body@ =~= s@.skip(1));
        parse_digits(body, max)
    } else {
        parse_digits(s, max)
    }
}

/// Reads an unsigned decimal literal that fits in 64 bits.
pub fn parse_u64(s: &[char]) -> (r: Option<u64>)
    ensures
        r == match unsigned_literal(s@, u64::MAX as nat) {
            Some(n) => Some(n as u64),
            None => None,
        },
{
    parse_unsigned(s, u64::MAX)
}

/// Reads an unsigned decimal literal that fits in 32 bits.
pub fn parse_u32(s: &[char]) -> (r: Option<u32>)
    ensures
        r == match unsigned_literal(s@, u32::MAX as nat) {
            Some(n) => Some(n as u32),
            None => None,
        },
{
    match parse_unsigned(s, 4294967295u64) {
        Some(n) => Some(n as u32),
        None => None,
    }
}

/// Reads a signed decimal literal that fits in 64 bits.
pub fn parse_i64(s: &[char]) -> (r: Option<i64>)
    ensures
        r == match signed_literal(s@, i64::MIN as int, i64::MAX as int) {
            Some(n) => Some(n as i64),
            None => None,
        },
{
    if s.len() > 0 && s[0] == '-' {
        let body = slice_subrange(s, 1, s.len());
        assert(body@ =~= s@.skip(1));
        match parse_digits(body, 9223372036854775808u64) {
            Some(m) => {
                if m == 9223372036854775808u64 {
                    Some(i64::MIN)
                } else {
                    Some(-(m as i64))
                }
            },
            None => None,
        }
    } else if s.len() > 0 && s[0] == '+' {
        let body = slice_subrange(s, 1, s.len());
        assert(body@ =~= s@.skip(1));
        match parse_digits(body, 9223372036854775807u64) {
            Some(m) => Some(m as i64),
            None => None,
        }
    } else {
        match parse_digits(s, 9223372036854775807u64) {
            Some(m) => Some(m as i64),
            None => None,
        }
    }
}

// ---------------------------------------------------------------------------
// Searching, splitting and trimming
// ---------------------------------------------------------------------------

/// The position of the first `c` in `s`, or the length of `s` if there is none.
pub open spec fn index_of(s: Seq<char>, c: char) -> nat
    decreases s.len(),
{
    if s.len() == 0 {
        0
    } else if s[0] == c {
        0
    } else {
        index_of(s.skip(1), c) + 1
    }
}

/// The position of the last `c` in `s`, or -1 if there is none.
pub open spec fn last_index_of(s: Seq<char>, c: char) -> int
    decreases s.len(),
{
    if s.len() == 0 {
        -1
    } else if s.last() == c {
        s.len() - 1
    } else {
        last_index_of(s.drop_last(), c)
    }
}

/// Whether `c` occurs nowhere in `s`.
pub open spec fn free_of(s: Seq<char>, c: char) -> bool {
    forall|i: int| 0 <= i < s.len() ==> #[trigger] s[i] != c
}

/// The pieces of `s` between occurrences of `sep`; one piece more than there
/// are separators, so never empty.
pub open spec fn split(s: Seq<char>, sep: char) -> Seq<Seq<char>>
    decreases s.len(),
{
    let i = index_of(s, sep) as int;
    if i >= s.len() {
        seq![s]
    } else {
        seq![s.take(i)] + split(s.skip(i + 1), sep)
    }
}

/// Whether `s` begins with `prefix`.
pub open spec fn starts_with(s: Seq<char>, prefix: Seq<char>) -> bool {
    prefix.len() <= s.len() && s.take(prefix.len() as int) == prefix
}

/// Whether `s` ends with `suffix`.
pub open spec fn ends_with(s: Seq<char>, suffix: Seq<char>) -> bool {
    suffix.len() <= s.len() && s.skip(s.len() - suffix.len()) == suffix
}

/// `s` without any repetitions of `suffix` at its end.
pub open spec fn trim_end_matches(s: Seq<char>, suffix: Seq<char>) -> Seq<char>
    decreases s.len(),
{
    if suffix.len() > 0 && ends_with(s, suffix) {
        trim_end_matches(s.take(s.len() - suffix.len()), suffix)
    } else {
        s
    }
}

/// `s` without the occurrences of `pat`, found from the left and not overlapping.
pub open spec fn remove_all(s: Seq<char>, pat: Seq<char>) -> Seq<char>
    decreases s.len(),
{
    if s.len() == 0 || pat.len() == 0 {
        s
    } else if starts_with(s, pat) {
        remove_all(s.skip(pat.len() as int), pat)
    } else {
        seq![s[0]] + remove_all(s.skip(1), pat)
    }
}

/// `s` with every `from` turned into `to`.
pub open spec fn replace_char(s: Seq<char>, from: char, to: char) -> Seq<char> {
    Seq::new(
        s.len(),
        |i: int|
            if s[i] == from {
                to
            } else {
                s[i]
            },
    )
}

/// The views of a list of texts.
pub open spec fn texts(v: Seq<Vec<char>>) -> Seq<Seq<char>> {
    Seq::new(v.len(), |i: int| v[i]@)
}

/// The texts of a list of strings.
pub open spec fn string_texts(v: Seq<String>) -> Seq<Seq<char>> {
    Seq::new(v.len(), |i: int| v[i]@)
}

/// A copy of a list of strings.
pub fn copy_strings(v: &Vec<String>) -> (r: Vec<String>)
    ensures
        string_texts(r@) == string_texts(v@),
{
    let mut r: Vec<String> = Vec::new();
    let mut i: usize = 0;
    while i < v.len()
        invariant
            i <= v@.len(),
            r@.len() == i,
            string_texts(r@) == string_texts(v@).take(i as int),
        decreases v.len() - i,
    {
        let ghost before = r@;
        let copy = v[i].clone();
        r.push(copy);
        assert forall|j: int| 0 <= j < i + 1 implies #[trigger] string_texts(r@)[j]
            == string_texts(v@)[j] by {
            if j < i {
                assert(r@[j] == before[j]);
                assert(string_texts(before)[j] == string_texts(v@).take(i as int)[j]);
            }
        }
        assert(string_texts(r@) =~= string_texts(v@).take(i + 1));
        i += 1;
    }
    assert(string_texts(v@).take(v@.len() as int) =~= string_texts(v@));
    r
}

/// Where the first `c` stands, given that none stands before `k`.
pub proof fn lemma_index_of_found(s: Seq<char>, c: char, k: int)
    requires
        0 <= k < s.len(),
        s[k] == c,
        forall|j: int| 0 <= j < k ==> #[trigger] s[j] != c,
    ensures
        index_of(s, c) == k,
    decreases k,
{
    if k > 0 {
        assert(s[0] != c);
        assert forall|j: int| 0 <= j < k - 1 implies #[trigger] s.skip(1)[j] != c by {
            assert(s[j + 1] != c);
        }
        lemma_index_of_found(s.skip(1), c, k - 1);
    }
}

/// A text free of `c` has no first `c`.
pub proof fn lemma_index_of_absent(s: Seq<char>, c: char)
    requires
        free_of(s, c),
    ensures
        index_of(s, c) == s.len(),
    decreases s.len(),
{
    if s.len() > 0 {
        assert(s[0] != c);
        assert forall|j: int| 0 <= j < s.skip(1).len() implies #[trigger] s.skip(1)[j] != c by {
            assert(s[j + 1] != c);
        }
        lemma_index_of_absent(s.skip(1), c);
    }
}

/// The pieces of `s` between occurrences of `sep`.
pub fn split_chars(s: &[char], sep: char) -> (parts: Vec<Vec<char>>)
    ensures
        texts(parts@) == split(s@, sep),
{
    let mut parts: Vec<Vec<char>> = Vec::new();
    let mut cur: Vec<char> = Vec::new();
    let mut start: usize = 0;
    let mut i: usize = 0;
    assert(s@.skip(0) =~= s@);
    assert(texts(parts@) =~= Seq::<Seq<char>>::empty());
    while i < s.len()
        invariant
            start <= i <= s.len(),
            cur@ == s@.subrange(start as int, i as int),
            forall|j: int| start <= j < i ==> #[trigger] s@[j] != sep,
            split(s@, sep) == texts(parts@) + split(s@.skip(start as int), sep),
        decreases s.len() - i,
    {
        let c: char = s[i];
        if c == sep {
            proof {
                let t = s@.skip(start as int);
                let k = i - start;
                assert forall|j: int| 0 <= j < k implies #[trigger] t[j] != sep by {
                    assert(s@[start + j] != sep);
                }
                lemma_index_of_found(t, sep, k);
                assert(t.take(k) =~= cur@);
                assert(t.skip(k + 1) =~= s@.skip(i + 1));
                assert(texts(parts@.push(cur)) =~= texts(parts@) + seq![cur@]);
            }
            parts.push(cur);
            cur = Vec::new();
            start = i + 1;
            assert(s@.subrange(start as int, start as int) =~= Seq::<char>::empty());
        } else {
            cur.push(c);
            assert(s@.subrange(start as int, i + 1) =~= s@.subrange(start as int, i as int).push(
                c,
            ));
        }
        i += 1;
    }
    proof {
        let t = s@.skip(start as int);
        assert forall|j: int| 0 <= j < t.len() implies #[trigger] t[j] != sep by {
            assert(s@[start + j] != sep);
        }
        lemma_index_of_absent(t, sep);
        assert(t =~= cur@);
        assert(texts(parts@.push(cur)) =~= texts(parts@) + seq![cur@]);
    }
    parts.push(cur);
    parts
}

/// Whether `s` begins with `prefix`.
pub fn has_prefix(s: &[char], prefix: &[char]) -> (r: bool)
    ensures
        r == starts_with(s@, prefix@),
{
    if prefix.len() > s.len() {
        return false;
    }
    let head = slice_subrange(s, 0, prefix.len());
    assert(head@ =~= s@.take(prefix.len() as int));
    same_chars(head, prefix)
}

/// Whether `s` ends with `suffix`.
pub fn has_suffix(s: &[char], suffix: &[char]) -> (r: bool)
    ensures
        r == ends_with(s@, suffix@),
{
    if suffix.len() > s.len() {
        return false;
    }
    let tail = slice_subrange(s, s.len() - suffix.len(), s.len());
    assert(tail@ =~= s@.skip(s.len() - suffix.len()));
    same_chars(tail, suffix)
}

/// `s` without any repetitions of `suffix` at its end.
pub fn trim_end(s: &[char], suffix: &[char]) -> (r: Vec<char>)
    ensures
        r@ == trim_end_matches(s@, suffix@),
{
    let mut end: usize = s.len();
    if suffix.len() > 0 {
        assert(s@.take(end as int) =~= s@);
        loop
            invariant
                end <= s.len(),
                suffix.len() > 0,
                trim_end_matches(s@, suffix@) == trim_end_matches(s@.take(end as int), suffix@),
            ensures
                end <= s.len(),
                trim_end_matches(s@, suffix@) == s@.take(end as int),
            decreases end,
        {
            let head = slice_subrange(s, 0, end);
            assert(head@ =~= s@.take(end as int));
            if has_suffix(head, suffix) {
                assert(s@.take(end as int).take(end - suffix.len()) =~= s@.take(
                    end - suffix.len(),
                ));
                end = end - suffix.len();
            } else {
                break ;
            }
        }
    } else {
        assert(s@.take(end as int) =~= s@);
    }
    let head = slice_subrange(s, 0, end);
    assert(head@ =~= s@.take(end as int));
    slice_to_vec(head)
}

/// `s` without the occurrences of `pat`, found from the left and not overlapping.
pub fn strip_all(s: &[char], pat: &[char]) -> (r: Vec<char>)
    ensures
        r@ == remove_all(s@, pat@),
{
    if pat.len() == 0 {
        return slice_to_vec(s);
    }
    let mut r: Vec<char> = Vec::new();
    let mut i: usize = 0;
    assert(s@.skip(0) =~= s@);
    while i < s.len()
        invariant
            i <= s.len(),
            pat.len() > 0,
            remove_all(s@, pat@) == r@ + remove_all(s@.skip(i as int), pat@),
        decreases s.len() - i,
    {
        let rest = slice_subrange(s, i, s.len());
        assert(rest@ =~= s@.skip(i as int));
        if has_prefix(rest, pat) {
            assert(s@.skip(i as int).skip(pat.len() as int) =~= s@.skip(i + pat.len()));
            i = i + pat.len();
        } else {
            assert(s@.skip(i as int).skip(1) =~= s@.skip(i + 1));
            assert(r@.push(s@[i as int]) + remove_all(s@.skip(i + 1), pat@) =~= r@ + (seq![
                s@[i as int],
            ] + remove_all(s@.skip(i + 1), pat@)));
            r.push(s[i]);
            i += 1;
        }
    }
    assert(remove_all(s@.skip(s.len() as int), pat@) =~= Seq::<char>::empty());
    r
}

/// `s` with every `from` turned into `to`.
pub fn swap_char(s: &[char], from: char, to: char) -> (r: Vec<char>)
    ensures
        r@ == replace_char(s@, from, to),
{
    let mut r: Vec<char> = Vec::new();
    let mut i: usize = 0;
    while i < s.len()
        invariant
            i <= s.len(),
            r@ == replace_char(s@, from, to).take(i as int),
        decreases s.len() - i,
    {
        let c: char = s[i];
        r.push(if c == from { to } else { c });
        assert(replace_char(s@, from, to).take(i + 1) =~= replace_char(s@, from, to).take(
            i as int,
        ).push(replace_char(s@, from, to)[i as int]));
        i += 1;
    }
    assert(replace_char(s@, from, to).take(s.len() as int) =~= replace_char(s@, from, to));
    r
}

// ---------------------------------------------------------------------------
// Letter case
// ---------------------------------------------------------------------------

/// `c` with an ASCII capital turned into its small letter.
pub open spec fn ascii_lower_char(c: char) -> char {
    if 'A' <= c && c <= 'Z' {
        ((c as u8 + 32) as u8) as char
    } else {
        c
    }
}

/// `s` with every ASCII capital turned into its small letter.
pub open spec fn ascii_lower(s: Seq<char>) -> Seq<char> {
    Seq::new(s.len(), |i: int| ascii_lower_char(s[i]))
}

/// `s` with every ASCII capital turned into its small letter.
pub fn to_ascii_lower(s: &[char]) -> (r: Vec<char>)
    ensures
        r@ == ascii_lower(s@),
{
    let mut r: Vec<char> = Vec::new();
    let mut i: usize = 0;
    while i < s.len()
        invariant
            i <= s.len(),
            r@ == ascii_lower(s@).take(i as int),
        decreases s.len() - i,
    {
        let c: char = s[i];
        let lower: char = if c >= 'A' && c <= 'Z' {
            ((c as u8) + 32) as char
        } else {
            c
        };
        r.push(lower);
        assert(ascii_lower(s@).take(i + 1) =~= ascii_lower(s@).take(i as int).push(
            ascii_lower(s@)[i as int],
        ));
        i += 1;
    }
    assert(ascii_lower(s@).take(s.len() as int) =~= ascii_lower(s@));
    r
}

/// Whether `s` holds exactly the characters of `lit`.
pub fn equals_str(s: &[char], lit: &str) -> (r: bool)
    ensures
        r == (s@ == lit@),
{
    let wanted = chars_of(lit);
    same_chars(s, wanted.as_slice())
}

// ---------------------------------------------------------------------------
// Substrings and white space
// ---------------------------------------------------------------------------

/// Where `pat` first occurs in `s`; one more than the length of `s` if it
/// occurs nowhere.
pub open spec fn first_sub(s: Seq<char>, pat: Seq<char>) -> nat
    decreases s.len(),
{
    if starts_with(s, pat) {
        0
    } else if s.len() == 0 {
        1
    } else {
        first_sub(s.skip(1), pat) + 1
    }
}

/// Whether `pat` occurs in `s`.
pub open spec fn has_sub(s: Seq<char>, pat: Seq<char>) -> bool {
    first_sub(s, pat) + pat.len() <= s.len()
}

/// The first `n` pieces of `s` between occurrences of `sep`, the last of
/// them holding all that is left.
pub open spec fn splitn(s: Seq<char>, sep: char, n: nat) -> Seq<Seq<char>>
    decreases n,
{
    let i = index_of(s, sep) as int;
    if n <= 1 || i >= s.len() {
        seq![s]
    } else {
        seq![s.take(i)] + splitn(s.skip(i + 1), sep, (n - 1) as nat)
    }
}

/// `s` without any repetitions of `prefix` at its start.
pub open spec fn trim_start_matches(s: Seq<char>, prefix: Seq<char>) -> Seq<char>
    decreases s.len(),
{
    if prefix.len() > 0 && starts_with(s, prefix) {
        trim_start_matches(s.skip(prefix.len() as int), prefix)
    } else {
        s
    }
}

/// Whether `c` is white space as Unicode defines it.
pub open spec fn is_space(c: char) -> bool {
    let n = c as u32;
    ||| 0x09 <= n <= 0x0d
    ||| n == 0x20
    ||| n == 0x85
    ||| n == 0xa0
    ||| n == 0x1680
    ||| 0x2000 <= n <= 0x200a
    ||| n == 0x2028
    ||| n == 0x2029
    ||| n == 0x202f
    ||| n == 0x205f
    ||| n == 0x3000
}

/// `s` without the white space at its start.
pub open spec fn trim_start(s: Seq<char>) -> Seq<char>
    decreases s.len(),
{
    if s.len() > 0 && is_space(s[0]) {
        trim_start(s.skip(1))
    } else {
        s
    }
}

/// `s` without the white space at its end.
pub open spec fn trim_end_space(s: Seq<char>) -> Seq<char>
    decreases s.len(),
{
    if s.len() > 0 && is_space(s.last()) {
        trim_end_space(s.drop_last())
    } else {
        s
    }
}

/// `s` without the white space at either end.
pub open spec fn trim(s: Seq<char>) -> Seq<char> {
    trim_end_space(trim_start(s))
}

/// A text shorter than `pat` does not hold it.
pub proof fn lemma_first_sub_short(s: Seq<char>, pat: Seq<char>)
    requires
        s.len() < pat.len(),
    ensures
        first_sub(s, pat) == s.len() + 1,
    decreases s.len(),
{
    if s.len() > 0 {
        lemma_first_sub_short(s.skip(1), pat);
    }
}

/// Where `pat` first occurs in `s`.
pub fn find_str(s: &[char], pat: &[char]) -> (r: Option<usize>)
    ensures
        r is Some <==> has_sub(s@, pat@),
        r matches Some(at) ==> at == first_sub(s@, pat@) && at + pat@.len() <= s@.len()
            <= usize::MAX,
{
    let mut i: usize = 0;
    assert(s@.skip(0) =~= s@);
    while i < s.len() && s.len() - i >= pat.len()
        invariant
            i <= s.len(),
            first_sub(s@, pat@) == i + first_sub(s@.skip(i as int), pat@),
        decreases s.len() - i,
    {
        let rest = slice_subrange(s, i, s.len());
        assert(rest@ =~= s@.skip(i as int));
        if has_prefix(rest, pat) {
            return Some(i);
        }
        assert(s@.skip(i as int).skip(1) =~= s@.skip(i + 1));
        i += 1;
    }
    let rest = slice_subrange(s, i, s.len());
    assert(rest@ =~= s@.skip(i as int));
    if has_prefix(rest, pat) {
        return Some(i);
    }
    proof {
        if i < s.len() {
            lemma_first_sub_short(s@.skip(i as int), pat@);
        }
    }
    None
}

/// Whether `c` is white space.
pub fn is_white(c: char) -> (r: bool)
    ensures
        r == is_space(c),
{
    let n: u32 = c as u32;
    (0x09 <= n && n <= 0x0d) || n == 0x20 || n == 0x85 || n == 0xa0 || n == 0x1680 || (0x2000 <= n
        && n <= 0x200a) || n == 0x2028 || n == 0x2029 || n == 0x202f || n == 0x205f || n == 0x3000
}

/// `s` without the white space at either end.
pub fn trim_space(s: &[char]) -> (r: Vec<char>)
    ensures
        r@ == trim(s@),
{
    let mut from: usize = 0;
    assert(s@.skip(0) =~= s@);
    while from < s.len() && is_white(s[from])
        invariant
            from <= s.len(),
            trim_start(s@) == trim_start(s@.skip(from as int)),
        decreases s.len() - from,
    {
        assert(s@.skip(from as int).skip(1) =~= s@.skip(from + 1));
        from += 1;
    }
    let mut to: usize = s.len();
    assert(s@.subrange(from as int, to as int) =~= s@.skip(from as int));
    while to > from && is_white(s[to - 1])
        invariant
            from <= to <= s.len(),
            trim_start(s@) == s@.skip(from as int),
            trim(s@) == trim_end_space(s@.subrange(from as int, to as int)),
        decreases to,
    {
        assert(s@.subrange(from as int, to as int).drop_last() =~= s@.subrange(
            from as int,
            to - 1,
        ));
        to -= 1;
    }
    slice_to_vec(slice_subrange(s, from, to))
}

/// `s` without any repetitions of `prefix` at its start.
pub fn trim_start_str(s: &[char], prefix: &[char]) -> (r: Vec<char>)
    ensures
        r@ == trim_start_matches(s@, prefix@),
{
    let mut from: usize = 0;
    assert(s@.skip(0) =~= s@);
    if prefix.len() > 0 {
        loop
            invariant
                from <= s.len(),
                prefix.len() > 0,
                trim_start_matches(s@, prefix@) == trim_start_matches(
                    s@.skip(from as int),
                    prefix@,
                ),
            ensures
                from <= s.len(),
                trim_start_matches(s@, prefix@) == s@.skip(from as int),
            decreases s.len() - from,
        {
            let rest = slice_subrange(s, from, s.len());
            assert(rest@ =~= s@.skip(from as int));
            if has_prefix(rest, prefix) {
                assert(s@.skip(from as int).skip(prefix.len() as int) =~= s@.skip(
                    from + prefix.len(),
                ));
                from = from + prefix.len();
            } else {
                break ;
            }
        }
    }
    let rest = slice_subrange(s, from, s.len());
    assert(rest@ =~= s@.skip(from as int));
    slice_to_vec(rest)
}

/// The first `n` pieces of `s` between occurrences of `sep`, the last of
/// them holding all that is left.
pub fn splitn_chars(s: &[char], sep: char, n: usize) -> (parts: Vec<Vec<char>>)
    ensures
        texts(parts@) == splitn(s@, sep, n as nat),
{
    let mut parts: Vec<Vec<char>> = Vec::new();
    let mut start: usize = 0;
    let mut left: usize = n;
    let mut i: usize = 0;
    assert(s@.skip(0) =~= s@);
    assert(texts(parts@) =~= Seq::<Seq<char>>::empty());
    while i < s.len() && left > 1
        invariant
            start <= i <= s.len(),
            forall|j: int| start <= j < i ==> #[trigger] s@[j] != sep,
            splitn(s@, sep, n as nat) == texts(parts@) + splitn(
                s@.skip(start as int),
                sep,
                left as nat,
            ),
        decreases s.len() - i,
    {
        if s[i] == sep {
            let piece = slice_to_vec(slice_subrange(s, start, i));
            proof {
                let t = s@.skip(start as int);
                let k = i - start;
                assert forall|j: int| 0 <= j < k implies #[trigger] t[j] != sep by {
                    assert(s@[start + j] != sep);
                }
                lemma_index_of_found(t, sep, k);
                assert(t.take(k) =~= piece@);
                assert(t.skip(k + 1) =~= s@.skip(i + 1));
                assert(texts(parts@.push(piece)) =~= texts(parts@) + seq![piece@]);
            }
            parts.push(piece);
            start = i + 1;
            left -= 1;
        }
        i += 1;
    }
    let last = slice_to_vec(slice_subrange(s, start, s.len()));
    proof {
        let t = s@.skip(start as int);
        assert(last@ =~= t);
        if left > 1 {
            assert forall|j: int| 0 <= j < t.len() implies #[trigger] t[j] != sep by {
                assert(s@[start + j] != sep);
            }
            lemma_index_of_absent(t, sep);
        }
        assert(texts(parts@.push(last)) =~= texts(parts@) + seq![last@]);
    }
    parts.push(last);
    parts
}

// ---------------------------------------------------------------------------
// Order
// ---------------------------------------------------------------------------

/// Whether `a` comes before `b` in the order of dictionaries: at the first
/// place where they differ `a` has the smaller character, or `a` ends
/// there and `b` does not. This is the order of `str`.
pub open spec fn lex_less(a: Seq<char>, b: Seq<char>) -> bool
    decreases a.len(),
{
    if b.len() == 0 {
        false
    } else if a.len() == 0 {
        true
    } else if a[0] != b[0] {
        a[0] < b[0]
    } else {
        lex_less(a.skip(1), b.skip(1))
    }
}

/// Of two texts one comes before the other, or they are the same.
pub proof fn lemma_lex_total(a: Seq<char>, b: Seq<char>)
    ensures
        lex_less(a, b) || lex_less(b, a) || a == b,
        !(lex_less(a, b) && lex_less(b, a)),
        !lex_less(a, a),
    decreases a.len(),
{
    if a.len() > 0 && b.len() > 0 && a[0] == b[0] {
        lemma_lex_total(a.skip(1), b.skip(1));
        if a.skip(1) == b.skip(1) {
            assert(a =~= seq![a[0]] + a.skip(1));
            assert(b =~= seq![b[0]] + b.skip(1));
        }
    } else if a.len() == 0 && b.len() == 0 {
        assert(a =~= b);
    }
    if a.len() > 0 {
        lemma_lex_irreflexive(a);
    }
}

/// No text comes before itself.
pub proof fn lemma_lex_irreflexive(a: Seq<char>)
    ensures
        !lex_less(a, a),
    decreases a.len(),
{
    if a.len() > 0 {
        lemma_lex_irreflexive(a.skip(1));
    }
}

/// What comes before a text comes before all that the text comes before.
pub proof fn lemma_lex_transitive(a: Seq<char>, b: Seq<char>, c: Seq<char>)
    requires
        lex_less(a, b),
        lex_less(b, c),
    ensures
        lex_less(a, c),
    decreases a.len(),
{
    if a.len() > 0 && b.len() > 0 && c.len() > 0 && a[0] == b[0] && b[0] == c[0] {
        lemma_lex_transitive(a.skip(1), b.skip(1), c.skip(1));
    }
}

/// Whether `a` comes before `b` in the order of dictionaries.
pub fn text_less(a: &[char], b: &[char]) -> (r: bool)
    ensures
        r == lex_less(a@, b@),
{
    let mut i: usize = 0;
    assert(a@.skip(0) =~= a@);
    assert(b@.skip(0) =~= b@);
    while i < a.len() && i < b.len()
        invariant
            i <= a.len(),
            i <= b.len(),
            lex_less(a@, b@) == lex_less(a@.skip(i as int), b@.skip(i as int)),
        decreases a.len() - i,
    {
        if a[i] != b[i] {
            return a[i] < b[i];
        }
        assert(a@.skip(i as int).skip(1) =~= a@.skip(i + 1));
        assert(b@.skip(i as int).skip(1) =~= b@.skip(i + 1));
        i += 1;
    }
    i < b.len()
}

/// Whether `names` are in the order of dictionaries, none twice.
pub open spec fn ascending(names: Seq<Seq<char>>) -> bool {
    forall|i: int, j: int|
        0 <= i < j < names.len() ==> lex_less(#[trigger] names[i], #[trigger] names[j])
}

/// A name put between those before it and those after it keeps the order.
pub proof fn lemma_ascending_insert(names: Seq<Seq<char>>, p: int, name: Seq<char>)
    requires
        ascending(names),
        0 <= p <= names.len(),
        forall|k: int| 0 <= k < p ==> lex_less(#[trigger] names[k], name),
        p < names.len() ==> lex_less(name, names[p]),
    ensures
        ascending(names.insert(p, name)),
{
    let after = names.insert(p, name);
    assert forall|i: int, j: int| 0 <= i < j < after.len() implies lex_less(
        #[trigger] after[i],
        #[trigger] after[j],
    ) by {
        let x = if i < p { i } else { i - 1 };
        let y = if j < p { j } else { j - 1 };
        if i == p {
            assert(after[j] == names[y]);
            if y > p {
                assert(lex_less(names[p], names[y]));
                lemma_lex_transitive(name, names[p], names[y]);
            }
        } else if j == p {
            assert(after[i] == names[x]);
        } else {
            assert(after[i] == names[x]);
            assert(after[j] == names[y]);
            assert(lex_less(names[x], names[y]));
        }
    }
}

/// What a list holds it still holds after something is put in, and it
/// holds what is put in.
pub proof fn lemma_insert_contains(names: Seq<Seq<char>>, p: int, name: Seq<char>, other: Seq<char>)
    requires
        0 <= p <= names.len(),
        names.contains(other) || other == name,
    ensures
        names.insert(p, name).contains(other),
{
    let after = names.insert(p, name);
    if other == name {
        assert(after[p] == other);
    } else {
        let k = choose|k: int| 0 <= k < names.len() && names[k] == other;
        let k2 = if k < p { k } else { k + 1 };
        assert(after[k2] == other);
    }
}

// ---------------------------------------------------------------------------
// One character
// ---------------------------------------------------------------------------

/// Where the last `c` stands, given that none stands after `k`.
pub proof fn lemma_last_index_found(s: Seq<char>, c: char, k: int)
    requires
        0 <= k < s.len(),
        s[k] == c,
        forall|j: int| k < j < s.len() ==> #[trigger] s[j] != c,
    ensures
        last_index_of(s, c) == k,
    decreases s.len(),
{
    if s.last() != c {
        assert(k < s.len() - 1);
        assert forall|j: int| k < j < s.drop_last().len() implies #[trigger] s.drop_last()[j]
            != c by {
            assert(s[j] != c);
        }
        lemma_last_index_found(s.drop_last(), c, k);
    } else if k < s.len() - 1 {
        assert(s[s.len() - 1] != c);
    }
}

/// The first `c` is a `c`, and none stands before it.
pub proof fn lemma_index_of_first(s: Seq<char>, c: char)
    ensures
        index_of(s, c) <= s.len(),
        index_of(s, c) < s.len() ==> s[index_of(s, c) as int] == c,
        forall|j: int| 0 <= j < index_of(s, c) ==> #[trigger] s[j] != c,
    decreases s.len(),
{
    if s.len() > 0 && s[0] != c {
        let rest = s.skip(1);
        lemma_index_of_first(rest, c);
        assert forall|j: int| 0 <= j < index_of(s, c) implies #[trigger] s[j] != c by {
            if j > 0 {
                assert(rest[j - 1] != c);
            }
        }
    }
}

/// The last `c` is a `c`, and none stands after it.
pub proof fn lemma_last_index_last(s: Seq<char>, c: char)
    ensures
        -1 <= last_index_of(s, c) < s.len(),
        last_index_of(s, c) >= 0 ==> s[last_index_of(s, c)] == c,
        forall|j: int| last_index_of(s, c) < j < s.len() ==> #[trigger] s[j] != c,
    decreases s.len(),
{
    if s.len() > 0 && s.last() != c {
        let rest = s.drop_last();
        lemma_last_index_last(rest, c);
        assert forall|j: int| last_index_of(s, c) < j < s.len() implies #[trigger] s[j] != c by {
            if j < s.len() - 1 {
                assert(rest[j] != c);
            }
        }
    }
}

/// Where the first `c` stands in `s`.
pub fn find_char(s: &[char], c: char) -> (r: Option<usize>)
    ensures
        match r {
            Some(at) => at < s@.len() && at == index_of(s@, c),
            None => index_of(s@, c) == s@.len(),
        },
{
    let mut at: usize = 0;
    while at < s.len() && s[at] != c
        invariant
            at <= s.len(),
            forall|j: int| 0 <= j < at ==> #[trigger] s@[j] != c,
        decreases s.len() - at,
    {
        at += 1;
    }
    if at < s.len() {
        proof {
            lemma_index_of_found(s@, c, at as int);
        }
        Some(at)
    } else {
        proof {
            lemma_index_of_absent(s@, c);
        }
        None
    }
}

/// Where the last `c` stands in `s`.
pub fn rfind_char(s: &[char], c: char) -> (r: Option<usize>)
    ensures
        match r {
            Some(at) => at < s@.len() && at == last_index_of(s@, c),
            None => last_index_of(s@, c) == -1,
        },
{
    let mut at: usize = s.len();
    assert(s@.take(at as int) =~= s@);
    while at > 0 && s[at - 1] != c
        invariant
            at <= s.len(),
            last_index_of(s@, c) == last_index_of(s@.take(at as int), c),
        decreases at,
    {
        assert(s@.take(at as int).drop_last() =~= s@.take(at - 1));
        at -= 1;
    }
    if at == 0 {
        None
    } else {
        assert(s@.take(at as int).last() == c);
        Some(at - 1)
    }
}

} // verus!
