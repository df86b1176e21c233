//! Character-level helpers: conversion between strings and character
//! vectors, searching, trimming, whitespace-separated words and decimal
//! numbers.

use vstd::prelude::*;
use vstd::std_specs::iter::IteratorSpec;

verus! {

/// Unicode white space, as `char::is_whitespace` defines it.
pub open spec fn is_space(c: char) -> bool {
    let u = c as u32;
    ||| (0x09 <= u && u <= 0x0d)
    ||| u == 0x20
    ||| u == 0x85
    ||| u == 0xa0
    ||| u == 0x1680
    ||| (0x2000 <= u && u <= 0x200a)
    ||| u == 0x2028
    ||| u == 0x2029
    ||| u == 0x202f
    ||| u == 0x205f
    ||| u == 0x3000
}

pub fn is_whitespace(c: char) -> (r: bool)
    ensures
        r == is_space(c),
{
    let u: u32 = c as u32;
    (0x09 <= u && u <= 0x0d) || u == 0x20 || u == 0x85 || u == 0xa0 || u == 0x1680 || (0x2000 <= u
        && u <= 0x200a) || u == 0x2028 || u == 0x2029 || u == 0x202f || u == 0x205f || u == 0x3000
}

/// The characters of a string, in order.
pub fn chars_of(s: &str) -> (v: Vec<char>)
    ensures
        v@ == s@,
{
    broadcast use vstd::string::group_string_axioms;

    let mut it = s.chars();
    let mut v: Vec<char> = Vec::new();
    loop
        invariant
            v@ + it.remaining() == s@,
            it.obeys_prophetic_iter_laws(),
            it.decrease() is Some,
        ensures
            v@ == s@,
        decreases it.decrease()->0,
    {
        let ghost before = it.remaining();
        match it.next() {
            Some(c) => {
                assert(v@.push(c) + before.drop_first() =~= v@ + before);
                v.push(c);
            },
            None => {
                assert(v@ + before =~= v@);
                assert(v@ == s@);
                break ;
            },
        }
    }
    v
}

/// Appends one character to a string with `String::push`: the string
/// then holds what it held, and the character after it.
#[verifier::external_body]
fn push_char(s: &mut String, c: char)
    ensures
        final(s)@ == old(s)@.push(c),
{
    s.push(c);
}

/// The string that holds the given characters, in order.
pub fn string_of(v: &Vec<char>) -> (s: String)
    ensures
        s@ == v@,
{
    let mut s = String::new();
    let mut i: usize = 0;
    while i < v.len()
        invariant
            i <= v@.len(),
            s@ == v@.subrange(0, i as int),
        decreases v@.len() - i,
    {
        push_char(&mut s, v[i]);
        assert(s@ =~= v@.subrange(0, i + 1));
        i += 1;
    }
    assert(v@.subrange(0, v@.len() as int) =~= v@);
    s
}

/// A copy of `v[from..to]`.
pub(crate) fn slice_of(v: &Vec<char>, from: usize, to: usize) -> (r: Vec<char>)
    requires
        from <= to <= v@.len(),
    ensures
        r@ == v@.subrange(from as int, to as int),
{
    let mut r: Vec<char> = Vec::new();
    let mut i: usize = from;
    while i < to
        invariant
            from <= i <= to <= v@.len(),
            r@ == v@.subrange(from as int, i as int),
        decreases to - i,
    {
        r.push(v[i]);
        assert(r@ =~= v@.subrange(from as int, i + 1));
        i += 1;
    }
    r
}

/// Appends the characters of `tail` to `out`.
pub fn append_chars(out: &mut Vec<char>, tail: &Vec<char>)
    ensures
        final(out)@ == old(out)@ + tail@,
{
    let mut i: usize = 0;
    while i < tail.len()
        invariant
            i <= tail@.len(),
            out@ == old(out)@ + tail@.subrange(0, i as int),
        decreases tail@.len() - i,
    {
        out.push(tail[i]);
        assert(out@ =~= old(out)@ + tail@.subrange(0, i + 1));
        i += 1;
    }
    assert(tail@.subrange(0, tail@.len() as int) =~= tail@);
}

/// Whether two character vectors hold the same characters.
pub fn same_chars(a: &Vec<char>, b: &Vec<char>) -> (r: bool)
    ensures
        r == (a@ == b@),
{
    if a.len() != b.len() {
        return false;
    }
    let mut i: usize = 0;
    while i < a.len()
        invariant
            i <= a@.len(),
            a@.len() == b@.len(),
            forall|k: int| 0 <= k < i ==> a@[k] == b@[k],
        decreases a@.len() - i,
    {
        if a[i] != b[i] {
            return false;
        }
        i += 1;
    }
    assert(a@ =~= b@);
    true
}

/// Whether `a` spells the string `lit`.
pub fn is_word(a: &Vec<char>, lit: &str) -> (r: bool)
    ensures
        r == (a@ == lit@),
{
    let b = chars_of(lit);
    same_chars(a, &b)
}

/// The least index at or after `from` where `s` holds `c`, or the length
/// of `s` where there is none.
pub open spec fn find_from(s: Seq<char>, c: char, from: int) -> int
    decreases s.len() - from,
{
    if from < 0 || from >= s.len() {
        s.len() as int
    } else if s[from] == c {
        from
    } else {
        find_from(s, c, from + 1)
    }
}

pub proof fn lemma_find_from(s: Seq<char>, c: char, from: int)
    requires
        0 <= from <= s.len(),
    ensures
        from <= find_from(s, c, from) <= s.len(),
        find_from(s, c, from) < s.len() ==> s[find_from(s, c, from)] == c,
        forall|i: int| from <= i < find_from(s, c, from) ==> s[i] != c,
    decreases s.len() - from,
{
    if from < s.len() && s[from] != c {
        lemma_find_from(s, c, from + 1);
    }
}

pub(crate) fn find_char(v: &Vec<char>, c: char, from: usize) -> (r: usize)
    requires
        from <= v@.len(),
    ensures
        r == find_from(v@, c, from as int),
        from <= r <= v@.len(),
        r < v@.len() ==> v@[r as int] == c,
        forall|i: int| from <= i < r ==> v@[i] != c,
{
    let mut i: usize = from;
    while i < v.len() && v[i] != c
        invariant
            from <= i <= v@.len(),
            find_from(v@, c, from as int) == find_from(v@, c, i as int),
            forall|k: int| from <= k < i ==> v@[k] != c,
        decreases v@.len() - i,
    {
        i += 1;
    }
    i
}

/// One more than the greatest index below `upto` where `s` holds `c`, or
/// zero where there is none.
pub open spec fn rfind_end(s: Seq<char>, c: char, upto: int) -> int
    decreases upto,
{
    if upto <= 0 || upto > s.len() {
        0
    } else if s[upto - 1] == c {
        upto
    } else {
        rfind_end(s, c, upto - 1)
    }
}

pub fn rfind_char(v: &Vec<char>, c: char) -> (r: usize)
    ensures
        r == rfind_end(v@, c, v@.len() as int),
        r <= v@.len(),
        r > 0 ==> v@[r - 1] == c,
        forall|i: int| r <= i < v@.len() ==> v@[i] != c,
{
    let mut i: usize = v.len();
    while i > 0 && v[i - 1] != c
        invariant
            i <= v@.len(),
            rfind_end(v@, c, v@.len() as int) == rfind_end(v@, c, i as int),
            forall|k: int| i <= k < v@.len() ==> v@[k] != c,
        decreases i,
    {
        i -= 1;
    }
    i
}

/// The least index at or after `from` that holds no white space, or the
/// length of `s`.
pub open spec fn skip_space(s: Seq<char>, from: int) -> int
    decreases s.len() - from,
{
    if from < 0 || from >= s.len() {
        s.len() as int
    } else if !is_space(s[from]) {
        from
    } else {
        skip_space(s, from + 1)
    }
}

/// The least index at or after `from` that holds white space, or the
/// length of `s`.
pub open spec fn skip_word(s: Seq<char>, from: int) -> int
    decreases s.len() - from,
{
    if from < 0 || from >= s.len() {
        s.len() as int
    } else if is_space(s[from]) {
        from
    } else {
        skip_word(s, from + 1)
    }
}

pub(crate) fn skip_space_from(v: &Vec<char>, from: usize) -> (r: usize)
    requires
        from <= v@.len(),
    ensures
        r == skip_space(v@, from as int),
        from <= r <= v@.len(),
{
    let mut i: usize = from;
    while i < v.len() && is_whitespace(v[i])
        invariant
            from <= i <= v@.len(),
            skip_space(v@, from as int) == skip_space(v@, i as int),
        decreases v@.len() - i,
    {
        i += 1;
    }
    i
}

pub(crate) fn skip_word_from(v: &Vec<char>, from: usize) -> (r: usize)
    requires
        from <= v@.len(),
    ensures
        r == skip_word(v@, from as int),
        from <= r <= v@.len(),
{
    let mut i: usize = from;
    while i < v.len() && !is_whitespace(v[i])
        invariant
            from <= i <= v@.len(),
            skip_word(v@, from as int) == skip_word(v@, i as int),
        decreases v@.len() - i,
    {
        i += 1;
    }
    i
}

/// The `n`-th word of `s` (counting from zero) among the words that white
/// space separates at or after `from`, if there are that many.
pub open spec fn nth_word(s: Seq<char>, from: int, n: nat) -> Option<Seq<char>>
    decreases n,
{
    let start = skip_space(s, from);
    let end = skip_word(s, start);
    if from < 0 || start >= s.len() {
        None
    } else if n == 0 {
        Some(s.subrange(start, end))
    } else {
        nth_word(s, end, (n - 1) as nat)
    }
}

pub(crate) fn word_at(v: &Vec<char>, from: usize, n: usize) -> (r: Option<Vec<char>>)
    requires
        from <= v@.len(),
    ensures
        r is Some == nth_word(v@, from as int, n as nat) is Some,
        r is Some ==> r->0@ == nth_word(v@, from as int, n as nat)->0,
{
    let mut pos: usize = from;
    let mut left: usize = n;
    loop
        invariant
            pos <= v@.len(),
            left <= n,
            nth_word(v@, from as int, n as nat) == nth_word(v@, pos as int, left as nat),
        decreases left,
    {
        let start = skip_space_from(v, pos);
        if start >= v.len() {
            return None;
        }
        let end = skip_word_from(v, start);
        if left == 0 {
            return Some(slice_of(v, start, end));
        }
        pos = end;
        left -= 1;
    }
}

/// `s` without the white space at its two ends.
pub open spec fn trimmed(s: Seq<char>) -> Seq<char> {
    let start = skip_space(s, 0);
    s.subrange(start, trim_end(s, start, s.len() as int))
}

/// The least `end` at or above `low` such that `s[end..upto]` is all
/// white space.
pub open spec fn trim_end(s: Seq<char>, low: int, upto: int) -> int
    decreases upto - low,
{
    if upto <= low || upto > s.len() || low < 0 {
        low
    } else if !is_space(s[upto - 1]) {
        upto
    } else {
        trim_end(s, low, upto - 1)
    }
}

pub fn trim(v: &Vec<char>) -> (r: Vec<char>)
    ensures
        r@ == trimmed(v@),
{
    let start = skip_space_from(v, 0);
    let mut end: usize = v.len();
    while end > start && is_whitespace(v[end - 1])
        invariant
            start <= end <= v@.len(),
            trim_end(v@, start as int, v@.len() as int) == trim_end(v@, start as int, end as int),
        decreases end,
    {
        end -= 1;
    }
    slice_of(v, start, end)
}

/// The value of a decimal digit.
pub open spec fn digit_value(c: char) -> int {
    c as u32 - 48
}

pub open spec fn is_digit(c: char) -> bool {
    48 <= c as u32 <= 57
}

pub open spec fn all_digits(s: Seq<char>) -> bool {
    forall|i: int| 0 <= i < s.len() ==> is_digit(#[trigger] s[i])
}

/// The number that a string of decimal digits writes.
pub open spec fn digits_value(s: Seq<char>) -> int
    decreases s.len(),
{
    if s.len() == 0 {
        0
    } else {
        digits_value(s.drop_last()) * 10 + digit_value(s.last())
    }
}

/// What a decimal number with an optional sign denotes, where it lies
/// between `lo` and `hi`: `+` may lead any number, `-` only where `lo` is
/// negative; at least one digit follows, and nothing else.
pub open spec fn parse_decimal(s: Seq<char>, lo: int, hi: int) -> Option<int> {
    let signed = s.len() > 0 && (s[0] == '+' || (s[0] == '-' && lo < 0));
    let body = if signed {
        s.subrange(1, s.len() as int)
    } else {
        s
    };
    let value = if signed && s[0] == '-' {
        -digits_value(body)
    } else {
        digits_value(body)
    };
    if body.len() > 0 && all_digits(body) && lo <= value <= hi {
        Some(value)
    } else {
        None
    }
}

pub proof fn lemma_digits_value_prefix(s: Seq<char>, k: int)
    requires
        all_digits(s),
        0 <= k <= s.len(),
    ensures
        0 <= digits_value(s.subrange(0, k)) <= digits_value(s),
    decreases s.len() - k,
{
    if k == s.len() {
        assert(s.subrange(0, k) =~= s);
        lemma_digits_nonneg(s);
    } else {
        lemma_digits_value_prefix(s, k + 1);
        let t = s.subrange(0, k + 1);
        assert(t.drop_last() =~= s.subrange(0, k));
        assert(is_digit(s[k]));
        lemma_digits_nonneg(s.subrange(0, k));
    }
}

pub proof fn lemma_digits_nonneg(s: Seq<char>)
    requires
        all_digits(s),
    ensures
        digits_value(s) >= 0,
    decreases s.len(),
{
    if s.len() > 0 {
        lemma_digits_nonneg(s.drop_last());
        assert(is_digit(s.last()));
    }
}

/// Reads `v[from..]` as decimal digits: the number, where every character
/// is a digit, there is at least one, and the number is at most `limit`.
fn parse_digits(v: &Vec<char>, from: usize, limit: u64) -> (r: Option<u64>)
    requires
        from <= v@.len(),
    ensures
        r is Some <==> {
            let body = v@.subrange(from as int, v@.len() as int);
            body.len() > 0 && all_digits(body) && digits_value(body) <= limit
        },
        r is Some ==> r->0 == digits_value(v@.subrange(from as int, v@.len() as int)),
{
    let ghost body = v@.subrange(from as int, v@.len() as int);
    if from == v.len() {
        return None;
    }
    let mut acc: u64 = 0;
    let mut i: usize = from;
    while i < v.len()
        invariant
            from <= i <= v@.len(),
            body == v@.subrange(from as int, v@.len() as int),
            all_digits(body.subrange(0, i - from)),
            acc == digits_value(body.subrange(0, i - from)),
            acc <= limit,
        decreases v@.len() - i,
    {
        let u: u32 = v[i] as u32;
        if u < 48 || u > 57 {
            assert(!is_digit(body[i - from]));
            return None;
        }
        let ghost next = body.subrange(0, i + 1 - from);
        assert(next.drop_last() =~= body.subrange(0, i - from));
        assert(next.last() == v@[i as int]);
        assert(all_digits(next)) by {
            assert forall|k: int| 0 <= k < next.len() implies is_digit(#[trigger] next[k]) by {
                if k < next.len() - 1 {
                    assert(next[k] == body.subrange(0, i - from)[k]);
                }
            }
        }
        let d: u64 = (u - 48) as u64;
        proof {
            if all_digits(body) {
                lemma_digits_value_prefix(body, i + 1 - from);
            }
        }
        if acc > limit / 10 {
            return None;
        }
        let shifted: u64 = acc * 10;
        if d > limit - shifted {
            return None;
        }
        acc = shifted + d;
        i += 1;
    }
    assert(body.subrange(0, i - from) =~= body);
    Some(acc)
}

/// Parses an unsigned decimal number that fits 64 bits.
pub fn parse_u64(v: &Vec<char>) -> (r: Option<u64>)
    ensures
        r is Some <==> parse_decimal(v@, 0, u64::MAX as int) is Some,
        r is Some ==> r->0 == parse_decimal(v@, 0, u64::MAX as int)->0,
{
    let from: usize = if v.len() > 0 && v[0] == '+' {
        1
    } else {
        0
    };
    assert(v@.subrange(0, v@.len() as int) =~= v@);
    proof {
        let body = v@.subrange(from as int, v@.len() as int);
        if all_digits(body) {
            lemma_digits_nonneg(body);
        }
    }
    parse_digits(v, from, 0xffff_ffff_ffff_ffff)
}

/// Parses an unsigned decimal number that fits 32 bits.
pub fn parse_u32(v: &Vec<char>) -> (r: Option<u32>)
    ensures
        r is Some <==> parse_decimal(v@, 0, u32::MAX as int) is Some,
        r is Some ==> r->0 == parse_decimal(v@, 0, u32::MAX as int)->0,
{
    let from: usize = if v.len() > 0 && v[0] == '+' {
        1
    } else {
        0
    };
    assert(v@.subrange(0, v@.len() as int) =~= v@);
    proof {
        let body = v@.subrange(from as int, v@.len() as int);
        if all_digits(body) {
            lemma_digits_nonneg(body);
        }
    }
    match parse_digits(v, from, 0xffff_ffff) {
        Some(n) => Some(n as u32),
        None => None,
    }
}

/// Parses a signed decimal number that fits 32 bits.
pub fn parse_i32(v: &Vec<char>) -> (r: Option<i32>)
    ensures
        r is Some <==> parse_decimal(v@, i32::MIN as int, i32::MAX as int) is Some,
        r is Some ==> r->0 == parse_decimal(v@, i32::MIN as int, i32::MAX as int)->0,
{
    let negative = v.len() > 0 && v[0] == '-';
    let from: usize = if v.len() > 0 && (v[0] == '+' || v[0] == '-') {
        1
    } else {
        0
    };
    assert(v@.subrange(0, v@.len() as int) =~= v@);
    proof {
        let body = v@.subrange(from as int, v@.len() as int);
        if all_digits(body) {
            lemma_digits_nonneg(body);
        }
    }
    if negative {
        match parse_digits(v, from, 0x8000_0000) {
            Some(n) => Some((0 - (n as i64)) as i32),
            None => None,
        }
    } else {
        match parse_digits(v, from, 0x7fff_ffff) {
            Some(n) => Some(n as i32),
            None => None,
        }
    }
}

/// The character that writes the digit `d`.
pub open spec fn digit_char(d: int) -> char {
    if d == 0 {
        '0'
    } else if d == 1 {
        '1'
    } else if d == 2 {
        '2'
    } else if d == 3 {
        '3'
    } else if d == 4 {
        '4'
    } else if d == 5 {
        '5'
    } else if d == 6 {
        '6'
    } else if d == 7 {
        '7'
    } else if d == 8 {
        '8'
    } else {
        '9'
    }
}

/// The decimal digits of `n`, without leading zeros.
pub open spec fn decimal(n: nat) -> Seq<char>
    decreases n,
{
    if n < 10 {
        seq![digit_char(n as int)]
    } else {
        decimal(n / 10).push(digit_char((n % 10) as int))
    }
}

fn digit_to_char(d: u64) -> (c: char)
    requires
        d < 10,
    ensures
        c == digit_char(d as int),
{
    if d == 0 {
        '0'
    } else if d == 1 {
        '1'
    } else if d == 2 {
        '2'
    } else if d == 3 {
        '3'
    } else if d == 4 {
        '4'
    } else if d == 5 {
        '5'
    } else if d == 6 {
        '6'
    } else if d == 7 {
        '7'
    } else if d == 8 {
        '8'
    } else {
        '9'
    }
}

/// Appends `n` in decimal to `out`.
pub fn push_decimal(out: &mut Vec<char>, n: u64)
    ensures
        final(out)@ == old(out)@ + decimal(n as nat),
    decreases n,
{
    if n >= 10 {
        push_decimal(out, n / 10);
    }
    out.push(digit_to_char(n % 10));
    assert(out@ =~= old(out)@ + decimal(n as nat));
}

} // verus!
