//! Character-level string helpers shared by the parsers: conversion between
//! `&str`/`String` and character vectors, substring search, decimal numbers.
use vstd::prelude::*;

verus! {

// ───────────────────────────── specifications ─────────────────────────────

/// `needle` occurs in `hay` starting at character index `i`.
pub open spec fn occurs_at(hay: Seq<char>, needle: Seq<char>, i: int) -> bool {
    0 <= i && i + needle.len() <= hay.len() && hay.subrange(i, i + needle.len()) == needle
}

/// `needle` occurs somewhere in `hay` (`str::contains`).
pub open spec fn contains(hay: Seq<char>, needle: Seq<char>) -> bool {
    exists|i: int| occurs_at(hay, needle, i)
}

/// `hay` begins with `prefix` (`str::starts_with`).
pub open spec fn starts_with(hay: Seq<char>, prefix: Seq<char>) -> bool {
    occurs_at(hay, prefix, 0)
}

/// `hay` ends with `suffix` (`str::ends_with`).
pub open spec fn ends_with(hay: Seq<char>, suffix: Seq<char>) -> bool {
    occurs_at(hay, suffix, hay.len() - suffix.len())
}

/// Index of the first occurrence of `needle` in `hay` (`str::find`).
pub open spec fn first_index(hay: Seq<char>, needle: Seq<char>) -> Option<int> {
    if contains(hay, needle) {
        Some(choose|i: int| occurs_at(hay, needle, i) && forall|j: int| 0 <= j < i ==> !occurs_at(hay, needle, j))
    } else {
        None
    }
}

/// Index of the last occurrence of `needle` in `hay` (`str::rfind`).
pub open spec fn last_index(hay: Seq<char>, needle: Seq<char>) -> Option<int> {
    if contains(hay, needle) {
        Some(choose|i: int| occurs_at(hay, needle, i) && forall|j: int| i < j <= hay.len() ==> !occurs_at(hay, needle, j))
    } else {
        None
    }
}

/// Index of the last occurrence of the character `c` in `s`.
pub open spec fn last_char_index(s: Seq<char>, c: char) -> Option<int> {
    if exists|i: int| 0 <= i < s.len() && s[i] == c {
        Some(choose|i: int| 0 <= i < s.len() && s[i] == c && forall|j: int| i < j < s.len() ==> s[j] != c)
    } else {
        None
    }
}

/// What follows the last `c` in `s`, or all of `s` when it holds no `c`
/// (`s.rsplit(c).next()`).
pub open spec fn after_last(s: Seq<char>, c: char) -> Seq<char> {
    match last_char_index(s, c) {
        Some(i) => s.subrange(i + 1, s.len() as int),
        None => s,
    }
}

/// What precedes the last `c` in `s`, or all of `s` when it holds no `c`
/// (`s.rsplit_once(c).map_or(s, |(a, _)| a)`).
pub open spec fn before_last(s: Seq<char>, c: char) -> Seq<char> {
    match last_char_index(s, c) {
        Some(i) => s.subrange(0, i),
        None => s,
    }
}

/// ASCII decimal digit.
pub open spec fn is_digit(c: char) -> bool {
    '0' <= c <= '9'
}

pub open spec fn digit_value(c: char) -> nat {
    (c as int - '0' as int) as nat
}

pub open spec fn all_digits(s: Seq<char>) -> bool {
    forall|i: int| 0 <= i < s.len() ==> is_digit(#[trigger] s[i])
}

/// Value of a string of decimal digits.
pub open spec fn digits_value(s: Seq<char>) -> nat
    decreases s.len(),
{
    if s.len() == 0 {
        0
    } else {
        digits_value(s.drop_last()) * 10 + digit_value(s.last())
    }
}

/// What `str::parse` gives for an unsigned integer type whose largest value is
/// `max`: an optional `+`, then one or more digits, and a value that fits.
pub open spec fn parse_unsigned(s: Seq<char>, max: int) -> Option<nat> {
    let body = if s.len() > 0 && s[0] == '+' { s.drop_first() } else { s };
    if body.len() > 0 && all_digits(body) && digits_value(body) <= max {
        Some(digits_value(body))
    } else {
        None
    }
}

/// The character of a digit value below ten.
pub open spec fn digit_char(d: nat) -> char {
    (d + '0' as nat) as char
}

/// Decimal representation of `n` without leading zeros (`n.to_string()`).
pub open spec fn decimal(n: nat) -> Seq<char>
    decreases n,
{
    if n < 10 {
        seq![digit_char(n)]
    } else {
        decimal(n / 10).push(digit_char(n % 10))
    }
}

/// Decimal representation of a signed integer, with a leading `-` when negative.
pub open spec fn signed_decimal(n: int) -> Seq<char> {
    if n < 0 {
        seq!['-'].add(decimal((-n) as nat))
    } else {
        decimal(n as nat)
    }
}

// ───────────────────────────── conversions ─────────────────────────────

/// The characters of a string slice, in order.
pub fn chars_of(s: &str) -> (res: Vec<char>)
    ensures
        res@ == s@,
{
    let mut res: Vec<char> = Vec::new();
    for c in it: s.chars()
        invariant
            res@ == it.seq().take(it.index() as int),
            it.seq() == s@,
    {
        res.push(c);
    }
    res
}

/// Appends one character to a string (`String::push`).
#[verifier::external_body]
pub(crate) fn push_char(s: &mut String, c: char)
    ensures
        final(s)@ == old(s)@.push(c),
{
    s.push(c);
}

/// Appends a string slice to a string.
pub fn push_str(s: &mut String, t: &str)
    ensures
        final(s)@ == old(s)@ + t@,
{
    let cs = chars_of(t);
    push_chars(s, &cs);
}

/// Appends characters to a string.
pub fn push_chars(s: &mut String, cs: &[char])
    ensures
        final(s)@ == old(s)@ + cs@,
{
    let ghost start = s@;
    let mut i: usize = 0;
    while i < cs.len()
        invariant
            i <= cs.len(),
            s@ == start + cs@.take(i as int),
        decreases cs.len() - i,
    {
        push_char(s, cs[i]);
        i += 1;
        assert(cs@.take(i as int) == cs@.take(i - 1).push(cs@[i - 1]));
    }
    assert(cs@.take(cs.len() as int) == cs@);
}

/// Builds a string from a sequence of characters.
pub fn string_from_chars(cs: &[char]) -> (res: String)
    ensures
        res@ == cs@,
{
    let mut res = String::new();
    push_chars(&mut res, cs);
    res
}

/// An owned copy of a string slice.
pub fn to_string(s: &str) -> (res: String)
    ensures
        res@ == s@,
{
    let cs = chars_of(s);
    string_from_chars(&cs)
}

/// The characters `cs[from..to]` as a new vector.
pub fn slice_chars(cs: &[char], from: usize, to: usize) -> (res: Vec<char>)
    requires
        from <= to <= cs.len(),
    ensures
        res@ == cs@.subrange(from as int, to as int),
{
    let mut res: Vec<char> = Vec::new();
    let mut i = from;
    while i < to
        invariant
            from <= i <= to <= cs.len(),
            res@ == cs@.subrange(from as int, i as int),
        decreases to - i,
    {
        res.push(cs[i]);
        i += 1;
    }
    res
}

/// What `String::from_utf8_lossy` makes of a byte sequence.
pub uninterp spec fn utf8_lossy(bytes: Seq<u8>) -> Seq<char>;

/// Calls `String::from_utf8_lossy`. The result is named [`utf8_lossy`], a
/// function of the bytes alone; as documented, valid UTF-8 is decoded as is.
/// How invalid sequences are replaced by U+FFFD is not written out.
#[verifier::external_body]
pub(crate) fn from_utf8_lossy(bytes: &[u8]) -> (res: String)
    ensures
        res@ == utf8_lossy(bytes@),
        vstd::utf8::valid_utf8(bytes@) ==> res@ == vstd::utf8::decode_utf8(bytes@),
{
    String::from_utf8_lossy(bytes).into_owned()
}

/// Calls `std::str::from_utf8`: the text the bytes encode when they are valid
/// UTF-8, else nothing.
#[verifier::external_body]
pub fn str_from_utf8(bytes: &[u8]) -> (res: Option<&str>)
    ensures
        res is Some <==> vstd::utf8::valid_utf8(bytes@),
        res matches Some(s) ==> s@ == vstd::utf8::decode_utf8(bytes@),
{
    std::str::from_utf8(bytes).ok()
}

/// A copy of the bytes `b[from..to]`.
pub fn slice_bytes(b: &[u8], from: usize, to: usize) -> (res: Vec<u8>)
    requires
        from <= to <= b.len(),
    ensures
        res@ == b@.subrange(from as int, to as int),
{
    let mut res: Vec<u8> = Vec::new();
    let mut i = from;
    while i < to
        invariant
            from <= i <= to <= b.len(),
            res@ == b@.subrange(from as int, i as int),
        decreases to - i,
    {
        res.push(b[i]);
        i += 1;
    }
    res
}

/// Lower-case form of a string as `str::to_lowercase` computes it.
pub uninterp spec fn lowercase(s: Seq<char>) -> Seq<char>;

/// Every character is ASCII.
pub open spec fn all_ascii(s: Seq<char>) -> bool {
    forall|i: int| 0 <= i < s.len() ==> (#[trigger] s[i] as u32) < 128
}

/// `A`..`Z` to `a`..`z`; every other character unchanged.
pub open spec fn ascii_lower(c: char) -> char {
    if 'A' <= c <= 'Z' {
        ((c as u32) + 32) as char
    } else {
        c
    }
}

/// `a`..`z` to `A`..`Z`; every other character unchanged.
pub open spec fn ascii_upper(c: char) -> char {
    if 'a' <= c <= 'z' {
        ((c as u32) - 32) as char
    } else {
        c
    }
}

/// Calls `str::to_lowercase`. Its result is named [`lowercase`], a function of
/// the argument's characters alone. Of the Unicode case mapping only its ASCII
/// part is stated: on an all-ASCII string, `A`..`Z` become `a`..`z` and every
/// other character stays; what it does to other characters is not written out.
#[verifier::external_body]
pub(crate) fn to_lowercase(s: &str) -> (res: String)
    ensures
        res@ == lowercase(s@),
        all_ascii(s@) ==> res@ == s@.map_values(|c: char| ascii_lower(c)),
{
    s.to_lowercase()
}

/// Upper-case form of a string as `str::to_uppercase` computes it.
pub uninterp spec fn uppercase(s: Seq<char>) -> Seq<char>;

/// Calls `str::to_uppercase`. Its result is named [`uppercase`], a function of
/// the argument's characters alone. Of the Unicode case mapping only its ASCII
/// part is stated: on an all-ASCII string, `a`..`z` become `A`..`Z` and every
/// other character stays; what it does to other characters is not written out.
#[verifier::external_body]
pub(crate) fn to_uppercase(s: &str) -> (res: String)
    ensures
        res@ == uppercase(s@),
        all_ascii(s@) ==> res@ == s@.map_values(|c: char| ascii_upper(c)),
{
    s.to_uppercase()
}

// ───────────────────────────── search ─────────────────────────────

/// Whether `needle` occurs in `hay` at index `i`.
pub fn occurs_at_exec(hay: &[char], needle: &[char], i: usize) -> (res: bool)
    ensures
        res == occurs_at(hay@, needle@, i as int),
{
    if i > hay.len() || needle.len() > hay.len() - i {
        return false;
    }
    let mut k: usize = 0;
    while k < needle.len()
        invariant
            k <= needle.len(),
            i + needle.len() <= hay.len(),
            forall|m: int| 0 <= m < k ==> hay@[i + m] == needle@[m],
        decreases needle.len() - k,
    {
        if hay[i + k] != needle[k] {
            assert(hay@.subrange(i as int, i + needle.len())[k as int] != needle@[k as int]);
            return false;
        }
        k += 1;
    }
    assert(hay@.subrange(i as int, i + needle.len()) =~= needle@);
    true
}

/// Index of the first occurrence of `needle` in `hay`.
pub fn find_chars(hay: &[char], needle: &[char]) -> (res: Option<usize>)
    ensures
        res matches Some(i) ==> occurs_at(hay@, needle@, i as int) && forall|j: int|
            0 <= j < i ==> !occurs_at(hay@, needle@, j),
        res is None ==> !contains(hay@, needle@),
        res matches Some(i) ==> first_index(hay@, needle@) == Some(i as int),
        res is None ==> first_index(hay@, needle@) is None,
{
    if needle.len() == 0 {
        assert(hay@.subrange(0, 0) =~= needle@);
        proof {
            let w = choose|w: int| occurs_at(hay@, needle@, w) && forall|j: int| 0 <= j < w ==> !occurs_at(hay@, needle@, j);
            assert(occurs_at(hay@, needle@, 0));
            if w > 0 { assert(!occurs_at(hay@, needle@, 0)); }
        }
        return Some(0);
    }
    let mut i: usize = 0;
    while i < hay.len()
        invariant
            i <= hay.len(),
            needle.len() > 0,
            forall|j: int| 0 <= j < i ==> !occurs_at(hay@, needle@, j),
        decreases hay.len() - i,
    {
        if occurs_at_exec(hay, needle, i) {
            proof {
                let w = choose|w: int| occurs_at(hay@, needle@, w) && forall|j: int| 0 <= j < w ==> !occurs_at(hay@, needle@, j);
                assert(occurs_at(hay@, needle@, i as int) && forall|j: int| 0 <= j < i ==> !occurs_at(hay@, needle@, j));
                if w < i { } else if w > i { assert(!occurs_at(hay@, needle@, i as int)); }
            }
            return Some(i);
        }
        i += 1;
    }
    proof {
        assert forall|j: int| !occurs_at(hay@, needle@, j) by {
            if 0 <= j < i { } else { }
        }
    }
    None
}

/// Index of the last occurrence of `needle` in `hay`.
pub fn rfind_chars(hay: &[char], needle: &[char]) -> (res: Option<usize>)
    ensures
        res matches Some(i) ==> occurs_at(hay@, needle@, i as int) && forall|j: int|
            i < j <= hay.len() ==> !occurs_at(hay@, needle@, j),
        res is None ==> !contains(hay@, needle@),
        res matches Some(i) ==> last_index(hay@, needle@) == Some(i as int),
        res is None ==> last_index(hay@, needle@) is None,
{
    if needle.len() == 0 {
        assert(hay@.subrange(hay.len() as int, hay.len() as int) =~= needle@);
        proof {
            let w = choose|w: int| occurs_at(hay@, needle@, w) && forall|j: int| w < j <= hay.len() ==> !occurs_at(hay@, needle@, j);
            assert(occurs_at(hay@, needle@, hay.len() as int));
            if w < hay.len() { assert(!occurs_at(hay@, needle@, hay.len() as int)); }
        }
        return Some(hay.len());
    }
    let mut i: usize = hay.len();
    while i > 0
        invariant
            i <= hay.len(),
            needle.len() > 0,
            forall|j: int| i <= j <= hay.len() ==> !occurs_at(hay@, needle@, j),
        decreases i,
    {
        i -= 1;
        if occurs_at_exec(hay, needle, i) {
            proof {
                let w = choose|w: int| occurs_at(hay@, needle@, w) && forall|j: int| w < j <= hay.len() ==> !occurs_at(hay@, needle@, j);
                assert(occurs_at(hay@, needle@, i as int) && forall|j: int| i < j <= hay.len() ==> !occurs_at(hay@, needle@, j));
                if w < i { assert(!occurs_at(hay@, needle@, i as int)); } else if w > i { }
            }
            return Some(i);
        }
    }
    proof {
        assert forall|j: int| !occurs_at(hay@, needle@, j) by {
            if 0 <= j <= hay.len() { } else { }
        }
    }
    None
}

/// Whether `needle` occurs in `hay`.
pub fn contains_chars(hay: &[char], needle: &[char]) -> (res: bool)
    ensures
        res == contains(hay@, needle@),
{
    find_chars(hay, needle).is_some()
}

/// Whether the string slice `needle` occurs in `hay`.
pub fn contains_str(hay: &[char], needle: &str) -> (res: bool)
    ensures
        res == contains(hay@, needle@),
{
    let n = chars_of(needle);
    contains_chars(hay, &n)
}

/// Whether `hay` begins with the string slice `prefix`.
pub fn starts_with_str(hay: &[char], prefix: &str) -> (res: bool)
    ensures
        res == starts_with(hay@, prefix@),
{
    let p = chars_of(prefix);
    occurs_at_exec(hay, &p, 0)
}

/// Whether `hay` ends with the string slice `suffix`.
pub fn ends_with_str(hay: &[char], suffix: &str) -> (res: bool)
    ensures
        res == ends_with(hay@, suffix@),
{
    let p = chars_of(suffix);
    if p.len() > hay.len() {
        return false;
    }
    occurs_at_exec(hay, &p, hay.len() - p.len())
}

/// Whether `a` holds exactly the characters of `b`.
pub fn eq_str(a: &[char], b: &str) -> (res: bool)
    ensures
        res == (a@ == b@),
{
    let p = chars_of(b);
    if p.len() != a.len() {
        return false;
    }
    let r = occurs_at_exec(a, &p, 0);
    proof {
        if r {
            assert(a@.subrange(0, a@.len() as int) =~= a@);
        } else {
            assert(a@.subrange(0, a@.len() as int) =~= a@);
        }
    }
    r
}

/// Whether two character sequences are equal.
pub fn eq_chars(a: &[char], b: &[char]) -> (res: bool)
    ensures
        res == (a@ == b@),
{
    if a.len() != b.len() {
        return false;
    }
    let r = occurs_at_exec(a, b, 0);
    assert(a@.subrange(0, a@.len() as int) =~= a@);
    r
}

/// Index of the last occurrence of character `c` in `s`.
pub fn rfind_char(s: &[char], c: char) -> (res: Option<usize>)
    ensures
        res matches Some(i) ==> last_char_index(s@, c) == Some(i as int) && i < s.len(),
        res is None ==> last_char_index(s@, c) is None,
{
    let mut i: usize = s.len();
    while i > 0
        invariant
            i <= s.len(),
            forall|j: int| i <= j < s.len() ==> s@[j] != c,
        decreases i,
    {
        i -= 1;
        if s[i] == c {
            proof {
                let w = choose|w: int| 0 <= w < s@.len() && s@[w] == c && forall|j: int| w < j < s@.len() ==> s@[j] != c;
                assert(0 <= i < s@.len() && s@[i as int] == c);
                if w < i { } else if w > i { }
            }
            return Some(i);
        }
    }
    None
}

/// What follows the last `c` in `s`, or all of `s` when it holds no `c`.
pub fn after_last_exec(s: &[char], c: char) -> (res: Vec<char>)
    ensures
        res@ == after_last(s@, c),
{
    match rfind_char(s, c) {
        Some(i) => slice_chars(s, i + 1, s.len()),
        None => slice_chars(s, 0, s.len()),
    }
}

/// What precedes the last `c` in `s`, or all of `s` when it holds no `c`.
pub fn before_last_exec(s: &[char], c: char) -> (res: Vec<char>)
    ensures
        res@ == before_last(s@, c),
{
    match rfind_char(s, c) {
        Some(i) => slice_chars(s, 0, i),
        None => slice_chars(s, 0, s.len()),
    }
}

/// What precedes the first `c` in `s`, or all of `s` when it holds no `c`
/// (`s.split(c).next()`).
pub open spec fn before_first(s: Seq<char>, c: char) -> Seq<char> {
    match first_index(s, seq![c]) {
        Some(i) => s.subrange(0, i),
        None => s,
    }
}

/// What follows the first `c` in `s`, or nothing when it holds no `c`.
pub open spec fn after_first(s: Seq<char>, c: char) -> Seq<char> {
    match first_index(s, seq![c]) {
        Some(i) => s.subrange(i + 1, s.len() as int),
        None => Seq::empty(),
    }
}

/// Splits `s` at its first `c` (`str::split_once`): the parts before and
/// after it, or `None` when `s` holds no `c`.
pub fn split_once_char(s: &[char], c: char) -> (res: Option<(Vec<char>, Vec<char>)>)
    ensures
        res is Some <==> first_index(s@, seq![c]) is Some,
        res matches Some(p) ==> p.0@ == before_first(s@, c) && p.1@ == after_first(s@, c)
            && p.1@.len() < s@.len() && first_index(s@, seq![c]) == Some(p.0@.len() as int)
            && p.0@.len() + 1 + p.1@.len() == s@.len(),
        res is None ==> before_first(s@, c) == s@,
{
    let needle = vec![c];
    assert(needle@ == seq![c]);
    match find_chars(s, &needle) {
        Some(i) => {
            assert(occurs_at(s@, needle@, i as int));
            assert(i + 1 <= s.len());
            Some((slice_chars(s, 0, i), slice_chars(s, i + 1, s.len())))
        },
        None => None,
    }
}

/// The `n`-th piece of `s` split at `c` (`s.split(c).nth(n)`).
#[verifier::opaque]
pub open spec fn nth_field(s: Seq<char>, c: char, n: nat) -> Option<Seq<char>>
    decreases s.len(), n,
{
    if n == 0 {
        Some(before_first(s, c))
    } else if first_index(s, seq![c]) is Some && after_first(s, c).len() < s.len() {
        nth_field(after_first(s, c), c, (n - 1) as nat)
    } else {
        None
    }
}

/// The first piece of a split is what precedes the first separator.
pub proof fn lemma_nth_field_first(s: Seq<char>, c: char)
    ensures
        nth_field(s, c, 0) == Some(before_first(s, c)),
{
    reveal(nth_field);
}

/// Past a separator, the pieces are those of the rest.
pub proof fn lemma_nth_field_next(s: Seq<char>, c: char, n: nat)
    requires
        first_index(s, seq![c]) is Some,
        after_first(s, c).len() < s.len(),
    ensures
        nth_field(s, c, n + 1) == nth_field(after_first(s, c), c, n),
{
    reveal(nth_field);
}

/// Without a separator there is only one piece.
pub proof fn lemma_nth_field_last(s: Seq<char>, c: char, n: nat)
    requires
        first_index(s, seq![c]) is None,
    ensures
        nth_field(s, c, n + 1) is None,
{
    reveal(nth_field);
}

/// The `n`-th piece of `s` split at `c`, if there are that many.
pub fn nth_field_exec(s: &[char], c: char, n: usize) -> (res: Option<Vec<char>>)
    ensures
        match res {
            Some(v) => nth_field(s@, c, n as nat) == Some(v@),
            None => nth_field(s@, c, n as nat) is None,
        },
{
    let mut rest: Vec<char> = slice_chars(s, 0, s.len());
    assert(rest@ == s@);
    let mut k: usize = n;
    while k > 0
        invariant
            nth_field(rest@, c, k as nat) == nth_field(s@, c, n as nat),
        decreases k,
    {
        match split_once_char(&rest, c) {
            Some((_, after)) => {
                proof {
                    lemma_nth_field_next(rest@, c, (k - 1) as nat);
                }
                rest = after;
                k -= 1;
            },
            None => {
                proof {
                    lemma_nth_field_last(rest@, c, (k - 1) as nat);
                }
                return None;
            },
        }
    }
    proof {
        lemma_nth_field_first(rest@, c);
    }
    match split_once_char(&rest, c) {
        Some((before, _)) => Some(before),
        None => Some(slice_chars(&rest, 0, rest.len())),
    }
}

/// The pieces of `s` split at every `c` (`s.split(c)`), in order.
#[verifier::opaque]
pub open spec fn split_at_char(s: Seq<char>, c: char) -> Seq<Seq<char>>
    decreases s.len(),
{
    if first_index(s, seq![c]) is Some && after_first(s, c).len() < s.len() {
        seq![before_first(s, c)] + split_at_char(after_first(s, c), c)
    } else {
        seq![before_first(s, c)]
    }
}

/// Past the first separator, the pieces are the first one and those of the
/// rest.
pub proof fn lemma_split_next(s: Seq<char>, c: char)
    requires
        first_index(s, seq![c]) is Some,
        after_first(s, c).len() < s.len(),
    ensures
        split_at_char(s, c) == seq![before_first(s, c)] + split_at_char(after_first(s, c), c),
{
    reveal(split_at_char);
}

/// Without a separator, `s` is its only piece.
pub proof fn lemma_split_last(s: Seq<char>, c: char)
    requires
        first_index(s, seq![c]) is None,
    ensures
        split_at_char(s, c) == seq![s],
{
    reveal(split_at_char);
}

pub open spec fn views_of(v: Seq<Vec<char>>) -> Seq<Seq<char>> {
    Seq::new(v.len(), |i: int| v[i]@)
}

/// Splits `s` at every `c`.
pub fn split_chars(s: &[char], c: char) -> (res: Vec<Vec<char>>)
    ensures
        views_of(res@) == split_at_char(s@, c),
{
    let mut rest: Vec<char> = slice_chars(s, 0, s.len());
    assert(rest@ == s@);
    let mut out: Vec<Vec<char>> = Vec::new();
    loop
        invariant
            split_at_char(s@, c) == views_of(out@) + split_at_char(rest@, c),
        decreases rest@.len(),
    {
        let ghost before = views_of(out@);
        match split_once_char(&rest, c) {
            Some((b, a)) => {
                proof {
                    lemma_split_next(rest@, c);
                }
                out.push(b);
                assert(views_of(out@) =~= before.push(b@));
                assert(views_of(out@) + split_at_char(a@, c) =~= before + (seq![b@] + split_at_char(a@, c)));
                rest = a;
            },
            None => {
                proof {
                    lemma_split_last(rest@, c);
                }
                let ghost rv = rest@;
                out.push(rest);
                assert(views_of(out@) =~= before + seq![rv]);
                return out;
            },
        }
    }
}

// ───────────────────────────── whitespace ─────────────────────────────

/// Unicode `White_Space` property, as `char::is_whitespace` documents it.
pub open spec fn is_whitespace(c: char) -> bool {
    ('\u{9}' <= c <= '\u{d}') || c == ' ' || c == '\u{85}' || c == '\u{a0}' || c == '\u{1680}'
        || ('\u{2000}' <= c <= '\u{200a}') || c == '\u{2028}' || c == '\u{2029}'
        || c == '\u{202f}' || c == '\u{205f}' || c == '\u{3000}'
}

/// `s` without leading whitespace.
pub open spec fn trim_start(s: Seq<char>) -> Seq<char>
    decreases s.len(),
{
    if s.len() > 0 && is_whitespace(s[0]) {
        trim_start(s.drop_first())
    } else {
        s
    }
}

/// `s` without trailing whitespace.
pub open spec fn trim_end(s: Seq<char>) -> Seq<char>
    decreases s.len(),
{
    if s.len() > 0 && is_whitespace(s.last()) {
        trim_end(s.drop_last())
    } else {
        s
    }
}

/// `s` without leading and trailing whitespace (`str::trim`).
pub open spec fn trim(s: Seq<char>) -> Seq<char> {
    trim_end(trim_start(s))
}

pub fn is_whitespace_exec(c: char) -> (res: bool)
    ensures
        res == is_whitespace(c),
{
    ('\u{9}' <= c && c <= '\u{d}') || c == ' ' || c == '\u{85}' || c == '\u{a0}' || c == '\u{1680}'
        || ('\u{2000}' <= c && c <= '\u{200a}') || c == '\u{2028}' || c == '\u{2029}'
        || c == '\u{202f}' || c == '\u{205f}' || c == '\u{3000}'
}

proof fn lemma_trim_start_skip(s: Seq<char>, k: int)
    requires
        0 <= k <= s.len(),
        forall|i: int| 0 <= i < k ==> is_whitespace(s[i]),
        k == s.len() || !is_whitespace(s[k]),
    ensures
        trim_start(s) == s.subrange(k, s.len() as int),
    decreases k,
{
    if k > 0 {
        lemma_trim_start_skip(s.drop_first(), k - 1);
        assert(s.drop_first().subrange(k - 1, s.len() - 1) =~= s.subrange(k, s.len() as int));
    } else {
        assert(s.subrange(0, s.len() as int) =~= s);
    }
}

proof fn lemma_trim_end_take(s: Seq<char>, k: int)
    requires
        0 <= k <= s.len(),
        forall|i: int| k <= i < s.len() ==> is_whitespace(s[i]),
        k == 0 || !is_whitespace(s[k - 1]),
    ensures
        trim_end(s) == s.take(k),
    decreases s.len() - k,
{
    if k < s.len() {
        lemma_trim_end_take(s.drop_last(), k);
        assert(s.drop_last().take(k) =~= s.take(k));
    } else {
        assert(s.take(k) =~= s);
    }
}

/// `cs` without leading and trailing whitespace.
pub fn trim_chars(cs: &[char]) -> (res: Vec<char>)
    ensures
        res@ == trim(cs@),
{
    let mut a: usize = 0;
    while a < cs.len() && is_whitespace_exec(cs[a])
        invariant
            a <= cs.len(),
            forall|i: int| 0 <= i < a ==> is_whitespace(cs@[i]),
        decreases cs.len() - a,
    {
        a += 1;
    }
    proof {
        lemma_trim_start_skip(cs@, a as int);
    }
    let mut b: usize = cs.len();
    while b > a && is_whitespace_exec(cs[b - 1])
        invariant
            a <= b <= cs.len(),
            forall|i: int| b <= i < cs.len() ==> is_whitespace(cs@[i]),
        decreases b,
    {
        b -= 1;
    }
    proof {
        let t = cs@.subrange(a as int, cs@.len() as int);
        lemma_trim_end_take(t, (b - a) as int);
        assert(t.take((b - a) as int) =~= cs@.subrange(a as int, b as int));
    }
    slice_chars(cs, a, b)
}

// ───────────────────────────── numbers ─────────────────────────────

pub proof fn lemma_digits_value_prefix(s: Seq<char>, k: int)
    requires
        0 <= k <= s.len(),
    ensures
        digits_value(s.take(k)) <= digits_value(s),
    decreases s.len(),
{
    if k < s.len() {
        lemma_digits_value_prefix(s.drop_last(), k);
        assert(s.drop_last().take(k) == s.take(k));
    } else {
        assert(s.take(k) == s);
    }
}

/// Parses a decimal unsigned integer no larger than `max`, with the rules of
/// `str::parse` for unsigned integer types.
pub fn parse_unsigned_exec(s: &[char], max: u64) -> (res: Option<u64>)
    ensures
        res matches Some(v) ==> parse_unsigned(s@, max as int) == Some(v as nat),
        res is None ==> parse_unsigned(s@, max as int) is None,
{
    let start: usize = if s.len() > 0 && s[0] == '+' { 1 } else { 0 };
    let ghost body = if s@.len() > 0 && s@[0] == '+' { s@.drop_first() } else { s@ };
    assert(body =~= s@.subrange(start as int, s@.len() as int));
    if start >= s.len() {
        return None;
    }
    let mut val: u128 = 0;
    let mut i = start;
    while i < s.len()
        invariant
            start <= i <= s.len(),
            start < s.len(),
            body == (if s@.len() > 0 && s@[0] == '+' { s@.drop_first() } else { s@ }),
            body =~= s@.subrange(start as int, s@.len() as int),
            all_digits(body.take(i - start)),
            val as nat == digits_value(body.take(i - start)),
            val <= max,
        decreases s.len() - i,
    {
        let c = s[i];
        if !('0' <= c && c <= '9') {
            assert(body[i - start] == c);
            assert(!is_digit(body[i - start]));
            assert(!all_digits(body));
            return None;
        }
        let d = (c as u32 - '0' as u32) as u128;
        assert(val * 10 <= 0xffff_ffff_ffff_ffffu128 * 10) by (nonlinear_arith)
            requires val <= 0xffff_ffff_ffff_ffffu128;
        let nv = val * 10 + d;
        proof {
            let t = body.take(i + 1 - start);
            assert(t.drop_last() =~= body.take(i - start));
            assert(t.last() == c);
            assert(d == digit_value(c));
            assert(nv == digits_value(t));
            assert(all_digits(t));
        }
        i += 1;
        if nv > max as u128 {
            proof {
                lemma_digits_value_prefix(body, i - start);
                assert(digits_value(body) > max);
            }
            return None;
        }
        val = nv;
    }
    assert(body.take(s.len() - start) =~= body);
    Some(val as u64)
}

/// Decimal digits of `n` (`n.to_string()`).
pub fn decimal_chars(n: u64) -> (res: Vec<char>)
    ensures
        res@ == decimal(n as nat),
    decreases n,
{
    if n < 10 {
        let c = char_of_digit(n);
        let mut v = Vec::new();
        v.push(c);
        v
    } else {
        let mut v = decimal_chars(n / 10);
        v.push(char_of_digit(n % 10));
        v
    }
}

/// The character of a digit value below ten.
pub fn char_of_digit(d: u64) -> (c: char)
    requires
        d < 10,
    ensures
        c == digit_char(d as nat),
{
    if d == 0 { '0' }
    else if d == 1 { '1' }
    else if d == 2 { '2' }
    else if d == 3 { '3' }
    else if d == 4 { '4' }
    else if d == 5 { '5' }
    else if d == 6 { '6' }
    else if d == 7 { '7' }
    else if d == 8 { '8' }
    else { '9' }
}

/// Decimal representation of a signed integer (`n.to_string()`).
pub fn signed_decimal_chars(n: i64) -> (res: Vec<char>)
    ensures
        res@ == signed_decimal(n as int),
{
    if n < 0 {
        let m: u64 = if n == i64::MIN { 0x8000_0000_0000_0000u64 } else { (-n) as u64 };
        let d = decimal_chars(m);
        let mut v = Vec::new();
        v.push('-');
        let mut i: usize = 0;
        while i < d.len()
            invariant
                i <= d.len(),
                v@ == seq!['-'].add(d@.take(i as int)),
            decreases d.len() - i,
        {
            v.push(d[i]);
            i += 1;
            assert(d@.take(i as int) == d@.take(i - 1).push(d@[i - 1]));
        }
        assert(d@.take(d.len() as int) == d@);
        v
    } else {
        decimal_chars(n as u64)
    }
}

} // verus!
