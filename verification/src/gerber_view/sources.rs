//! File names for sources fetched by URL.
use vstd::prelude::*;

use crate::text::{
    after_first, before_first, chars_of, eq_str, first_index, from_utf8_lossy, slice_chars,
    split_once_char, string_from_chars, utf8_lossy,
};

verus! {

// ───────────────────────────── percent decoding ─────────────────────────────

/// Value of an ASCII hexadecimal digit.
pub open spec fn hex_digit(b: u8) -> Option<u8> {
    if 48 <= b <= 57 {
        Some((b - 48) as u8)
    } else if 97 <= b <= 102 {
        Some((b - 87) as u8)
    } else if 65 <= b <= 70 {
        Some((b - 55) as u8)
    } else {
        None
    }
}

/// The byte two characters after `%` stand for, as `u8::from_str_radix` reads
/// them in base 16: an optional `+` sign followed by digits.
pub open spec fn hex_pair(b0: u8, b1: u8) -> Option<u8> {
    if b0 == 43 {
        hex_digit(b1)
    } else {
        match (hex_digit(b0), hex_digit(b1)) {
            (Some(h), Some(l)) => Some((16 * h + l) as u8),
            _ => None,
        }
    }
}

/// Bytes with every `%` followed by two hexadecimal characters replaced by the
/// byte they encode; everything else is kept.
pub open spec fn percent_bytes(b: Seq<u8>) -> Seq<u8>
    decreases b.len(),
{
    if b.len() == 0 {
        Seq::empty()
    } else if b[0] == 37 && b.len() >= 3 && hex_pair(b[1], b[2]) is Some {
        seq![hex_pair(b[1], b[2])->0] + percent_bytes(b.skip(3))
    } else {
        seq![b[0]] + percent_bytes(b.skip(1))
    }
}

/// A string with every `+` replaced by a space.
pub open spec fn plus_to_space(s: Seq<char>) -> Seq<char> {
    Seq::new(s.len(), |i: int| if s[i] == '+' { ' ' } else { s[i] })
}

/// A query value decoded: `+` as space, then percent escapes, then the bytes
/// read as UTF-8 with invalid sequences replaced.
pub open spec fn decode_query_value(v: Seq<char>) -> Seq<char> {
    utf8_lossy(percent_bytes(vstd::utf8::encode_utf8(plus_to_space(v))))
}

fn hex_digit_exec(b: u8) -> (res: Option<u8>)
    ensures
        res == hex_digit(b),
{
    if 48 <= b && b <= 57 {
        Some(b - 48)
    } else if 97 <= b && b <= 102 {
        Some(b - 87)
    } else if 65 <= b && b <= 70 {
        Some(b - 55)
    } else {
        None
    }
}

fn hex_pair_exec(b0: u8, b1: u8) -> (res: Option<u8>)
    ensures
        res == hex_pair(b0, b1),
{
    if b0 == 43 {
        hex_digit_exec(b1)
    } else {
        match (hex_digit_exec(b0), hex_digit_exec(b1)) {
            (Some(h), Some(l)) => Some(16 * h + l),
            _ => None,
        }
    }
}

/// Decodes `%XX` escapes in the bytes of `s`, then reads them as UTF-8,
/// replacing invalid sequences.
fn percent_decode(s: &str) -> (res: String)
    ensures
        res@ == utf8_lossy(percent_bytes(vstd::utf8::encode_utf8(s@))),
{
    let bytes = s.as_bytes();
    let mut out: Vec<u8> = Vec::new();
    let mut i: usize = 0;
    assert(bytes@.skip(0) == bytes@);
    assert(out@ + percent_bytes(bytes@) == percent_bytes(bytes@));
    while i < bytes.len()
        invariant
            i <= bytes.len(),
            out@ + percent_bytes(bytes@.skip(i as int)) == percent_bytes(bytes@),
        decreases bytes.len() - i,
    {
        let ghost rest = bytes@.skip(i as int);
        let hex = if bytes.len() - i >= 3 {
            hex_pair_exec(bytes[i + 1], bytes[i + 2])
        } else {
            None
        };
        if bytes[i] == 37 && hex.is_some() {
            let b = hex.unwrap();
            assert(rest.skip(3) == bytes@.skip(i + 3));
            out.push(b);
            i += 3;
        } else {
            assert(rest.skip(1) == bytes@.skip(i + 1));
            out.push(bytes[i]);
            i += 1;
        }
    }
    assert(bytes@.skip(bytes.len() as int) == Seq::<u8>::empty());
    assert(out@ + Seq::<u8>::empty() == out@);
    from_utf8_lossy(out.as_slice())
}

/// Replaces every `+` by a space.
fn plus_to_space_exec(s: &[char]) -> (res: String)
    ensures
        res@ == plus_to_space(s@),
{
    let mut out: Vec<char> = Vec::new();
    let mut i: usize = 0;
    while i < s.len()
        invariant
            i <= s.len(),
            out@ == plus_to_space(s@).take(i as int),
        decreases s.len() - i,
    {
        if s[i] == '+' {
            out.push(' ');
        } else {
            out.push(s[i]);
        }
        i += 1;
    }
    assert(plus_to_space(s@).take(s.len() as int) == plus_to_space(s@));
    string_from_chars(&out)
}

// ───────────────────────────── URL names ─────────────────────────────

/// Query keys whose value names the file.
pub open spec fn is_name_key(k: Seq<char>) -> bool {
    k == "path"@ || k == "file"@ || k == "filename"@ || k == "name"@
}

/// The file name one `key=value` query pair gives, if its key names a file.
pub open spec fn pair_name(pair: Seq<char>) -> Option<Seq<char>> {
    if first_index(pair, seq!['=']) is Some && is_name_key(before_first(pair, '=')) {
        Some(decode_query_value(after_first(pair, '=')))
    } else {
        None
    }
}

/// The file name given by the first `&`-separated pair of a query whose key
/// names a file.
pub open spec fn query_name(q: Seq<char>) -> Option<Seq<char>>
    decreases q.len(),
{
    match pair_name(before_first(q, '&')) {
        Some(v) => Some(v),
        None => if first_index(q, seq!['&']) is Some && after_first(q, '&').len() < q.len() {
            query_name(after_first(q, '&'))
        } else {
            None
        },
    }
}

/// Path separators, forward or backward.
pub open spec fn is_separator(c: char) -> bool {
    c == '/' || c == '\\'
}

/// The separator-free tail of `s`.
pub open spec fn segment_tail(s: Seq<char>) -> Seq<char>
    decreases s.len(),
{
    if s.len() == 0 || is_separator(s.last()) {
        Seq::empty()
    } else {
        segment_tail(s.drop_last()).push(s.last())
    }
}

/// The last non-empty segment of `s` between separators.
pub open spec fn last_segment(s: Seq<char>) -> Option<Seq<char>>
    decreases s.len(),
{
    if s.len() == 0 {
        None
    } else if is_separator(s.last()) {
        last_segment(s.drop_last())
    } else {
        Some(segment_tail(s))
    }
}

/// The name [`name_from_url`] derives from a URL.
pub open spec fn url_name(url: Seq<char>) -> Seq<char> {
    let without_fragment = before_first(url, '#');
    let path = before_first(without_fragment, '?');
    let query = after_first(without_fragment, '?');
    let source = match query_name(query) {
        Some(n) => n,
        None => path,
    };
    match last_segment(source) {
        Some(seg) => seg,
        None => url,
    }
}

/// The last segment of a string is never empty.
proof fn lemma_last_segment_nonempty(s: Seq<char>)
    ensures
        last_segment(s) matches Some(seg) ==> seg.len() > 0,
    decreases s.len(),
{
    if s.len() > 0 {
        if is_separator(s.last()) {
            lemma_last_segment_nonempty(s.drop_last());
        } else {
            assert(segment_tail(s) == segment_tail(s.drop_last()).push(s.last()));
        }
    }
}

/// A URL that is not empty never gives an empty name.
pub proof fn lemma_url_name_nonempty(url: Seq<char>)
    requires
        url.len() > 0,
    ensures
        url_name(url).len() > 0,
{
    let without_fragment = before_first(url, '#');
    let path = before_first(without_fragment, '?');
    let query = after_first(without_fragment, '?');
    let source = match query_name(query) {
        Some(n) => n,
        None => path,
    };
    lemma_last_segment_nonempty(source);
}

/// The file name one query pair gives, if its key names a file.
fn pair_name_exec(pair: &[char]) -> (res: Option<String>)
    ensures
        match res {
            Some(v) => pair_name(pair@) == Some(v@),
            None => pair_name(pair@) is None,
        },
{
    match split_once_char(pair, '=') {
        Some((key, value)) => {
            if eq_str(&key, "path") || eq_str(&key, "file") || eq_str(&key, "filename") || eq_str(
                &key,
                "name",
            ) {
                let spaced = plus_to_space_exec(&value);
                Some(percent_decode(spaced.as_str()))
            } else {
                None
            }
        },
        None => None,
    }
}

/// The file name given by a URL query, if any of its pairs names one.
fn query_name_exec(query: &[char]) -> (res: Option<String>)
    ensures
        match res {
            Some(v) => query_name(query@) == Some(v@),
            None => query_name(query@) is None,
        },
{
    let mut rest: Vec<char> = slice_chars(query, 0, query.len());
    assert(rest@ == query@);
    loop
        invariant
            query_name(rest@) == query_name(query@),
        decreases rest.len(),
    {
        let piece = match split_once_char(&rest, '&') {
            Some((p, _)) => p,
            None => slice_chars(&rest, 0, rest.len()),
        };
        assert(piece@ == before_first(rest@, '&'));
        match pair_name_exec(&piece) {
            Some(v) => {
                return Some(v);
            },
            None => {},
        }
        match split_once_char(&rest, '&') {
            Some((_, next)) => {
                rest = next;
            },
            None => {
                return None;
            },
        }
    }
}

/// The last non-empty segment of `s` between separators.
fn last_segment_exec(s: &[char]) -> (res: Option<Vec<char>>)
    ensures
        match res {
            Some(v) => last_segment(s@) == Some(v@),
            None => last_segment(s@) is None,
        },
{
    let mut end: usize = s.len();
    assert(s@.take(end as int) == s@);
    while end > 0 && (s[end - 1] == '/' || s[end - 1] == '\\')
        invariant
            end <= s.len(),
            last_segment(s@.take(end as int)) == last_segment(s@),
        decreases end,
    {
        assert(s@.take(end - 1) == s@.take(end as int).drop_last());
        end -= 1;
    }
    if end == 0 {
        return None;
    }
    let mut start: usize = end;
    while start > 0 && !(s[start - 1] == '/' || s[start - 1] == '\\')
        invariant
            start <= end <= s.len(),
            segment_tail(s@.take(end as int)) == segment_tail(s@.take(start as int)) + s@.subrange(
                start as int,
                end as int,
            ),
        decreases start,
    {
        assert(s@.take(start - 1) == s@.take(start as int).drop_last());
        assert(s@.subrange(start - 1, end as int) == seq![s@[start - 1]] + s@.subrange(
            start as int,
            end as int,
        ));
        assert(segment_tail(s@.take(start as int)) == segment_tail(s@.take(start - 1)).push(
            s@[start - 1],
        ));
        start -= 1;
    }
    assert(segment_tail(s@.take(start as int)) == Seq::<char>::empty());
    Some(slice_chars(s, start, end))
}

/// Derives a file name from a URL. A `path`, `file`, `filename`, or `name`
/// query parameter wins (for file-serving APIs like
/// `/api/file?path=gerbers/b.gtl`); otherwise the last non-empty path segment
/// is used, and the whole URL when there is none.
pub fn name_from_url(url: &str) -> (res: String)
    ensures
        res@ == url_name(url@),
{
    let cs = chars_of(url);
    let without_fragment = match split_once_char(&cs, '#') {
        Some((w, _)) => w,
        None => slice_chars(&cs, 0, cs.len()),
    };
    assert(without_fragment@ == before_first(url@, '#'));
    let (path, query) = match split_once_char(&without_fragment, '?') {
        Some((p, q)) => (p, q),
        None => (slice_chars(&without_fragment, 0, without_fragment.len()), Vec::new()),
    };
    assert(path@ == before_first(without_fragment@, '?'));
    assert(query@ == after_first(without_fragment@, '?'));
    let source = source_of(&path, &query);
    match last_segment_exec(&source) {
        Some(seg) => string_from_chars(&seg),
        None => crate::text::to_string(url),
    }
}

/// The name-giving query value when there is one, else the URL path.
fn source_of(path: &[char], query: &[char]) -> (res: Vec<char>)
    ensures
        res@ == match query_name(query@) {
            Some(n) => n,
            None => path@,
        },
{
    match query_name_exec(query) {
        Some(n) => chars_of(n.as_str()),
        None => slice_chars(path, 0, path.len()),
    }
}

} // verus!
