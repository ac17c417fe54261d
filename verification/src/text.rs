//! Character-level helpers for tag names and attribute values.

use vstd::prelude::*;
use vstd::utf8::{decode_utf8, valid_utf8};

verus! {

broadcast use vstd::string::group_string_axioms;

/// The HTML space characters: space, tab, line feed, form feed, carriage return.
pub open spec fn is_html_space(c: char) -> bool {
    c == ' ' || c == '\t' || c == '\n' || c == '\u{c}' || c == '\r'
}

/// Lower-case form of an ASCII capital letter; every other character is itself.
pub open spec fn ascii_lower(c: char) -> char {
    if 'A' <= c <= 'Z' {
        ((c as u8 + 32) as u8) as char
    } else {
        c
    }
}

/// Equality of two character sequences up to the case of ASCII letters.
pub open spec fn eq_ignore_ascii_case(a: Seq<char>, b: Seq<char>) -> bool {
    &&& a.len() == b.len()
    &&& forall|k: int| 0 <= k < a.len() ==> ascii_lower(#[trigger] a[k]) == ascii_lower(b[k])
}

/// `[start, end)` is a maximal run of non-space characters of `s`.
pub open spec fn is_token_at(s: Seq<char>, start: int, end: int) -> bool {
    &&& 0 <= start < end <= s.len()
    &&& (start == 0 || is_html_space(s[start - 1]))
    &&& (end == s.len() || is_html_space(s[end]))
    &&& forall|k: int| start <= k < end ==> !is_html_space(#[trigger] s[k])
}

/// One of the space-separated tokens of `s` is `word`, up to ASCII case.
pub open spec fn has_token(s: Seq<char>, word: Seq<char>) -> bool {
    exists|start: int, end: int|
        #![trigger s.subrange(start, end)]
        is_token_at(s, start, end) && eq_ignore_ascii_case(s.subrange(start, end), word)
}

/// The characters of a string that may be absent.
pub open spec fn opt_chars(s: Option<String>) -> Option<Seq<char>> {
    match s {
        Some(text) => Some(text@),
        None => None,
    }
}

pub fn html_space(c: char) -> (r: bool)
    ensures
        r == is_html_space(c),
{
    c == ' ' || c == '\t' || c == '\n' || c == '\u{c}' || c == '\r'
}

pub fn to_ascii_lower(c: char) -> (r: char)
    ensures
        r == ascii_lower(c),
{
    if 'A' <= c && c <= 'Z' {
        let b: u8 = c as u8;
        (b + 32) as char
    } else {
        c
    }
}

/// The characters of a string slice, in order.
pub fn chars_of(s: &str) -> (v: Vec<char>)
    ensures
        v@ == s@,
{
    let mut v: Vec<char> = Vec::new();
    for c in it: s.chars()
        invariant
            it.seq() == s@,
            v@ == it.seq().take(it.index() as int),
    {
        v.push(c);
    }
    v
}

/// Whether `word` spells exactly the characters `v`.
pub fn spells(v: &Vec<char>, word: &str) -> (r: bool)
    ensures
        r == (v@ == word@),
{
    let mut i: usize = 0;
    let mut same = true;
    for c in it: word.chars()
        invariant
            it.seq() == word@,
            i <= v.len(),
            same ==> i == it.index() && v@.take(i as int) == word@.take(i as int),
            !same ==> v@ != word@,
    {
        if same {
            if i < v.len() && v[i] == c {
                assert(v@.take(i + 1) == v@.take(i as int).push(v@[i as int]));
                assert(word@.take(i + 1) == word@.take(i as int).push(word@[i as int]));
                i = i + 1;
            } else {
                same = false;
            }
        }
    }
    proof {
        if same && i == v.len() {
            assert(v@.take(i as int) == v@);
            assert(word@.take(i as int) == word@);
        }
    }
    same && i == v.len()
}

/// Reads bytes as text in UTF-8.
///
/// Trusted: the body calls `String::from_utf8`, which std documents to
/// succeed exactly on well-formed UTF-8 and then to hold the very bytes it
/// was given; the contract says so with the definitions of UTF-8 that the
/// verifier's library gives.
#[verifier::external_body]
pub(crate) fn text_from_utf8(bytes: Vec<u8>) -> (r: Option<String>)
    ensures
        r is Some <==> valid_utf8(bytes@),
        r matches Some(text) ==> text@ == decode_utf8(bytes@),
{
    match String::from_utf8(bytes) {
        Ok(text) => Some(text),
        Err(_) => None,
    }
}

/// Whether two string slices hold the same characters.
pub fn str_eq(a: &str, b: &str) -> (r: bool)
    ensures
        r == (a@ == b@),
{
    let v = chars_of(a);
    spells(&v, b)
}

/// Whether the characters `v[start..end]` spell `word`, up to ASCII case.
pub fn slice_eq_ignore_ascii_case(v: &Vec<char>, start: usize, end: usize, word: &Vec<char>) -> (r:
    bool)
    requires
        start <= end <= v.len(),
    ensures
        r == eq_ignore_ascii_case(v@.subrange(start as int, end as int), word@),
{
    if end - start != word.len() {
        return false;
    }
    let ghost piece = v@.subrange(start as int, end as int);
    let mut k: usize = 0;
    while k < word.len()
        invariant
            start <= end <= v.len(),
            end - start == word.len(),
            k <= word.len(),
            piece == v@.subrange(start as int, end as int),
            forall|j: int| 0 <= j < k ==> ascii_lower(#[trigger] piece[j]) == ascii_lower(word@[j]),
        decreases word.len() - k,
    {
        if to_ascii_lower(v[start + k]) != to_ascii_lower(word[k]) {
            assert(piece[k as int] == v@[start + k]);
            return false;
        }
        assert(piece[k as int] == v@[start + k]);
        k = k + 1;
    }
    true
}

/// Whether one of the space-separated tokens of `v` is `word`, up to ASCII case.
pub fn contains_token(v: &Vec<char>, word: &Vec<char>) -> (r: bool)
    ensures
        r == has_token(v@, word@),
{
    let n = v.len();
    let mut i: usize = 0;
    while i < n
        invariant
            n == v.len(),
            i <= n,
            i == 0 || i == n || is_html_space(v@[i - 1]) || is_html_space(v@[i as int]),
            forall|s: int, e: int|
                #![trigger v@.subrange(s, e)]
                is_token_at(v@, s, e) && e <= i ==> !eq_ignore_ascii_case(v@.subrange(s, e), word@),
        decreases n - i,
    {
        if html_space(v[i]) {
            i = i + 1;
        } else {
            let start = i;
            while i < n && !html_space(v[i])
                invariant
                    n == v.len(),
                    start <= i <= n,
                    forall|k: int| start <= k < i ==> !is_html_space(#[trigger] v@[k]),
                decreases n - i,
            {
                i = i + 1;
            }
            assert(is_token_at(v@, start as int, i as int));
            if slice_eq_ignore_ascii_case(v, start, i, word) {
                return true;
            }
            assert forall|s: int, e: int|
                #![trigger v@.subrange(s, e)]
                is_token_at(v@, s, e) && e <= i implies !eq_ignore_ascii_case(
                v@.subrange(s, e),
                word@,
            ) by {
                if is_token_at(v@, s, e) && e <= i && e > start {
                    if s < start {
                        assert(!is_html_space(v@[start - 1]) || !is_html_space(v@[start as int]));
                        if start > 0 && is_html_space(v@[start - 1]) {
                            assert(!is_html_space(v@[start - 1]));
                        }
                    } else if s > start {
                        assert(!is_html_space(v@[s - 1]));
                    } else if e < i {
                        assert(!is_html_space(v@[e]));
                    }
                }
            }
        }
    }
    assert forall|s: int, e: int| is_token_at(v@, s, e) implies e <= n by {}
    false
}

/// Whether one of the space-separated tokens of `s` is `word`, up to ASCII case.
pub fn str_has_token(s: &str, word: &str) -> (r: bool)
    ensures
        r == has_token(s@, word@),
{
    let v = chars_of(s);
    let w = chars_of(word);
    contains_token(&v, &w)
}

} // verus!
