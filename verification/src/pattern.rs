//! Regular-expression searches, done by the `regex` crate.
//!
//! What a search returns is named, not restated: `regex_is_match`,
//! `regex_find_iter` and `regex_captures_iter` stand for the crate's answers,
//! as functions of the pattern and the haystack alone. The crate reports
//! positions as UTF-8 byte offsets; this module turns them into character
//! positions of the `Seq<char>` model.
use vstd::prelude::*;
use crate::text::sub_chars;

verus! {

/// Width in bytes of the UTF-8 encoding of a character.
pub open spec fn utf8_width(c: char) -> nat {
    let u = c as u32;
    if u < 0x80 {
        1
    } else if u < 0x800 {
        2
    } else if u < 0x10000 {
        3
    } else {
        4
    }
}

/// Length in bytes of the UTF-8 encoding of a character sequence.
pub open spec fn utf8_len(s: Seq<char>) -> nat
    decreases s.len(),
{
    if s.len() == 0 {
        0
    } else {
        utf8_len(s.drop_last()) + utf8_width(s.last())
    }
}

/// `b` is the byte offset at which some character of `s` begins (or the end).
pub open spec fn is_boundary(s: Seq<char>, b: int) -> bool {
    exists|k: int| 0 <= k <= s.len() && utf8_len(s.take(k)) == b
}

/// The character position at byte offset `b`.
pub open spec fn char_index(s: Seq<char>, b: int) -> int {
    choose|k: int| 0 <= k <= s.len() && utf8_len(s.take(k)) == b
}

/// A byte span `(start, end)` as the `regex` crate reports it for a match.
pub open spec fn valid_span(s: Seq<char>, sp: (usize, usize)) -> bool {
    sp.0 <= sp.1 && is_boundary(s, sp.0 as int) && is_boundary(s, sp.1 as int)
}

/// The text covered by a byte span.
pub open spec fn span_text(s: Seq<char>, sp: (usize, usize)) -> Seq<char> {
    s.subrange(char_index(s, sp.0 as int), char_index(s, sp.1 as int))
}

/// What `Regex::new(pattern)` followed by `Regex::is_match(haystack)` answers;
/// `None` when the pattern does not compile.
pub uninterp spec fn regex_is_match(pattern: Seq<char>, haystack: Seq<char>) -> Option<bool>;

/// The byte spans of the successive non-overlapping matches that
/// `Regex::find_iter` yields; `None` when the pattern does not compile.
pub uninterp spec fn regex_find_iter(pattern: Seq<char>, haystack: Seq<char>) -> Option<
    Seq<(usize, usize)>,
>;

/// For each successive match that `Regex::captures_iter` yields, the byte span
/// of capture group 1 (`None` where the group took no part); `None` when the
/// pattern does not compile.
pub uninterp spec fn regex_captures_iter(pattern: Seq<char>, haystack: Seq<char>) -> Option<
    Seq<Option<(usize, usize)>>,
>;

/// `regex::Error`, the error of a pattern that does not compile.
#[verifier::external_type_specification]
#[verifier::external_body]
pub struct ExRegexError(regex::Error);

/// Compiles `pattern` with `regex::Regex::new` and asks `Regex::is_match`
/// whether it matches anywhere in `haystack`. The contract names the answer
/// and claims nothing else of it.
#[verifier::external_body]
fn is_match_call(pattern: &str, haystack: &str) -> (r: Result<bool, regex::Error>)
    ensures
        match r {
            Ok(b) => regex_is_match(pattern@, haystack@) == Some(b),
            Err(_) => regex_is_match(pattern@, haystack@) is None,
        },
{
    match regex::Regex::new(pattern) {
        Ok(re) => Ok(re.is_match(haystack)),
        Err(e) => Err(e),
    }
}

/// Compiles `pattern` with `regex::Regex::new` and collects the byte offsets
/// `(start, end)` of each match that `Regex::find_iter` yields over
/// `haystack`. Besides naming the answer, the contract states what the crate
/// documents of `Match::start` and `Match::end`: start <= end, and both fall
/// on character boundaries of the haystack.
#[verifier::external_body]
fn find_iter_call(pattern: &str, haystack: &str) -> (r: Result<Vec<(usize, usize)>, regex::Error>)
    ensures
        match r {
            Ok(v) => {
                &&& regex_find_iter(pattern@, haystack@) == Some(v@)
                &&& forall|i: int| 0 <= i < v@.len() ==> valid_span(haystack@, #[trigger] v@[i])
            },
            Err(_) => regex_find_iter(pattern@, haystack@) is None,
        },
{
    match regex::Regex::new(pattern) {
        Ok(re) => Ok(re.find_iter(haystack).map(|m| (m.start(), m.end())).collect()),
        Err(e) => Err(e),
    }
}

/// Compiles `pattern` with `regex::Regex::new` and collects, for each match
/// that `Regex::captures_iter` yields over `haystack`, the byte offsets of
/// capture group 1 (`None` where the group took no part). Besides naming the
/// answer, the contract states what the crate documents of `Match::start` and
/// `Match::end`: start <= end, and both fall on character boundaries.
#[verifier::external_body]
fn captures_iter_call(pattern: &str, haystack: &str) -> (r: Result<Vec<Option<(usize, usize)>>, regex::Error>)
    ensures
        match r {
            Ok(v) => {
                &&& regex_captures_iter(pattern@, haystack@) == Some(v@)
                &&& forall|i: int|
                    0 <= i < v@.len() ==> (#[trigger] v@[i] matches Some(sp) ==> valid_span(
                        haystack@,
                        sp,
                    ))
            },
            Err(_) => regex_captures_iter(pattern@, haystack@) is None,
        },
{
    match regex::Regex::new(pattern) {
        Ok(re) => Ok(re.captures_iter(haystack).map(|c| c.get(1).map(|m| (m.start(), m.end()))).collect()),
        Err(e) => Err(e),
    }
}

/// Whether the pattern matches in the haystack; `None` for a pattern that
/// does not compile.
pub(crate) fn search_is_match(pattern: &str, haystack: &str) -> (r: Option<bool>)
    ensures
        r == regex_is_match(pattern@, haystack@),
{
    match is_match_call(pattern, haystack) {
        Ok(b) => Some(b),
        Err(_) => None,
    }
}

/// Byte spans of the successive matches; `None` for a pattern that does not
/// compile.
pub(crate) fn search_find_iter(pattern: &str, haystack: &str) -> (r: Option<Vec<(usize, usize)>>)
    ensures
        match r {
            Some(v) => {
                &&& regex_find_iter(pattern@, haystack@) == Some(v@)
                &&& forall|i: int| 0 <= i < v@.len() ==> valid_span(haystack@, #[trigger] v@[i])
            },
            None => regex_find_iter(pattern@, haystack@) is None,
        },
{
    match find_iter_call(pattern, haystack) {
        Ok(v) => Some(v),
        Err(_) => None,
    }
}

/// Byte spans of capture group 1 of the successive matches; `None` for a
/// pattern that does not compile.
pub(crate) fn search_captures_iter(pattern: &str, haystack: &str) -> (r: Option<
    Vec<Option<(usize, usize)>>,
>)
    ensures
        match r {
            Some(v) => {
                &&& regex_captures_iter(pattern@, haystack@) == Some(v@)
                &&& forall|i: int|
                    0 <= i < v@.len() ==> (#[trigger] v@[i] matches Some(sp) ==> valid_span(
                        haystack@,
                        sp,
                    ))
            },
            None => regex_captures_iter(pattern@, haystack@) is None,
        },
{
    match captures_iter_call(pattern, haystack) {
        Ok(v) => Some(v),
        Err(_) => None,
    }
}

pub proof fn lemma_utf8_len_step(s: Seq<char>, k: int)
    requires
        0 <= k < s.len(),
    ensures
        utf8_len(s.take(k + 1)) == utf8_len(s.take(k)) + utf8_width(s[k]),
{
    assert(s.take(k + 1).drop_last() =~= s.take(k));
}

pub proof fn lemma_utf8_len_mono(s: Seq<char>, k1: int, k2: int)
    requires
        0 <= k1 <= k2 <= s.len(),
    ensures
        utf8_len(s.take(k1)) + (k2 - k1) <= utf8_len(s.take(k2)),
    decreases k2 - k1,
{
    if k1 < k2 {
        lemma_utf8_len_mono(s, k1, k2 - 1);
        lemma_utf8_len_step(s, k2 - 1);
    }
}

/// The character position of a byte offset that falls on a boundary.
pub proof fn lemma_char_index(s: Seq<char>, b: int, k: int)
    requires
        0 <= k <= s.len(),
        utf8_len(s.take(k)) == b,
    ensures
        char_index(s, b) == k,
{
    let c = char_index(s, b);
    assert(is_boundary(s, b));
    if c < k {
        lemma_utf8_len_mono(s, c, k);
    } else if c > k {
        lemma_utf8_len_mono(s, k, c);
    }
}

pub fn utf8_width_of(c: char) -> (w: usize)
    ensures
        w == utf8_width(c),
{
    let u = c as u32;
    if u < 0x80 {
        1
    } else if u < 0x800 {
        2
    } else if u < 0x10000 {
        3
    } else {
        4
    }
}

/// Converts a byte offset on a character boundary to a character position.
pub fn char_pos(s: &Vec<char>, b: usize) -> (k: usize)
    requires
        is_boundary(s@, b as int),
    ensures
        k <= s.len(),
        k == char_index(s@, b as int),
        utf8_len(s@.take(k as int)) == b,
{
    let ghost target = char_index(s@, b as int);
    let mut acc: usize = 0;
    let mut k: usize = 0;
    assert(s@.take(0) =~= Seq::<char>::empty());
    while acc < b
        invariant
            0 <= target <= s.len(),
            utf8_len(s@.take(target)) == b,
            k <= target,
            acc == utf8_len(s@.take(k as int)),
            acc <= b,
        decreases b - acc,
    {
        proof {
            if k == target {
                assert(false);
            }
            lemma_utf8_len_step(s@, k as int);
            lemma_utf8_len_mono(s@, k + 1, target);
        }
        acc = acc + utf8_width_of(s[k]);
        k = k + 1;
    }
    proof {
        lemma_char_index(s@, b as int, k as int);
    }
    k
}

/// The text covered by a match span.
pub fn span_chars(s: &Vec<char>, sp: (usize, usize)) -> (r: Vec<char>)
    requires
        valid_span(s@, sp),
    ensures
        r@ == span_text(s@, sp),
        char_index(s@, sp.0 as int) <= char_index(s@, sp.1 as int) <= s@.len(),
{
    let a = char_pos(s, sp.0);
    let b = char_pos(s, sp.1);
    if a > b {
        proof {
            lemma_utf8_len_mono(s@, b as int, a as int);
        }
    }
    sub_chars(s, a, b)
}

} // verus!
