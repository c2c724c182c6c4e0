//! Character-level text model shared by the whole analyzer.
//!
//! Text is modelled as `Seq<char>`; executable helpers work on `Vec<char>`
//! and on `String`, and every helper states its result over that model.
use vstd::prelude::*;

verus! {

// ---------------------------------------------------------------------------
// Characters
// ---------------------------------------------------------------------------

/// The Unicode `White_Space` property, which `char::is_whitespace`,
/// `str::trim` and `str::split_whitespace` are documented to use.
pub open spec fn is_ws(c: char) -> bool {
    let u = c as u32;
    ||| 0x09 <= u <= 0x0D
    ||| u == 0x20
    ||| u == 0x85
    ||| u == 0xA0
    ||| u == 0x1680
    ||| 0x2000 <= u <= 0x200A
    ||| u == 0x2028
    ||| u == 0x2029
    ||| u == 0x202F
    ||| u == 0x205F
    ||| u == 0x3000
}

pub open spec fn is_ascii_alnum(c: char) -> bool {
    ('0' <= c <= '9') || ('A' <= c <= 'Z') || ('a' <= c <= 'z')
}

pub open spec fn ascii_upper(c: char) -> char {
    if 'a' <= c <= 'z' {
        ((c as u8) - 32u8) as char
    } else {
        c
    }
}

pub open spec fn ascii_lower(c: char) -> char {
    if 'A' <= c <= 'Z' {
        ((c as u8) + 32u8) as char
    } else {
        c
    }
}

pub fn char_is_ws(c: char) -> (r: bool)
    ensures
        r == is_ws(c),
{
    let u = c as u32;
    (0x09 <= u && u <= 0x0D) || u == 0x20 || u == 0x85 || u == 0xA0 || u == 0x1680 || (0x2000
        <= u && u <= 0x200A) || u == 0x2028 || u == 0x2029 || u == 0x202F || u == 0x205F || u
        == 0x3000
}

pub fn char_is_ascii_alnum(c: char) -> (r: bool)
    ensures
        r == is_ascii_alnum(c),
{
    ('0' <= c && c <= '9') || ('A' <= c && c <= 'Z') || ('a' <= c && c <= 'z')
}

pub fn char_upper(c: char) -> (r: char)
    ensures
        r == ascii_upper(c),
{
    if 'a' <= c && c <= 'z' {
        ((c as u8) - 32u8) as char
    } else {
        c
    }
}

pub fn char_lower(c: char) -> (r: char)
    ensures
        r == ascii_lower(c),
{
    if 'A' <= c && c <= 'Z' {
        ((c as u8) + 32u8) as char
    } else {
        c
    }
}

// ---------------------------------------------------------------------------
// Sequences of characters
// ---------------------------------------------------------------------------

pub open spec fn upper(s: Seq<char>) -> Seq<char> {
    s.map_values(|c: char| ascii_upper(c))
}

pub open spec fn lower(s: Seq<char>) -> Seq<char> {
    s.map_values(|c: char| ascii_lower(c))
}

/// ASCII case-insensitive equality, as `str::eq_ignore_ascii_case`.
pub open spec fn eq_ic(a: Seq<char>, b: Seq<char>) -> bool {
    lower(a) == lower(b)
}

pub open spec fn starts_with(s: Seq<char>, p: Seq<char>) -> bool {
    p.len() <= s.len() && s.take(p.len() as int) == p
}

pub open spec fn occurs_at(s: Seq<char>, p: Seq<char>, i: int) -> bool {
    0 <= i && i + p.len() <= s.len() && s.subrange(i, i + p.len()) == p
}

pub open spec fn contains(s: Seq<char>, p: Seq<char>) -> bool {
    exists|i: int| occurs_at(s, p, i)
}

pub open spec fn trim_start(s: Seq<char>) -> Seq<char>
    decreases s.len(),
{
    if s.len() > 0 && is_ws(s[0]) {
        trim_start(s.drop_first())
    } else {
        s
    }
}

pub open spec fn trim_end(s: Seq<char>) -> Seq<char>
    decreases s.len(),
{
    if s.len() > 0 && is_ws(s.last()) {
        trim_end(s.drop_last())
    } else {
        s
    }
}

/// `str::trim`: leading and trailing white space removed.
pub open spec fn trim(s: Seq<char>) -> Seq<char> {
    trim_end(trim_start(s))
}

/// Strips trailing characters that belong to `set` (`trim_end_matches`).
pub open spec fn trim_end_in(s: Seq<char>, set: Seq<char>) -> Seq<char>
    decreases s.len(),
{
    if s.len() > 0 && set.contains(s.last()) {
        trim_end_in(s.drop_last(), set)
    } else {
        s
    }
}

/// Strips leading characters that belong to `set` (`trim_start_matches`).
pub open spec fn trim_start_in(s: Seq<char>, set: Seq<char>) -> Seq<char>
    decreases s.len(),
{
    if s.len() > 0 && set.contains(s[0]) {
        trim_start_in(s.drop_first(), set)
    } else {
        s
    }
}

/// Strips characters of `set` from both ends (`trim_matches`).
pub open spec fn trim_in(s: Seq<char>, set: Seq<char>) -> Seq<char> {
    trim_end_in(trim_start_in(s, set), set)
}

/// Whitespace-separated words, scanning from position `i` with the word `cur`
/// already begun.
pub open spec fn words_from(s: Seq<char>, i: int, cur: Seq<char>) -> Seq<Seq<char>>
    decreases s.len() - i,
{
    if i >= s.len() || i < 0 {
        if cur.len() > 0 {
            seq![cur]
        } else {
            seq![]
        }
    } else if is_ws(s[i]) {
        (if cur.len() > 0 {
            seq![cur]
        } else {
            seq![]
        }) + words_from(s, i + 1, seq![])
    } else {
        words_from(s, i + 1, cur.push(s[i]))
    }
}

/// `str::split_whitespace`: the maximal runs of non-white-space characters.
pub open spec fn words(s: Seq<char>) -> Seq<Seq<char>> {
    words_from(s, 0, seq![])
}

/// The character sequences held by a list of character vectors.
pub open spec fn views(v: Seq<Vec<char>>) -> Seq<Seq<char>> {
    v.map_values(|x: Vec<char>| x@)
}

/// The character sequences held by a list of strings.
pub open spec fn sviews(v: Seq<String>) -> Seq<Seq<char>> {
    v.map_values(|x: String| x@)
}

/// `join` of a list of strings with a separator.
pub open spec fn join(parts: Seq<Seq<char>>, sep: Seq<char>) -> Seq<char>
    decreases parts.len(),
{
    if parts.len() == 0 {
        seq![]
    } else if parts.len() == 1 {
        parts[0]
    } else {
        join(parts.drop_last(), sep) + sep + parts.last()
    }
}

/// `str::split(c)`: the pieces between occurrences of `c`, scanning from `i`
/// with the piece `cur` already begun.
pub open spec fn split_from(s: Seq<char>, c: char, i: int, cur: Seq<char>) -> Seq<Seq<char>>
    decreases s.len() - i,
{
    if i >= s.len() || i < 0 {
        seq![cur]
    } else if s[i] == c {
        seq![cur] + split_from(s, c, i + 1, seq![])
    } else {
        split_from(s, c, i + 1, cur.push(s[i]))
    }
}

pub open spec fn split_on(s: Seq<char>, c: char) -> Seq<Seq<char>> {
    split_from(s, c, 0, seq![])
}

/// Number of occurrences of `c` in `s`.
pub open spec fn count_char(s: Seq<char>, c: char) -> nat
    decreases s.len(),
{
    if s.len() == 0 {
        0
    } else {
        count_char(s.drop_last(), c) + (if s.last() == c {
            1nat
        } else {
            0nat
        })
    }
}

/// Decimal digits of a natural number, as `usize`'s `Display` writes them.
pub open spec fn decimal(n: nat) -> Seq<char>
    decreases n,
{
    if n < 10 {
        seq![digit_char(n)]
    } else {
        decimal(n / 10).push(digit_char(n % 10))
    }
}

pub open spec fn digit_char(d: nat) -> char {
    if d == 0 {
        '0'
    } else if d == 1 {
        '1'
    } else if d == 2 {
        '2'
    } else if d == 3 {
        '3'
    } else if d == 4 {
        '4'
    } else if d == 5 {
        '5'
    } else if d == 6 {
        '6'
    } else if d == 7 {
        '7'
    } else if d == 8 {
        '8'
    } else {
        '9'
    }
}

// ---------------------------------------------------------------------------
// Executable helpers
// ---------------------------------------------------------------------------

/// Appends one character to a string.
#[verifier::external_body]
pub(crate) fn push_char(s: &mut String, c: char)
    ensures
        final(s)@ == old(s)@.push(c),
{
    s.push(c);
}

/// The characters of a string slice, in order.
pub fn chars_of(s: &str) -> (r: Vec<char>)
    ensures
        r@ == s@,
{
    let mut out: Vec<char> = Vec::new();
    for c in it: s.chars()
        invariant
            out@ == it.seq().take(it.index() as int),
    {
        out.push(c);
    }
    out
}

/// A string holding exactly the given characters.
pub fn string_of(v: &Vec<char>) -> (r: String)
    ensures
        r@ == v@,
{
    let mut s = String::new();
    let mut i: usize = 0;
    while i < v.len()
        invariant
            i <= v.len(),
            s@ == v@.take(i as int),
        decreases v.len() - i,
    {
        push_char(&mut s, v[i]);
        assert(v@.take(i + 1) == v@.take(i as int).push(v@[i as int]));
        i += 1;
    }
    assert(v@.take(v.len() as int) == v@);
    s
}

pub fn append_chars(out: &mut Vec<char>, x: &Vec<char>)
    ensures
        final(out)@ == old(out)@ + x@,
{
    let mut i: usize = 0;
    while i < x.len()
        invariant
            i <= x.len(),
            out@ == old(out)@ + x@.take(i as int),
        decreases x.len() - i,
    {
        out.push(x[i]);
        assert(x@.take(i + 1) == x@.take(i as int).push(x@[i as int]));
        i += 1;
    }
    assert(x@.take(x.len() as int) == x@);
}

pub fn append_str(out: &mut Vec<char>, x: &str)
    ensures
        final(out)@ == old(out)@ + x@,
{
    let v = chars_of(x);
    append_chars(out, &v);
}

pub fn sub_chars(v: &Vec<char>, lo: usize, hi: usize) -> (r: Vec<char>)
    requires
        lo <= hi <= v.len(),
    ensures
        r@ == v@.subrange(lo as int, hi as int),
{
    let mut out: Vec<char> = Vec::new();
    let mut i = lo;
    while i < hi
        invariant
            lo <= i <= hi <= v.len(),
            out@ == v@.subrange(lo as int, i as int),
        decreases hi - i,
    {
        out.push(v[i]);
        assert(v@.subrange(lo as int, i + 1) == v@.subrange(lo as int, i as int).push(v@[i as int]));
        i += 1;
    }
    out
}

pub fn chars_eq(a: &Vec<char>, b: &Vec<char>) -> (r: bool)
    ensures
        r == (a@ == b@),
{
    if a.len() != b.len() {
        return false;
    }
    let mut i: usize = 0;
    while i < a.len()
        invariant
            a.len() == b.len(),
            i <= a.len(),
            forall|j: int| 0 <= j < i ==> a@[j] == b@[j],
        decreases a.len() - i,
    {
        if a[i] != b[i] {
            return false;
        }
        i += 1;
    }
    assert(a@ =~= b@);
    true
}

pub fn upper_chars(v: &Vec<char>) -> (r: Vec<char>)
    ensures
        r@ == upper(v@),
{
    let mut out: Vec<char> = Vec::new();
    let mut i: usize = 0;
    while i < v.len()
        invariant
            i <= v.len(),
            out@ == upper(v@.take(i as int)),
        decreases v.len() - i,
    {
        out.push(char_upper(v[i]));
        assert(upper(v@.take(i + 1)) == upper(v@.take(i as int)).push(ascii_upper(v@[i as int])));
        i += 1;
    }
    assert(v@.take(v.len() as int) == v@);
    out
}

pub fn lower_chars(v: &Vec<char>) -> (r: Vec<char>)
    ensures
        r@ == lower(v@),
{
    let mut out: Vec<char> = Vec::new();
    let mut i: usize = 0;
    while i < v.len()
        invariant
            i <= v.len(),
            out@ == lower(v@.take(i as int)),
        decreases v.len() - i,
    {
        out.push(char_lower(v[i]));
        assert(lower(v@.take(i + 1)) == lower(v@.take(i as int)).push(ascii_lower(v@[i as int])));
        i += 1;
    }
    assert(v@.take(v.len() as int) == v@);
    out
}

pub fn eq_ignore_case(a: &Vec<char>, b: &Vec<char>) -> (r: bool)
    ensures
        r == eq_ic(a@, b@),
{
    let la = lower_chars(a);
    let lb = lower_chars(b);
    chars_eq(&la, &lb)
}

/// Case-insensitive comparison against a literal.
pub fn eq_ignore_case_str(a: &Vec<char>, b: &str) -> (r: bool)
    ensures
        r == eq_ic(a@, b@),
{
    let bv = chars_of(b);
    eq_ignore_case(a, &bv)
}

pub fn occurs_at_exec(s: &Vec<char>, p: &Vec<char>, i: usize) -> (r: bool)
    ensures
        r == occurs_at(s@, p@, i as int),
{
    if i > s.len() || p.len() > s.len() - i {
        return false;
    }
    let mut j: usize = 0;
    while j < p.len()
        invariant
            i + p.len() <= s.len(),
            j <= p.len(),
            forall|k: int| 0 <= k < j ==> s@[i + k] == p@[k],
        decreases p.len() - j,
    {
        if s[i + j] != p[j] {
            assert(s@.subrange(i as int, i + p.len())[j as int] != p@[j as int]);
            return false;
        }
        j += 1;
    }
    assert(s@.subrange(i as int, i + p.len()) =~= p@);
    true
}

pub fn contains_chars(s: &Vec<char>, p: &Vec<char>) -> (r: bool)
    ensures
        r == contains(s@, p@),
{
    if p.len() > s.len() {
        return false;
    }
    let last = s.len() - p.len();
    let mut i: usize = 0;
    loop
        invariant
            p.len() <= s.len(),
            last == s.len() - p.len(),
            i <= last,
            forall|k: int| 0 <= k < i ==> !occurs_at(s@, p@, k),
        decreases last - i,
    {
        if occurs_at_exec(s, p, i) {
            return true;
        }
        if i == last {
            assert forall|k: int| occurs_at(s@, p@, k) implies k <= last by {}
            return false;
        }
        i += 1;
    }
}

pub fn contains_str(s: &Vec<char>, p: &str) -> (r: bool)
    ensures
        r == contains(s@, p@),
{
    let pv = chars_of(p);
    contains_chars(s, &pv)
}

pub fn starts_with_str(s: &Vec<char>, p: &str) -> (r: bool)
    ensures
        r == starts_with(s@, p@),
{
    let pv = chars_of(p);
    let r = occurs_at_exec(s, &pv, 0);
    assert(r == starts_with(s@, p@)) by {
        if pv.len() <= s.len() {
            assert(s@.subrange(0, pv.len() as int) == s@.take(pv.len() as int));
        }
    }
    r
}

pub fn set_contains(set: &Vec<char>, c: char) -> (r: bool)
    ensures
        r == set@.contains(c),
{
    let mut i: usize = 0;
    while i < set.len()
        invariant
            i <= set.len(),
            forall|k: int| 0 <= k < i ==> set@[k] != c,
        decreases set.len() - i,
    {
        if set[i] == c {
            return true;
        }
        i += 1;
    }
    false
}

proof fn lemma_trim_start_skip(s: Seq<char>, i: int)
    requires
        0 <= i < s.len(),
        is_ws(s[i]),
    ensures
        trim_start(s.skip(i)) == trim_start(s.skip(i + 1)),
{
    assert(s.skip(i).drop_first() =~= s.skip(i + 1));
}

proof fn lemma_trim_end_take(s: Seq<char>, j: int)
    requires
        0 < j <= s.len(),
        is_ws(s[j - 1]),
    ensures
        trim_end(s.take(j)) == trim_end(s.take(j - 1)),
{
    assert(s.take(j).drop_last() =~= s.take(j - 1));
}

proof fn lemma_trim_start_in_skip(s: Seq<char>, set: Seq<char>, i: int)
    requires
        0 <= i < s.len(),
        set.contains(s[i]),
    ensures
        trim_start_in(s.skip(i), set) == trim_start_in(s.skip(i + 1), set),
{
    assert(s.skip(i).drop_first() =~= s.skip(i + 1));
}

proof fn lemma_trim_end_in_take(s: Seq<char>, set: Seq<char>, j: int)
    requires
        0 < j <= s.len(),
        set.contains(s[j - 1]),
    ensures
        trim_end_in(s.take(j), set) == trim_end_in(s.take(j - 1), set),
{
    assert(s.take(j).drop_last() =~= s.take(j - 1));
}

pub fn trim_start_chars(v: &Vec<char>) -> (r: Vec<char>)
    ensures
        r@ == trim_start(v@),
{
    let mut i: usize = 0;
    assert(v@.skip(0) =~= v@);
    while i < v.len() && char_is_ws(v[i])
        invariant
            i <= v.len(),
            trim_start(v@) == trim_start(v@.skip(i as int)),
        decreases v.len() - i,
    {
        proof {
            lemma_trim_start_skip(v@, i as int);
        }
        i += 1;
    }
    assert(v@.skip(0) =~= v@);
    let r = sub_chars(v, i, v.len());
    assert(r@ =~= v@.skip(i as int));
    r
}

pub fn trim_end_chars(v: &Vec<char>) -> (r: Vec<char>)
    ensures
        r@ == trim_end(v@),
{
    let mut j: usize = v.len();
    assert(v@.take(v.len() as int) =~= v@);
    while j > 0 && char_is_ws(v[j - 1])
        invariant
            j <= v.len(),
            trim_end(v@) == trim_end(v@.take(j as int)),
        decreases j,
    {
        proof {
            lemma_trim_end_take(v@, j as int);
        }
        j -= 1;
    }
    assert(v@.take(v.len() as int) =~= v@);
    let r = sub_chars(v, 0, j);
    assert(r@ =~= v@.take(j as int));
    r
}

pub fn trim_chars(v: &Vec<char>) -> (r: Vec<char>)
    ensures
        r@ == trim(v@),
{
    let a = trim_start_chars(v);
    trim_end_chars(&a)
}

pub fn trim_start_in_chars(v: &Vec<char>, set: &Vec<char>) -> (r: Vec<char>)
    ensures
        r@ == trim_start_in(v@, set@),
{
    let mut i: usize = 0;
    assert(v@.skip(0) =~= v@);
    while i < v.len() && set_contains(set, v[i])
        invariant
            i <= v.len(),
            trim_start_in(v@, set@) == trim_start_in(v@.skip(i as int), set@),
        decreases v.len() - i,
    {
        proof {
            lemma_trim_start_in_skip(v@, set@, i as int);
        }
        i += 1;
    }
    assert(v@.skip(0) =~= v@);
    let r = sub_chars(v, i, v.len());
    assert(r@ =~= v@.skip(i as int));
    r
}

pub fn trim_end_in_chars(v: &Vec<char>, set: &Vec<char>) -> (r: Vec<char>)
    ensures
        r@ == trim_end_in(v@, set@),
{
    let mut j: usize = v.len();
    assert(v@.take(v.len() as int) =~= v@);
    while j > 0 && set_contains(set, v[j - 1])
        invariant
            j <= v.len(),
            trim_end_in(v@, set@) == trim_end_in(v@.take(j as int), set@),
        decreases j,
    {
        proof {
            lemma_trim_end_in_take(v@, set@, j as int);
        }
        j -= 1;
    }
    assert(v@.take(v.len() as int) =~= v@);
    let r = sub_chars(v, 0, j);
    assert(r@ =~= v@.take(j as int));
    r
}

pub fn trim_in_chars(v: &Vec<char>, set: &Vec<char>) -> (r: Vec<char>)
    ensures
        r@ == trim_in(v@, set@),
{
    let a = trim_start_in_chars(v, set);
    trim_end_in_chars(&a, set)
}

/// `split_whitespace`.
pub fn words_chars(v: &Vec<char>) -> (r: Vec<Vec<char>>)
    ensures
        views(r@) == words(v@),
{
    let mut out: Vec<Vec<char>> = Vec::new();
    let mut cur: Vec<char> = Vec::new();
    let mut i: usize = 0;
    while i < v.len()
        invariant
            i <= v.len(),
            views(out@) + words_from(v@, i as int, cur@) == words(v@),
        decreases v.len() - i,
    {
        if char_is_ws(v[i]) {
            let ghost rest = words_from(v@, i + 1, seq![]);
            if cur.len() > 0 {
                let ghost before = out@;
                let ghost cv = cur@;
                assert(words_from(v@, i as int, cv) == seq![cv] + rest);
                out.push(cur);
                assert(views(out@) =~= views(before) + seq![cv]);
                assert(views(before) + (seq![cv] + rest) =~= views(out@) + rest);
                cur = Vec::new();
            } else {
                assert(words_from(v@, i as int, cur@) =~= rest);
            }
            assert(cur@ =~= seq![]);
        } else {
            cur.push(v[i]);
        }
        i += 1;
    }
    if cur.len() > 0 {
        let ghost before = out@;
        let ghost cv = cur@;
        out.push(cur);
        assert(views(out@) =~= views(before) + seq![cv]);
    } else {
        assert(views(out@) + seq![] =~= views(out@));
    }
    out
}

/// `join` with a separator.
pub fn join_chars(parts: &Vec<Vec<char>>, sep: &Vec<char>) -> (r: Vec<char>)
    ensures
        r@ == join(views(parts@), sep@),
{
    let mut out: Vec<char> = Vec::new();
    let mut i: usize = 0;
    while i < parts.len()
        invariant
            i <= parts.len(),
            out@ == join(views(parts@).take(i as int), sep@),
        decreases parts.len() - i,
    {
        let ghost pv = views(parts@);
        assert(pv.take(i + 1).drop_last() =~= pv.take(i as int));
        if i > 0 {
            append_chars(&mut out, sep);
        }
        append_chars(&mut out, &parts[i]);
        assert(pv.take(i + 1).last() == parts@[i as int]@);
        i += 1;
    }
    assert(views(parts@).take(parts.len() as int) =~= views(parts@));
    out
}

/// `str::split(c)`.
pub fn split_on_chars(v: &Vec<char>, c: char) -> (r: Vec<Vec<char>>)
    ensures
        views(r@) == split_on(v@, c),
{
    let mut out: Vec<Vec<char>> = Vec::new();
    let mut cur: Vec<char> = Vec::new();
    let mut i: usize = 0;
    while i < v.len()
        invariant
            i <= v.len(),
            views(out@) + split_from(v@, c, i as int, cur@) == split_on(v@, c),
        decreases v.len() - i,
    {
        if v[i] == c {
            let ghost before = out@;
            let ghost cv = cur@;
            out.push(cur);
            assert(views(out@) =~= views(before) + seq![cv]);
            cur = Vec::new();
        } else {
            cur.push(v[i]);
        }
        i += 1;
    }
    let ghost before = out@;
    let ghost cv = cur@;
    out.push(cur);
    assert(views(out@) =~= views(before) + seq![cv]);
    out
}

/// Decimal representation of a `usize`.
pub fn decimal_chars(n: usize) -> (r: Vec<char>)
    ensures
        r@ == decimal(n as nat),
    decreases n,
{
    let d = n % 10;
    let c = if d == 0 {
        '0'
    } else if d == 1 {
        '1'
    } else if d == 2 {
        '2'
    } else if d == 3 {
        '3'
    } else if d == 4 {
        '4'
    } else if d == 5 {
        '5'
    } else if d == 6 {
        '6'
    } else if d == 7 {
        '7'
    } else if d == 8 {
        '8'
    } else {
        '9'
    };
    if n < 10 {
        let mut v = Vec::new();
        v.push(c);
        assert(v@ =~= seq![digit_char(n as nat)]);
        v
    } else {
        let mut v = decimal_chars(n / 10);
        v.push(c);
        v
    }
}


// ---------------------------------------------------------------------------
// Ordering of strings
// ---------------------------------------------------------------------------

/// Lexicographic order by code point, which is the order of `String`'s `Ord`
/// (UTF-8 byte order agrees with code point order).
pub open spec fn str_lt(a: Seq<char>, b: Seq<char>) -> bool
    decreases a.len(),
{
    if a.len() == 0 {
        b.len() > 0
    } else if b.len() == 0 {
        false
    } else if a[0] != b[0] {
        a[0] < b[0]
    } else {
        str_lt(a.drop_first(), b.drop_first())
    }
}

/// Strictly increasing: sorted and without repeats.
pub open spec fn sorted_strict(s: Seq<Seq<char>>) -> bool {
    forall|i: int, j: int| 0 <= i < j < s.len() ==> str_lt(#[trigger] s[i], #[trigger] s[j])
}

pub proof fn lemma_str_lt_irrefl(a: Seq<char>)
    ensures
        !str_lt(a, a),
    decreases a.len(),
{
    if a.len() > 0 {
        lemma_str_lt_irrefl(a.drop_first());
    }
}

pub proof fn lemma_str_lt_trans(a: Seq<char>, b: Seq<char>, c: Seq<char>)
    requires
        str_lt(a, b),
        str_lt(b, c),
    ensures
        str_lt(a, c),
    decreases a.len(),
{
    if a.len() > 0 && b.len() > 0 && c.len() > 0 && a[0] == b[0] && b[0] == c[0] {
        lemma_str_lt_trans(a.drop_first(), b.drop_first(), c.drop_first());
    }
}

pub proof fn lemma_str_lt_total(a: Seq<char>, b: Seq<char>)
    ensures
        a != b ==> str_lt(a, b) || str_lt(b, a),
        !(str_lt(a, b) && str_lt(b, a)),
    decreases a.len(),
{
    if a.len() > 0 && b.len() > 0 {
        if a[0] == b[0] {
            lemma_str_lt_total(a.drop_first(), b.drop_first());
            if a.drop_first() == b.drop_first() {
                assert(a =~= seq![a[0]] + a.drop_first());
                assert(b =~= seq![b[0]] + b.drop_first());
            }
        }
    } else if a.len() == 0 && b.len() == 0 {
        assert(a =~= b);
    }
}

pub fn str_less(a: &Vec<char>, b: &Vec<char>) -> (r: bool)
    ensures
        r == str_lt(a@, b@),
{
    let mut i: usize = 0;
    assert(a@.skip(0) =~= a@);
    assert(b@.skip(0) =~= b@);
    loop
        invariant
            i <= a.len(),
            i <= b.len(),
            str_lt(a@.skip(i as int), b@.skip(i as int)) == str_lt(a@, b@),
        decreases a.len() - i,
    {
        if i == a.len() {
            return i < b.len();
        }
        if i == b.len() {
            return false;
        }
        if a[i] != b[i] {
            return a[i] < b[i];
        }
        assert(a@.skip(i as int).drop_first() =~= a@.skip(i + 1));
        assert(b@.skip(i as int).drop_first() =~= b@.skip(i + 1));
        i += 1;
    }
}

/// Adds `x` to a strictly increasing list, keeping it strictly increasing.
pub fn insert_sorted_unique(v: &mut Vec<Vec<char>>, x: Vec<char>)
    requires
        sorted_strict(views(old(v)@)),
    ensures
        sorted_strict(views(final(v)@)),
        forall|y: Seq<char>| views(final(v)@).contains(y) <==> (views(old(v)@).contains(y) || y == x@),
{
    let ghost ov = views(v@);
    let mut p: usize = 0;
    while p < v.len() && str_less(&v[p], &x)
        invariant
            p <= v.len(),
            ov == views(v@),
            forall|k: int| 0 <= k < p ==> str_lt(ov[k], x@),
        decreases v.len() - p,
    {
        p += 1;
    }
    if p < v.len() && chars_eq(&v[p], &x) {
        assert(ov[p as int] == x@);
        return;
    }
    let ghost xv = x@;
    v.insert(p, x);
    assert(views(v@) =~= ov.insert(p as int, xv));
    proof {
        if p < ov.len() {
            lemma_str_lt_total(ov[p as int], xv);
        }
        let nv = views(v@);
        assert forall|i: int, j: int| 0 <= i < j < nv.len() implies str_lt(#[trigger] nv[i], #[trigger] nv[j]) by {
            if j < p {
                assert(nv[i] == ov[i] && nv[j] == ov[j]);
            } else if j == p {
                assert(nv[i] == ov[i]);
            } else if i == p {
                assert(nv[j] == ov[j - 1]);
                if j - 1 > p {
                    lemma_str_lt_trans(xv, ov[p as int], ov[j - 1]);
                }
            } else if i < p {
                assert(nv[i] == ov[i] && nv[j] == ov[j - 1]);
                if j - 1 >= p {
                    lemma_str_lt_trans(ov[i], xv, ov[p as int]);
                    if j - 1 > p {
                        lemma_str_lt_trans(ov[i], ov[p as int], ov[j - 1]);
                    }
                }
            } else {
                assert(nv[i] == ov[i - 1] && nv[j] == ov[j - 1]);
            }
        }
        assert forall|y: Seq<char>| nv.contains(y) <==> (ov.contains(y) || y == xv) by {
            if nv.contains(y) {
                let k = choose|k: int| 0 <= k < nv.len() && nv[k] == y;
                if k < p {
                    assert(ov[k] == y);
                } else if k > p {
                    assert(ov[k - 1] == y);
                }
            }
            if ov.contains(y) {
                let k = choose|k: int| 0 <= k < ov.len() && ov[k] == y;
                if k < p {
                    assert(nv[k] == y);
                } else {
                    assert(nv[k + 1] == y);
                }
            }
            if y == xv {
                assert(nv[p as int] == y);
            }
        }
    }
}

/// Both lists hold the same items.
pub open spec fn same_items(a: Seq<Seq<char>>, b: Seq<Seq<char>>) -> bool {
    forall|y: Seq<char>| a.contains(y) <==> b.contains(y)
}

/// The distinct items, sorted: the one strictly increasing list that holds
/// exactly the given items.
pub open spec fn sorted_set(items: Seq<Seq<char>>) -> Seq<Seq<char>> {
    choose|s: Seq<Seq<char>>| sorted_strict(s) && same_items(s, items)
}

/// A strictly increasing list is determined by its items.
pub proof fn lemma_sorted_unique(s: Seq<Seq<char>>, t: Seq<Seq<char>>)
    requires
        sorted_strict(s),
        sorted_strict(t),
        same_items(s, t),
    ensures
        s == t,
    decreases s.len(),
{
    if s.len() == 0 {
        if t.len() > 0 {
            assert(t.contains(t[0]));
        }
        assert(s =~= t);
    } else {
        assert(s.contains(s[0]));
        let k = choose|k: int| 0 <= k < t.len() && t[k] == s[0];
        assert(t.contains(t[0]));
        let j = choose|j: int| 0 <= j < s.len() && s[j] == t[0];
        if k > 0 {
            assert(str_lt(t[0], t[k]));
            if j > 0 {
                assert(str_lt(s[0], s[j]));
                lemma_str_lt_total(s[0], s[j]);
            } else {
                lemma_str_lt_irrefl(s[0]);
            }
        }
        assert(t[0] == s[0]);
        let s1 = s.drop_first();
        let t1 = t.drop_first();
        assert forall|y: Seq<char>| s1.contains(y) <==> t1.contains(y) by {
            if s1.contains(y) {
                let i = choose|i: int| 0 <= i < s1.len() && s1[i] == y;
                assert(str_lt(s[0], s[i + 1]));
                assert(s.contains(y));
                let m = choose|m: int| 0 <= m < t.len() && t[m] == y;
                if m == 0 {
                    lemma_str_lt_irrefl(s[0]);
                }
                assert(t1[m - 1] == y);
            }
            if t1.contains(y) {
                let i = choose|i: int| 0 <= i < t1.len() && t1[i] == y;
                assert(str_lt(t[0], t[i + 1]));
                assert(t.contains(y));
                let m = choose|m: int| 0 <= m < s.len() && s[m] == y;
                if m == 0 {
                    lemma_str_lt_irrefl(t[0]);
                }
                assert(s1[m - 1] == y);
            }
        }
        assert(sorted_strict(s1));
        assert(sorted_strict(t1));
        lemma_sorted_unique(s1, t1);
        assert(s =~= seq![s[0]] + s1);
        assert(t =~= seq![t[0]] + t1);
    }
}

proof fn lemma_trim_start(s: Seq<char>)
    ensures
        exists|a: int| 0 <= a <= s.len() && trim_start(s) == s.subrange(a, s.len() as int),
        trim_start(s).len() > 0 ==> !is_ws(trim_start(s)[0]),
    decreases s.len(),
{
    if s.len() > 0 && is_ws(s[0]) {
        lemma_trim_start(s.drop_first());
        let a = choose|a: int|
            0 <= a <= s.drop_first().len() && trim_start(s.drop_first()) == s.drop_first().subrange(
                a,
                s.drop_first().len() as int,
            );
        assert(s.drop_first().subrange(a, s.drop_first().len() as int) =~= s.subrange(
            a + 1,
            s.len() as int,
        ));
    } else {
        assert(s.subrange(0, s.len() as int) =~= s);
    }
}

proof fn lemma_trim_end(s: Seq<char>)
    ensures
        exists|b: int| 0 <= b <= s.len() && trim_end(s) == s.subrange(0, b),
        trim_end(s).len() > 0 ==> !is_ws(trim_end(s).last()),
    decreases s.len(),
{
    if s.len() > 0 && is_ws(s.last()) {
        lemma_trim_end(s.drop_last());
        let b = choose|b: int|
            0 <= b <= s.drop_last().len() && trim_end(s.drop_last()) == s.drop_last().subrange(0, b);
        assert(s.drop_last().subrange(0, b) =~= s.subrange(0, b));
    } else {
        assert(s.subrange(0, s.len() as int) =~= s);
    }
}

/// Trimming twice is trimming once.
pub proof fn lemma_trim_idempotent(s: Seq<char>)
    ensures
        trim(trim(s)) == trim(s),
{
    let t = trim_start(s);
    lemma_trim_start(s);
    lemma_trim_end(t);
    let y = trim_end(t);
    let b = choose|b: int| 0 <= b <= t.len() && y == t.subrange(0, b);
    if y.len() > 0 {
        assert(y[0] == t[0]);
        assert(trim_start(y) == y);
        assert(trim_end(y) == y);
    }
}

pub proof fn lemma_trim_range(s: Seq<char>)
    ensures
        exists|a: int, e: int|
            0 <= a <= e <= s.len() && trim(s) == s.subrange(a, e) && (forall|j: int|
                0 <= j < a ==> is_ws(#[trigger] s[j])) && (forall|j: int|
                e <= j < s.len() ==> is_ws(#[trigger] s[j])) && (a < e ==> !is_ws(s[a]) && !is_ws(
                s[e - 1],
            )),
{
    assert(s.skip(0) =~= s);
    lemma_trim_start_exact(s, 0);
    let a = choose|a: int|
        0 <= a <= s.len() && trim_start(s) == s.skip(a) && (forall|j: int|
            0 <= j < a ==> is_ws(#[trigger] s[j])) && (a < s.len() ==> !is_ws(s[a]));
    let t = s.skip(a);
    lemma_trim_end_exact(t);
    let e2 = choose|e2: int|
        0 <= e2 <= t.len() && trim_end(t) == t.take(e2) && (forall|j: int|
            e2 <= j < t.len() ==> is_ws(#[trigger] t[j])) && (e2 > 0 ==> !is_ws(t[e2 - 1]));
    let e = a + e2;
    assert(trim(s) =~= s.subrange(a, e));
    assert forall|j: int| e <= j < s.len() implies is_ws(#[trigger] s[j]) by {
        assert(s[j] == t[j - a]);
    }
    if a < e {
        assert(s[a] == t[0]);
        assert(s[e - 1] == t[e2 - 1]);
        assert(!is_ws(t[0])) by {
            if is_ws(t[0]) {
                assert(t[0] == s[a]);
            }
        }
    }
}

proof fn lemma_trim_start_exact(s: Seq<char>, i: int)
    requires
        0 <= i <= s.len(),
        forall|j: int| 0 <= j < i ==> is_ws(#[trigger] s[j]),
        trim_start(s) == trim_start(s.skip(i)),
    ensures
        exists|a: int|
            0 <= a <= s.len() && trim_start(s) == s.skip(a) && (forall|j: int|
                0 <= j < a ==> is_ws(#[trigger] s[j])) && (a < s.len() ==> !is_ws(s[a])),
    decreases s.len() - i,
{
    let r = s.skip(i);
    if r.len() > 0 && is_ws(r[0]) {
        assert(r.drop_first() =~= s.skip(i + 1));
        assert(s[i] == r[0]);
        lemma_trim_start_exact(s, i + 1);
    } else {
        assert(trim_start(r) == r);
        if i < s.len() {
            assert(s[i] == r[0]);
        }
    }
}

proof fn lemma_trim_end_exact(s: Seq<char>)
    ensures
        exists|e: int|
            0 <= e <= s.len() && trim_end(s) == s.take(e) && (forall|j: int|
                e <= j < s.len() ==> is_ws(#[trigger] s[j])) && (e > 0 ==> !is_ws(s[e - 1])),
    decreases s.len(),
{
    if s.len() > 0 && is_ws(s.last()) {
        lemma_trim_end_exact(s.drop_last());
        let e = choose|e: int|
            0 <= e <= s.drop_last().len() && trim_end(s.drop_last()) == s.drop_last().take(e) && (
            forall|j: int| e <= j < s.drop_last().len() ==> is_ws(#[trigger] s.drop_last()[j])) && (e
                > 0 ==> !is_ws(s.drop_last()[e - 1]));
        assert(s.drop_last().take(e) =~= s.take(e));
        assert forall|j: int| e <= j < s.len() implies is_ws(#[trigger] s[j]) by {
            if j < s.len() - 1 {
                assert(s[j] == s.drop_last()[j]);
            }
        }
        if e > 0 {
            assert(s[e - 1] == s.drop_last()[e - 1]);
        }
    } else {
        assert(s.take(s.len() as int) =~= s);
    }
}

/// Trimming what follows a position gives a suffix of the whole text
/// trimmed.
pub proof fn lemma_trim_suffix(st: Seq<char>, b: int)
    requires
        0 <= b <= st.len(),
    ensures
        trim(st.skip(b)).len() <= trim(st).len(),
        trim(st).skip(trim(st).len() - trim(st.skip(b)).len()) == trim(st.skip(b)),
{
    lemma_trim_range(st);
    let (a, e) = choose|a: int, e: int|
        0 <= a <= e <= st.len() && trim(st) == st.subrange(a, e) && (forall|j: int|
            0 <= j < a ==> is_ws(#[trigger] st[j])) && (forall|j: int|
            e <= j < st.len() ==> is_ws(#[trigger] st[j])) && (a < e ==> !is_ws(st[a]) && !is_ws(
            st[e - 1],
        ));
    let t = trim(st);
    let u = st.skip(b);
    let body = trim(u);
    lemma_trim_range(u);
    let (a2, e2) = choose|a2: int, e2: int|
        0 <= a2 <= e2 <= u.len() && trim(u) == u.subrange(a2, e2) && (forall|j: int|
            0 <= j < a2 ==> is_ws(#[trigger] u[j])) && (forall|j: int|
            e2 <= j < u.len() ==> is_ws(#[trigger] u[j])) && (a2 < e2 ==> !is_ws(u[a2]) && !is_ws(
            u[e2 - 1],
        ));
    if a2 < e2 {
        assert(u[e2 - 1] == st[b + e2 - 1]);
        assert(u[a2] == st[b + a2]);
        if b + e2 < e {
            assert(st[e - 1] == u[e - 1 - b]);
        }
        if b + e2 > e {
            assert(is_ws(st[b + e2 - 1]));
        }
        if b + a2 < a {
            assert(is_ws(st[b + a2]));
        }
        assert(body =~= st.subrange(b + a2, e));
        assert(t.skip(t.len() - body.len()) =~= body);
    } else {
        assert(body =~= Seq::<char>::empty());
        assert(t.skip(t.len() - body.len()) =~= body);
    }
}

/// Position of the first item from `i` on that `x` sorts before.
pub open spec fn sorted_pos(s: Seq<Seq<char>>, x: Seq<char>, i: int) -> int
    decreases s.len() - i,
{
    if i < 0 || i >= s.len() {
        s.len() as int
    } else if str_lt(x, s[i]) {
        i
    } else {
        sorted_pos(s, x, i + 1)
    }
}

/// The items inserted one by one into a strictly increasing list.
pub open spec fn build_sorted(items: Seq<Seq<char>>) -> Seq<Seq<char>>
    decreases items.len(),
{
    if items.len() == 0 {
        seq![]
    } else {
        let p = build_sorted(items.drop_last());
        let x = items.last();
        if p.contains(x) {
            p
        } else {
            p.insert(sorted_pos(p, x, 0), x)
        }
    }
}

proof fn lemma_sorted_pos(s: Seq<Seq<char>>, x: Seq<char>, i: int)
    requires
        0 <= i <= s.len(),
    ensures
        i <= sorted_pos(s, x, i) <= s.len(),
        forall|t: int| i <= t < sorted_pos(s, x, i) ==> !str_lt(x, #[trigger] s[t]),
        sorted_pos(s, x, i) < s.len() ==> str_lt(x, s[sorted_pos(s, x, i)]),
    decreases s.len() - i,
{
    if i < s.len() && !str_lt(x, s[i]) {
        lemma_sorted_pos(s, x, i + 1);
    }
}

proof fn lemma_build_sorted(items: Seq<Seq<char>>)
    ensures
        sorted_strict(build_sorted(items)),
        same_items(build_sorted(items), items),
    decreases items.len(),
{
    if items.len() > 0 {
        let init = items.drop_last();
        lemma_build_sorted(init);
        let p = build_sorted(init);
        let x = items.last();
        assert forall|y: Seq<char>| items.contains(y) <==> (init.contains(y) || y == x) by {
            if items.contains(y) {
                let k = choose|k: int| 0 <= k < items.len() && items[k] == y;
                if k < items.len() - 1 {
                    assert(init[k] == y);
                }
            }
            if init.contains(y) {
                let k = choose|k: int| 0 <= k < init.len() && init[k] == y;
                assert(items[k] == y);
            }
            if y == x {
                assert(items[items.len() - 1] == y);
            }
        }
        if !p.contains(x) {
            lemma_sorted_pos(p, x, 0);
            let k = sorted_pos(p, x, 0);
            let q = p.insert(k, x);
            assert forall|t: int| 0 <= t < k implies str_lt(#[trigger] p[t], x) by {
                lemma_str_lt_total(p[t], x);
                assert(p.contains(p[t]));
            }
            assert forall|i: int, j: int| 0 <= i < j < q.len() implies str_lt(
                #[trigger] q[i],
                #[trigger] q[j],
            ) by {
                if j < k {
                    assert(q[i] == p[i] && q[j] == p[j]);
                } else if j == k {
                    assert(q[i] == p[i]);
                } else if i == k {
                    assert(q[j] == p[j - 1]);
                    if j - 1 > k {
                        lemma_str_lt_trans(x, p[k], p[j - 1]);
                    }
                } else if i < k {
                    assert(q[i] == p[i] && q[j] == p[j - 1]);
                    lemma_str_lt_trans(p[i], x, p[k]);
                    if j - 1 > k {
                        lemma_str_lt_trans(p[i], p[k], p[j - 1]);
                    }
                } else {
                    assert(q[i] == p[i - 1] && q[j] == p[j - 1]);
                }
            }
            assert forall|y: Seq<char>| q.contains(y) <==> (p.contains(y) || y == x) by {
                if q.contains(y) {
                    let t = choose|t: int| 0 <= t < q.len() && q[t] == y;
                    if t < k {
                        assert(p[t] == y);
                    } else if t > k {
                        assert(p[t - 1] == y);
                    }
                }
                if p.contains(y) {
                    let t = choose|t: int| 0 <= t < p.len() && p[t] == y;
                    if t < k {
                        assert(q[t] == y);
                    } else {
                        assert(q[t + 1] == y);
                    }
                }
                if y == x {
                    assert(q[k] == y);
                }
            }
        }
    }
}

/// `sorted_set` is strictly increasing and holds exactly the given items.
pub proof fn lemma_sorted_set(items: Seq<Seq<char>>)
    ensures
        sorted_strict(sorted_set(items)),
        same_items(sorted_set(items), items),
{
    lemma_build_sorted(items);
}

/// The distinct items of a list, sorted (`sort` then `dedup`).
pub fn sort_dedup(items: &Vec<Vec<char>>) -> (r: Vec<Vec<char>>)
    ensures
        views(r@) == sorted_set(views(items@)),
        sorted_strict(views(r@)),
        forall|y: Seq<char>| views(r@).contains(y) <==> views(items@).contains(y),
{
    let mut out: Vec<Vec<char>> = Vec::new();
    let mut i: usize = 0;
    while i < items.len()
        invariant
            i <= items.len(),
            sorted_strict(views(out@)),
            forall|y: Seq<char>| views(out@).contains(y) <==> views(items@).take(i as int).contains(y),
        decreases items.len() - i,
    {
        insert_sorted_unique(&mut out, items[i].clone());
        proof {
            let iv = views(items@);
            assert(iv.take(i + 1) =~= iv.take(i as int).push(iv[i as int]));
            let t1 = iv.take(i + 1);
            let t0 = iv.take(i as int);
            assert forall|y: Seq<char>| t1.contains(y) <==> (t0.contains(y) || y == iv[i as int]) by {
                if t1.contains(y) {
                    let k = choose|k: int| 0 <= k < t1.len() && t1[k] == y;
                    if k < i {
                        assert(t0[k] == y);
                    }
                }
                if t0.contains(y) {
                    let k = choose|k: int| 0 <= k < t0.len() && t0[k] == y;
                    assert(t1[k] == y);
                }
                if y == iv[i as int] {
                    assert(t1[i as int] == y);
                }
            }
        }
        i += 1;
    }
    assert(views(items@).take(items.len() as int) =~= views(items@));
    proof {
        let o = views(out@);
        assert(sorted_strict(o) && same_items(o, views(items@)));
        lemma_sorted_unique(o, sorted_set(views(items@)));
    }
    out
}

} // verus!
