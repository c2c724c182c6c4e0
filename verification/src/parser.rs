//! Extraction of the procedure's name, parameters, body, dependencies, temp
//! tables and statement summaries.
use vstd::prelude::*;
use crate::model::{
    dep_view, deps_view, param_view, params_view, Dependency, Operation, Parameter,
    StatementKind, StatementSummary,
};
use crate::normalizer::{
    emit, normalize_identifier_chars, normalize_identifier_spec, split_statements_chars,
    split_statements_spec, strip_comments_chars, strip_comments_spec,
};
use crate::pattern::{
    char_index, char_pos, regex_captures_iter, regex_find_iter, search_captures_iter,
    search_find_iter, span_chars, span_text, valid_span,
};
use crate::text::{
    chars_of, eq_ic, eq_ignore_case_str, is_ws, join, join_chars, starts_with,
    string_of, sub_chars, trim, trim_chars, trim_end, trim_end_chars, trim_end_in,
    trim_end_in_chars, trim_start, trim_start_chars, upper, upper_chars, views, words,
    words_chars, char_is_ws, lower, lower_chars, chars_eq, starts_with_str, contains,
    contains_str, sviews, sort_dedup, sorted_set, lemma_trim_idempotent, lemma_trim_suffix,
};

verus! {

/// `CREATE|ALTER [OR ALTER] PROC|PROCEDURE <name>`; group 1 is the name.
pub const DECL_PATTERN: &'static str = r"(?is)\b(?:CREATE|ALTER)\s+(?:OR\s+ALTER\s+)?(?:PROCEDURE|PROC)\s+([A-Za-z0-9_\[\]\.]+)";

/// A stand-alone `AS` keyword.
pub const AS_PATTERN: &'static str = r"(?is)\bAS\b";

/// Group 1 of the first match of the declaration pattern.
pub open spec fn decl_capture(stripped: Seq<char>) -> Option<(usize, usize)> {
    match regex_captures_iter(DECL_PATTERN@, stripped) {
        Some(caps) => if caps.len() > 0 {
            caps[0]
        } else {
            None
        },
        None => None,
    }
}

/// Character position just after the procedure's name.
pub open spec fn decl_end(stripped: Seq<char>) -> Option<int> {
    match decl_capture(stripped) {
        Some(sp) => Some(char_index(stripped, sp.1 as int)),
        None => None,
    }
}

pub open spec fn procedure_name_spec(sql: Seq<char>) -> Option<Seq<char>> {
    let st = strip_comments_spec(sql);
    match decl_capture(st) {
        Some(sp) => Some(normalize_identifier_spec(span_text(st, sp))),
        None => None,
    }
}

pub open spec fn captures_ok(s: Seq<char>, caps: Seq<Option<(usize, usize)>>) -> bool {
    forall|i: int| 0 <= i < caps.len() ==> (#[trigger] caps[i] matches Some(sp) ==> valid_span(s, sp))
}

pub open spec fn spans_ok(s: Seq<char>, spans: Seq<(usize, usize)>) -> bool {
    forall|i: int| 0 <= i < spans.len() ==> valid_span(s, #[trigger] spans[i])
}

/// The procedure name, given the capture spans found in the comment-free text.
pub fn procedure_name_from_captures(stripped: &Vec<char>, caps: &Option<Vec<Option<(usize, usize)>>>) -> (r: Option<Vec<char>>)
    requires
        caps matches Some(c) ==> captures_ok(stripped@, c@),
    ensures
        r matches Some(v) ==> (caps matches Some(c) && c@.len() > 0 && (c@[0] matches Some(sp) && v@ == normalize_identifier_spec(span_text(stripped@, sp)))),
        r is None ==> !(caps matches Some(c) && c@.len() > 0 && c@[0] is Some),
{
    match caps {
        Some(c) => {
            if c.len() > 0 {
                match c[0] {
                    Some(sp) => {
                        assert(valid_span(stripped@, sp));
                        let raw = span_chars(stripped, sp);
                        Some(normalize_identifier_chars(&raw))
                    },
                    None => None,
                }
            } else {
                None
            }
        },
        None => None,
    }
}

/// The name of the created or altered procedure, normalized.
pub fn extract_procedure_name(sql: &str) -> (r: Option<String>)
    ensures
        match r {
            Some(s) => procedure_name_spec(sql@) == Some(s@),
            None => procedure_name_spec(sql@) is None,
        },
{
    let v = chars_of(sql);
    let st = strip_comments_chars(&v);
    let sts = string_of(&st);
    let caps = search_captures_iter(DECL_PATTERN, &sts);
    match procedure_name_from_captures(&st, &caps) {
        Some(n) => Some(string_of(&n)),
        None => None,
    }
}


// ---------------------------------------------------------------------------
// Declaration end and body start
// ---------------------------------------------------------------------------

/// The character position just after the procedure's name, given the capture
/// spans found in the comment-free text.
pub fn decl_end_from_captures(stripped: &Vec<char>, caps: &Option<Vec<Option<(usize, usize)>>>) -> (r: Option<usize>)
    requires
        caps matches Some(c) ==> captures_ok(stripped@, c@),
    ensures
        match r {
            Some(e) => (caps matches Some(c) && c@.len() > 0 && (c@[0] matches Some(sp) && e == char_index(stripped@, sp.1 as int))) && e <= stripped@.len(),
            None => !(caps matches Some(c) && c@.len() > 0 && c@[0] is Some),
        },
{
    match caps {
        Some(c) => {
            if c.len() > 0 {
                match c[0] {
                    Some(sp) => {
                        assert(valid_span(stripped@, sp));
                        Some(char_pos(stripped, sp.1))
                    },
                    None => None,
                }
            } else {
                None
            }
        },
        None => None,
    }
}

fn procedure_decl_end(stripped: &Vec<char>) -> (r: Option<usize>)
    ensures
        match r {
            Some(e) => decl_end(stripped@) == Some(e as int) && e <= stripped@.len(),
            None => decl_end(stripped@) is None,
        },
{
    let sts = string_of(stripped);
    let caps = search_captures_iter(DECL_PATTERN, &sts);
    decl_end_from_captures(stripped, &caps)
}

/// The last white-space separated word, or the empty text.
pub open spec fn last_word(s: Seq<char>) -> Seq<char> {
    let w = words(s);
    if w.len() > 0 {
        w.last()
    } else {
        seq![]
    }
}

/// The first `AS` match (from match `j` on) that does not follow `EXECUTE`;
/// the character position just after it.
pub open spec fn body_start_in(rem: Seq<char>, spans: Seq<(usize, usize)>, j: int) -> Option<int>
    decreases spans.len() - j,
{
    if j < 0 || j >= spans.len() {
        None
    } else if !eq_ic(last_word(rem.take(char_index(rem, spans[j].0 as int))), "EXECUTE"@) {
        Some(char_index(rem, spans[j].1 as int))
    } else {
        body_start_in(rem, spans, j + 1)
    }
}

/// The first position at or after `i` that is not white space.
pub open spec fn skip_ws_from(s: Seq<char>, i: int) -> int
    decreases s.len() - i,
{
    if 0 <= i < s.len() && is_ws(s[i]) {
        skip_ws_from(s, i + 1)
    } else {
        i
    }
}

pub open spec fn body_start_from(st: Seq<char>, from: int, spans: Option<Seq<(usize, usize)>>) -> Option<int> {
    match spans {
        Some(sp) => match body_start_in(st.skip(from), sp, 0) {
            Some(k) => Some(skip_ws_from(st, from + k)),
            None => None,
        },
        None => None,
    }
}

/// Where the body begins: after the first `AS` (not `EXECUTE AS`) that follows
/// position `from`, and after the white space that follows it.
pub open spec fn body_start(st: Seq<char>, from: int) -> Option<int> {
    body_start_from(st, from, regex_find_iter(AS_PATTERN@, st.skip(from)))
}

pub proof fn lemma_skip_ws_bounds(s: Seq<char>, i: int)
    requires
        0 <= i <= s.len(),
    ensures
        i <= skip_ws_from(s, i) <= s.len(),
    decreases s.len() - i,
{
    if 0 <= i < s.len() && is_ws(s[i]) {
        lemma_skip_ws_bounds(s, i + 1);
    }
}

fn skip_ws(s: &Vec<char>, i: usize) -> (r: usize)
    requires
        i <= s.len(),
    ensures
        r == skip_ws_from(s@, i as int),
        i <= r <= s.len(),
{
    let mut k = i;
    while k < s.len() && char_is_ws(s[k])
        invariant
            i <= k <= s.len(),
            skip_ws_from(s@, k as int) == skip_ws_from(s@, i as int),
        decreases s.len() - k,
    {
        k += 1;
    }
    k
}

fn last_word_chars(s: &Vec<char>) -> (r: Vec<char>)
    ensures
        r@ == last_word(s@),
{
    let w = words_chars(s);
    if w.len() > 0 {
        let r = w[w.len() - 1].clone();
        r
    } else {
        let r: Vec<char> = Vec::new();
        assert(r@ =~= seq![]);
        r
    }
}

pub open spec fn opt_spans(o: Option<Vec<(usize, usize)>>) -> Option<Seq<(usize, usize)>> {
    match o {
        Some(v) => Some(v@),
        None => None,
    }
}

/// Where the body begins, given the `AS` matches found in the text after
/// position `from`.
pub fn body_start_from_matches(st: &Vec<char>, from: usize, spans: &Option<Vec<(usize, usize)>>) -> (r: Option<usize>)
    requires
        from <= st.len(),
        spans matches Some(v) ==> spans_ok(st@.skip(from as int), v@),
    ensures
        match r {
            Some(b) => body_start_from(st@, from as int, opt_spans(*spans)) == Some(b as int) && from <= b <= st@.len(),
            None => body_start_from(st@, from as int, opt_spans(*spans)) is None,
        },
{
    match spans {
        Some(v) => {
            let rem = sub_chars(st, from, st.len());
            assert(rem@ =~= st@.skip(from as int));
            let mut j: usize = 0;
            assert(opt_spans(*spans) == Some(v@));
            while j < v.len()
                invariant
                    opt_spans(*spans) == Some(v@),
                    j <= v@.len(),
                    rem@ == st@.skip(from as int),
                    spans_ok(rem@, v@),
                    from <= st.len(),
                    body_start_in(rem@, v@, j as int) == body_start_in(rem@, v@, 0),
                decreases v.len() - j,
            {
                let sp = v[j];
                assert(valid_span(rem@, v@[j as int]));
                let a = char_pos(&rem, sp.0);
                let before = sub_chars(&rem, 0, a);
                assert(before@ =~= rem@.take(a as int));
                let prev = last_word_chars(&before);
                if !eq_ignore_case_str(&prev, "EXECUTE") {
                    let k = char_pos(&rem, sp.1);
                    let idx = skip_ws(st, from + k);
                    assert(body_start_in(rem@, v@, j as int) == Some(k as int));
                    return Some(idx);
                }
                j += 1;
            }
            None
        },
        None => None,
    }
}

fn find_body_start(stripped: &Vec<char>, from: usize) -> (r: Option<usize>)
    requires
        from <= stripped.len(),
    ensures
        match r {
            Some(b) => body_start(stripped@, from as int) == Some(b as int) && from <= b <= stripped@.len(),
            None => body_start(stripped@, from as int) is None,
        },
{
    let rem = sub_chars(stripped, from, stripped.len());
    assert(rem@ =~= stripped@.skip(from as int));
    let rems = string_of(&rem);
    let spans = search_find_iter(AS_PATTERN, &rems);
    proof {
        match &spans {
            Some(v) => {
                assert(opt_spans(spans) == Some(v@));
                assert(spans_ok(stripped@.skip(from as int), v@));
            },
            None => {},
        }
    }
    body_start_from_matches(stripped, from, &spans)
}

/// The procedure body: the comment-free text after the declaration's `AS`,
/// trimmed; the whole comment-free text, trimmed, when there is none.
pub open spec fn body_sql_spec(sql: Seq<char>) -> Seq<char> {
    let st = strip_comments_spec(sql);
    match decl_end(st) {
        None => trim(st),
        Some(e) => match body_start(st, e) {
            Some(b) => trim(st.skip(b)),
            None => trim(st),
        },
    }
}

/// The body of the procedure, without comments.
pub fn extract_body_sql(sql: &str) -> (r: String)
    ensures
        r@ == body_sql_spec(sql@),
        trim(r@) == r@,
        r@.len() <= trim(strip_comments_spec(sql@)).len(),
        trim(strip_comments_spec(sql@)).skip(trim(strip_comments_spec(sql@)).len() - r@.len()) == r@,
{
    let v = chars_of(sql);
    let b = extract_body_chars(&v);
    string_of(&b)
}

pub fn extract_body_chars(sql: &Vec<char>) -> (r: Vec<char>)
    ensures
        r@ == body_sql_spec(sql@),
        trim(r@) == r@,
        r@.len() <= trim(strip_comments_spec(sql@)).len(),
        trim(strip_comments_spec(sql@)).skip(trim(strip_comments_spec(sql@)).len() - r@.len()) == r@,
{
    let st = strip_comments_chars(sql);
    match procedure_decl_end(&st) {
        Some(e) => match find_body_start(&st, e) {
            Some(b) => {
                let rest = sub_chars(&st, b, st.len());
                assert(rest@ =~= st@.skip(b as int));
                proof {
                    lemma_trim_suffix(st@, b as int);
                    lemma_trim_idempotent(rest@);
                }
                trim_chars(&rest)
            },
            None => {
                proof {
                    lemma_trim_idempotent(st@);
                    assert(trim(st@).skip(0) =~= trim(st@));
                }
                trim_chars(&st)
            },
        },
        None => {
            proof {
                lemma_trim_idempotent(st@);
                assert(trim(st@).skip(0) =~= trim(st@));
            }
            trim_chars(&st)
        },
    }
}


// ---------------------------------------------------------------------------
// Parameters
// ---------------------------------------------------------------------------

/// Trimmed text, with one pair of enclosing parentheses removed.
pub open spec fn outer_parens(b: Seq<char>) -> Seq<char> {
    let t = trim(b);
    if t.len() > 0 && t[0] == '(' && t.last() == ')' {
        trim(t.subrange(1, t.len() - 1))
    } else {
        t
    }
}

fn strip_outer_parens(block: &Vec<char>) -> (r: Vec<char>)
    ensures
        r@ == outer_parens(block@),
{
    let t = trim_chars(block);
    if t.len() > 0 && t[0] == '(' && t[t.len() - 1] == ')' {
        let inner = sub_chars(&t, 1, t.len() - 1);
        trim_chars(&inner)
    } else {
        t
    }
}

/// Parameter items: pieces separated by commas that are neither inside
/// parentheses nor inside a `'..'` literal; trimmed, blank ones dropped.
pub open spec fn items_from(s: Seq<char>, i: int, cur: Seq<char>, depth: nat, q: bool) -> Seq<Seq<char>>
    decreases s.len() - i,
{
    if i < 0 || i >= s.len() {
        emit(cur)
    } else {
        let c = s[i];
        if c == '\'' {
            if q {
                if i + 1 < s.len() && s[i + 1] == '\'' {
                    items_from(s, i + 2, cur.push(c).push('\''), depth, q)
                } else {
                    items_from(s, i + 1, cur.push(c), depth, false)
                }
            } else {
                items_from(s, i + 1, cur.push(c), depth, true)
            }
        } else if !q && c == '(' {
            items_from(s, i + 1, cur.push(c), depth + 1, q)
        } else if !q && c == ')' {
            items_from(s, i + 1, cur.push(c), if depth > 0 { (depth - 1) as nat } else { 0 }, q)
        } else if !q && c == ',' && depth == 0 {
            emit(cur) + items_from(s, i + 1, seq![], depth, q)
        } else {
            items_from(s, i + 1, cur.push(c), depth, q)
        }
    }
}

fn push_emitted(out: &mut Vec<Vec<char>>, cur: &Vec<char>)
    ensures
        views(final(out)@) == views(old(out)@) + emit(cur@),
{
    let t = trim_chars(cur);
    if t.len() > 0 {
        let ghost before = out@;
        let ghost tv = t@;
        out.push(t);
        assert(views(out@) =~= views(before) + seq![tv]);
    } else {
        assert(views(out@) + seq![] =~= views(out@));
    }
}

fn split_parameter_items(block: &Vec<char>) -> (r: Vec<Vec<char>>)
    ensures
        views(r@) == items_from(block@, 0, seq![], 0, false),
{
    let n = block.len();
    let mut out: Vec<Vec<char>> = Vec::new();
    let mut cur: Vec<char> = Vec::new();
    let mut depth: usize = 0;
    let mut q = false;
    let mut i: usize = 0;
    while i < n
        invariant
            n == block.len(),
            i <= n + 1,
            depth <= i,
            views(out@) + items_from(block@, i as int, cur@, depth as nat, q) == items_from(block@, 0, seq![], 0, false),
        decreases n + 1 - i,
    {
        let c = block[i];
        if c == '\'' {
            cur.push(c);
            if q {
                if i + 1 < n && block[i + 1] == '\'' {
                    cur.push('\'');
                    i += 2;
                } else {
                    q = false;
                    i += 1;
                }
            } else {
                q = true;
                i += 1;
            }
        } else if !q && c == '(' {
            cur.push(c);
            depth += 1;
            i += 1;
        } else if !q && c == ')' {
            cur.push(c);
            if depth > 0 {
                depth -= 1;
            }
            i += 1;
        } else if !q && c == ',' && depth == 0 {
            let ghost before = views(out@);
            let ghost cv = cur@;
            push_emitted(&mut out, &cur);
            cur = Vec::new();
            assert(views(out@) + items_from(block@, i + 1, cur@, depth as nat, q) =~= before + (emit(cv)
                + items_from(block@, i + 1, seq![], depth as nat, q)));
            i += 1;
        } else {
            cur.push(c);
            i += 1;
        }
    }
    push_emitted(&mut out, &cur);
    out
}

/// The declaration text of an item, with trailing `,` and `;` removed.
pub open spec fn param_decl(item: Seq<char>) -> Seq<char> {
    trim(trim_end_in(trim(trim_end_in(trim(item), ","@)), ";"@))
}

/// The declaration without a trailing ` OUTPUT` (any letter case).
pub open spec fn strip_output(d: Seq<char>) -> Seq<char> {
    if d.len() >= 7 && eq_ic(d.skip(d.len() - 7), " OUTPUT"@) {
        trim_end(d.take(d.len() - 7))
    } else {
        d
    }
}

pub open spec fn is_trailing_keyword(w: Seq<char>) -> bool {
    eq_ic(w, "AS"@) || eq_ic(w, "BEGIN"@) || eq_ic(w, "END"@)
}

pub open spec fn drop_trailing_keywords(ts: Seq<Seq<char>>) -> Seq<Seq<char>>
    decreases ts.len(),
{
    if ts.len() > 0 && is_trailing_keyword(ts.last()) {
        drop_trailing_keywords(ts.drop_last())
    } else {
        ts
    }
}

/// Splits at the first `=` outside parentheses and `'..'` literals: the
/// trimmed text before it, and the trimmed text after it.
pub open spec fn assignment_from(s: Seq<char>, i: int, depth: nat, q: bool) -> (Seq<char>, Option<Seq<char>>)
    decreases s.len() - i,
{
    if i < 0 || i >= s.len() {
        (trim(s), None)
    } else {
        let c = s[i];
        if c == '\'' {
            if q {
                if i + 1 < s.len() && s[i + 1] == '\'' {
                    assignment_from(s, i + 2, depth, q)
                } else {
                    assignment_from(s, i + 1, depth, false)
                }
            } else {
                assignment_from(s, i + 1, depth, true)
            }
        } else if q {
            assignment_from(s, i + 1, depth, q)
        } else if c == '(' {
            assignment_from(s, i + 1, depth + 1, q)
        } else if c == ')' {
            assignment_from(s, i + 1, if depth > 0 { (depth - 1) as nat } else { 0 }, q)
        } else if c == '=' && depth == 0 {
            (trim(s.take(i)), Some(trim(s.skip(i + 1))))
        } else {
            assignment_from(s, i + 1, depth, q)
        }
    }
}

pub open spec fn clean_default(v: Seq<char>) -> Option<Seq<char>> {
    let c = trim(trim_end_in(trim(v), ","@));
    if c.len() == 0 {
        None
    } else {
        Some(c)
    }
}

/// A parameter item as (name, type, default): it must start with `@`; a
/// trailing `OUTPUT`, and trailing `AS`/`BEGIN`/`END` words, are dropped; the
/// first word is the name, the rest is the type, up to a top-level `=` that
/// introduces the default.
pub open spec fn parse_param_spec(item: Seq<char>) -> Option<(Seq<char>, Seq<char>, Option<Seq<char>>)> {
    let d0 = param_decl(item);
    if d0.len() == 0 || d0[0] != '@' {
        None
    } else {
        let d2 = join(drop_trailing_keywords(words(strip_output(d0))), " "@);
        let parts = words(d2);
        if parts.len() == 0 {
            None
        } else {
            let rest = join(parts.skip(1), " "@);
            if rest.len() == 0 {
                Some((parts[0], seq![], None))
            } else {
                let (dt, dv) = assignment_from(rest, 0, 0, false);
                Some(
                    (
                        parts[0],
                        trim(dt),
                        match dv {
                            Some(v) => clean_default(v),
                            None => None,
                        },
                    ),
                )
            }
        }
    }
}

fn strip_trailing_keywords(input: &Vec<char>) -> (r: Vec<char>)
    ensures
        r@ == join(drop_trailing_keywords(words(input@)), " "@),
{
    let mut tokens = words_chars(input);
    while tokens.len() > 0 && (eq_ignore_case_str(&tokens[tokens.len() - 1], "AS")
        || eq_ignore_case_str(&tokens[tokens.len() - 1], "BEGIN") || eq_ignore_case_str(
        &tokens[tokens.len() - 1],
        "END",
    ))
        invariant
            drop_trailing_keywords(views(tokens@)) == drop_trailing_keywords(words(input@)),
        decreases tokens.len(),
    {
        let ghost before = tokens@;
        tokens.pop();
        assert(views(tokens@) =~= views(before).drop_last());
    }
    let sp = chars_of(" ");
    join_chars(&tokens, &sp)
}

fn split_first_assignment(input: &Vec<char>) -> (r: (Vec<char>, Option<Vec<char>>))
    ensures
        r.0@ == assignment_from(input@, 0, 0, false).0,
        match r.1 {
            Some(v) => assignment_from(input@, 0, 0, false).1 == Some(v@),
            None => assignment_from(input@, 0, 0, false).1 is None,
        },
{
    let n = input.len();
    let mut depth: usize = 0;
    let mut q = false;
    let mut i: usize = 0;
    while i < n
        invariant
            n == input.len(),
            i <= n + 1,
            depth <= i,
            assignment_from(input@, i as int, depth as nat, q) == assignment_from(input@, 0, 0, false),
        decreases n + 1 - i,
    {
        let c = input[i];
        if c == '\'' {
            if q {
                if i + 1 < n && input[i + 1] == '\'' {
                    i += 2;
                } else {
                    q = false;
                    i += 1;
                }
            } else {
                q = true;
                i += 1;
            }
        } else if q {
            i += 1;
        } else if c == '(' {
            depth += 1;
            i += 1;
        } else if c == ')' {
            if depth > 0 {
                depth -= 1;
            }
            i += 1;
        } else if c == '=' && depth == 0 {
            let left = sub_chars(input, 0, i);
            let right = sub_chars(input, i + 1, n);
            assert(left@ =~= input@.take(i as int));
            assert(right@ =~= input@.skip(i + 1));
            return (trim_chars(&left), Some(trim_chars(&right)));
        } else {
            i += 1;
        }
    }
    (trim_chars(input), None)
}

fn parse_parameter_item(item: &Vec<char>) -> (r: Option<Parameter>)
    ensures
        match r {
            Some(p) => parse_param_spec(item@) == Some(param_view(p)),
            None => parse_param_spec(item@) is None,
        },
{
    let comma = chars_of(",");
    let semi = chars_of(";");
    let a = trim_chars(item);
    let b = trim_end_in_chars(&a, &comma);
    let c = trim_chars(&b);
    let d = trim_end_in_chars(&c, &semi);
    let decl = trim_chars(&d);
    if decl.len() == 0 || decl[0] != '@' {
        return None;
    }
    let decl1 = if decl.len() >= 7 {
        let tail = sub_chars(&decl, decl.len() - 7, decl.len());
        assert(tail@ =~= decl@.skip(decl@.len() - 7));
        if eq_ignore_case_str(&tail, " OUTPUT") {
            let head = sub_chars(&decl, 0, decl.len() - 7);
            assert(head@ =~= decl@.take(decl@.len() - 7));
            trim_end_chars(&head)
        } else {
            decl
        }
    } else {
        decl
    };
    let decl2 = strip_trailing_keywords(&decl1);
    let parts = words_chars(&decl2);
    if parts.len() == 0 {
        return None;
    }
    let name = string_of(&parts[0]);
    let mut restv: Vec<Vec<char>> = Vec::new();
    let mut k: usize = 1;
    while k < parts.len()
        invariant
            1 <= k <= parts.len(),
            views(restv@) == views(parts@).subrange(1, k as int),
        decreases parts.len() - k,
    {
        let ghost before = restv@;
        restv.push(parts[k].clone());
        assert(views(restv@) =~= views(before).push(parts@[k as int]@));
        assert(views(parts@).subrange(1, k + 1) =~= views(parts@).subrange(1, k as int).push(parts@[k as int]@));
        k += 1;
    }
    assert(views(parts@).subrange(1, parts.len() as int) =~= views(parts@).skip(1));
    let sp = chars_of(" ");
    let rest = join_chars(&restv, &sp);
    if rest.len() == 0 {
        let p = Parameter { name, data_type: String::new(), default_value: None };
        assert(param_view(p).1 =~= seq![]);
        return Some(p);
    }
    let (dt, dv) = split_first_assignment(&rest);
    let dtt = trim_chars(&dt);
    let default_value = match dv {
        Some(v) => {
            let v1 = trim_chars(&v);
            let v2 = trim_end_in_chars(&v1, &comma);
            let v3 = trim_chars(&v2);
            if v3.len() == 0 {
                None
            } else {
                Some(string_of(&v3))
            }
        },
        None => None,
    };
    Some(Parameter { name, data_type: string_of(&dtt), default_value })
}

/// Parameters of a list of items, in order, skipping items that are not
/// parameter declarations.
pub open spec fn parse_params(items: Seq<Seq<char>>) -> Seq<(Seq<char>, Seq<char>, Option<Seq<char>>)>
    decreases items.len(),
{
    if items.len() == 0 {
        seq![]
    } else {
        let p = parse_params(items.drop_last());
        match parse_param_spec(items.last()) {
            Some(x) => p.push(x),
            None => p,
        }
    }
}

/// The parameter block: between the procedure's name and the body's `AS`.
pub open spec fn param_block(st: Seq<char>, e: int) -> Seq<char> {
    let b = match body_start(st, e) {
        Some(b) => b,
        None => st.len() as int,
    };
    outer_parens(trim(st.subrange(e, b)))
}

/// `extract_parameters`: the declared parameters, in order.
pub open spec fn parameters_spec(sql: Seq<char>) -> Seq<(Seq<char>, Seq<char>, Option<Seq<char>>)> {
    let st = strip_comments_spec(sql);
    match decl_end(st) {
        None => seq![],
        Some(e) => parse_params(items_from(param_block(st, e), 0, seq![], 0, false)),
    }
}

/// The parameters declared between the procedure's name and `AS`.
pub fn extract_parameters(sql: &str) -> (r: Vec<Parameter>)
    ensures
        params_view(r@) == parameters_spec(sql@),
{
    let v = chars_of(sql);
    let st = strip_comments_chars(&v);
    let mut out: Vec<Parameter> = Vec::new();
    let e = match procedure_decl_end(&st) {
        None => {
            assert(params_view(out@) =~= seq![]);
            return out;
        },
        Some(e) => e,
    };
    let b = match find_body_start(&st, e) {
        Some(b) => b,
        None => st.len(),
    };
    let raw = sub_chars(&st, e, b);
    let block0 = trim_chars(&raw);
    let block = strip_outer_parens(&block0);
    assert(block@ == param_block(st@, e as int));
    let items = split_parameter_items(&block);
    let ghost iv = views(items@);
    let mut i: usize = 0;
    while i < items.len()
        invariant
            i <= items.len(),
            iv == views(items@),
            params_view(out@) == parse_params(iv.take(i as int)),
        decreases items.len() - i,
    {
        assert(iv.take(i + 1).drop_last() =~= iv.take(i as int));
        assert(iv.take(i + 1).last() == items@[i as int]@);
        match parse_parameter_item(&items[i]) {
            Some(p) => {
                let ghost before = out@;
                out.push(p);
                assert(params_view(out@) =~= params_view(before).push(param_view(p)));
            },
            None => {},
        }
        i += 1;
    }
    assert(iv.take(items.len() as int) =~= iv);
    out
}


// ---------------------------------------------------------------------------
// Dependencies
// ---------------------------------------------------------------------------

pub const SELECT_INTO_PATTERN: &'static str = r"(?is)\bSELECT\s+INTO\s+([A-Za-z0-9_#@\[\]\.]+)";

pub const INSERT_INTO_PATTERN: &'static str = r"(?is)\bINSERT\s+INTO\s+([A-Za-z0-9_#@\[\]\.]+)";

pub const UPDATE_PATTERN: &'static str = r"(?is)\bUPDATE\s+([A-Za-z0-9_#@\[\]\.]+)";

pub const DELETE_PATTERN: &'static str = r"(?is)\bDELETE(?:\s+[A-Za-z0-9_#@\[\]\.]+)?\s+FROM\s+([A-Za-z0-9_#@\[\]\.]+)";

pub const MERGE_INTO_PATTERN: &'static str = r"(?is)\bMERGE\s+INTO\s+([A-Za-z0-9_#@\[\]\.]+)";

pub const FROM_PATTERN: &'static str = r"(?is)\bFROM\s+([A-Za-z0-9_#@\[\]\.]+)";

pub const JOIN_PATTERN: &'static str = r"(?is)\bJOIN\s+([A-Za-z0-9_#@\[\]\.]+)";

pub const USING_PATTERN: &'static str = r"(?is)\bUSING\s+([A-Za-z0-9_#@\[\]\.]+)";

pub const EXEC_PATTERN: &'static str = r"(?is)\bEXEC(?:UTE)?\s+([A-Za-z0-9_#@\[\]\.]+)";

/// Words after `EXEC` that name no procedure.
pub open spec fn builtin_exec(raw: Seq<char>) -> bool {
    let l = lower(raw);
    l == "as"@ || l == "caller"@ || l == "owner"@ || l == "self"@ || l == "sp_executesql"@
        || l == "sp_prepare"@ || l == "sp_execute"@
}

fn is_builtin_exec_target(raw: &Vec<char>) -> (r: bool)
    ensures
        r == builtin_exec(raw@),
{
    let l = lower_chars(raw);
    let a = chars_of("as");
    let b = chars_of("caller");
    let c = chars_of("owner");
    let d = chars_of("self");
    let e = chars_of("sp_executesql");
    let f = chars_of("sp_prepare");
    let g = chars_of("sp_execute");
    chars_eq(&l, &a) || chars_eq(&l, &b) || chars_eq(&l, &c) || chars_eq(&l, &d) || chars_eq(&l, &e)
        || chars_eq(&l, &f) || chars_eq(&l, &g)
}

/// A dependency as plain values: object, operation, source clause.
pub type DepV = (Seq<char>, Operation, Seq<char>);

/// The dependency one capture yields, with the byte position of the capture.
pub open spec fn candidate(body: Seq<char>, cap: Option<(usize, usize)>, op: Operation, source: Seq<char>, skip: Option<Seq<Seq<char>>>) -> Option<(usize, DepV)> {
    match cap {
        None => None,
        Some(sp) => {
            let raw = trim(span_text(body, sp));
            if raw.len() == 0 || raw[0] == '@' {
                None
            } else if op == Operation::Execute && builtin_exec(raw) {
                None
            } else {
                let obj = normalize_identifier_spec(raw);
                if obj.len() == 0 {
                    None
                } else if (skip matches Some(set) && source == "FROM"@ && set.contains(obj)) {
                    None
                } else {
                    Some((sp.0, (obj, op, source)))
                }
            }
        },
    }
}

pub open spec fn candidates_of(body: Seq<char>, caps: Seq<Option<(usize, usize)>>, op: Operation, source: Seq<char>, skip: Option<Seq<Seq<char>>>) -> Seq<(usize, DepV)>
    decreases caps.len(),
{
    if caps.len() == 0 {
        seq![]
    } else {
        let p = candidates_of(body, caps.drop_last(), op, source, skip);
        match candidate(body, caps.last(), op, source, skip) {
            Some(c) => p.push(c),
            None => p,
        }
    }
}

/// The dependencies that one pattern finds in a statement. (The regex crate
/// reports every capture on character boundaries of the text, in order;
/// the guard only makes that explicit.)
pub open spec fn collect_spec(body: Seq<char>, pattern: Seq<char>, op: Operation, source: Seq<char>, skip: Option<Seq<Seq<char>>>) -> Seq<(usize, DepV)> {
    match regex_captures_iter(pattern, body) {
        Some(caps) => if captures_ok(body, caps) {
            candidates_of(body, caps, op, source, skip)
        } else {
            seq![]
        },
        None => seq![],
    }
}

pub open spec fn objects_of(cs: Seq<(usize, DepV)>) -> Seq<Seq<char>> {
    cs.map_values(|c: (usize, DepV)| c.1.0)
}

pub open spec fn write_candidates(stmt: Seq<char>) -> Seq<(usize, DepV)> {
    collect_spec(stmt, SELECT_INTO_PATTERN@, Operation::Write, "SELECT INTO"@, None)
        + collect_spec(stmt, INSERT_INTO_PATTERN@, Operation::Write, "INSERT INTO"@, None)
        + collect_spec(stmt, UPDATE_PATTERN@, Operation::Write, "UPDATE"@, None)
        + collect_spec(stmt, DELETE_PATTERN@, Operation::Write, "DELETE FROM"@, None)
        + collect_spec(stmt, MERGE_INTO_PATTERN@, Operation::Write, "MERGE INTO"@, None)
}

/// Writes, then reads (a `FROM` naming a written object is not a read), then
/// procedure calls.
pub open spec fn stmt_candidates(stmt: Seq<char>) -> Seq<(usize, DepV)> {
    let w = write_candidates(stmt);
    let t = Some(objects_of(w));
    w + collect_spec(stmt, FROM_PATTERN@, Operation::Read, "FROM"@, t) + collect_spec(
        stmt,
        JOIN_PATTERN@,
        Operation::Read,
        "JOIN"@,
        t,
    ) + collect_spec(stmt, USING_PATTERN@, Operation::Read, "USING"@, t) + collect_spec(
        stmt,
        EXEC_PATTERN@,
        Operation::Execute,
        "EXEC"@,
        None,
    )
}

pub open spec fn all_candidates(stmts: Seq<Seq<char>>) -> Seq<(usize, DepV)>
    decreases stmts.len(),
{
    if stmts.len() == 0 {
        seq![]
    } else {
        let t = trim(stmts.last());
        all_candidates(stmts.drop_last()) + (if t.len() == 0 {
            seq![]
        } else {
            stmt_candidates(t)
        })
    }
}

/// Position of the first element from `i` on whose key exceeds `key`.
pub open spec fn first_greater<T>(sorted: Seq<(usize, T)>, key: usize, i: int) -> int
    decreases sorted.len() - i,
{
    if i < 0 || i >= sorted.len() {
        sorted.len() as int
    } else if sorted[i].0 > key {
        i
    } else {
        first_greater(sorted, key, i + 1)
    }
}

/// Stable sort by the first component (insertion sort).
pub open spec fn sort_by_pos<T>(s: Seq<(usize, T)>) -> Seq<(usize, T)>
    decreases s.len(),
{
    if s.len() == 0 {
        seq![]
    } else {
        let p = sort_by_pos(s.drop_last());
        p.insert(first_greater(p, s.last().0, 0), s.last())
    }
}

/// Keeps the first occurrence of each value.
pub open spec fn dedup_first<T>(s: Seq<T>) -> Seq<T>
    decreases s.len(),
{
    if s.len() == 0 {
        seq![]
    } else {
        let p = dedup_first(s.drop_last());
        if p.contains(s.last()) {
            p
        } else {
            p.push(s.last())
        }
    }
}

pub open spec fn seconds<T>(s: Seq<(usize, T)>) -> Seq<T> {
    s.map_values(|c: (usize, T)| c.1)
}

/// `extract_dependencies`: candidates of every statement of the body, ordered
/// by their position within their statement (stably), without repeats.
pub open spec fn dependencies_spec(sql: Seq<char>) -> Seq<DepV> {
    dedup_first(seconds(sort_by_pos(all_candidates(split_statements_spec(body_sql_spec(sql))))))
}

pub open spec fn cand_view(c: (usize, Dependency)) -> (usize, DepV) {
    (c.0, dep_view(c.1))
}

pub open spec fn cands_view(cs: Seq<(usize, Dependency)>) -> Seq<(usize, DepV)> {
    cs.map_values(|c: (usize, Dependency)| cand_view(c))
}

fn contains_object(set: &Vec<Vec<char>>, obj: &Vec<char>) -> (r: bool)
    ensures
        r == views(set@).contains(obj@),
{
    let mut i: usize = 0;
    while i < set.len()
        invariant
            i <= set.len(),
            forall|k: int| 0 <= k < i ==> set@[k]@ != obj@,
        decreases set.len() - i,
    {
        if chars_eq(&set[i], obj) {
            assert(views(set@)[i as int] == obj@);
            return true;
        }
        i += 1;
    }
    assert(!views(set@).contains(obj@)) by {
        if views(set@).contains(obj@) {
            let k = choose|k: int| 0 <= k < views(set@).len() && views(set@)[k] == obj@;
            assert(set@[k]@ == obj@);
        }
    }
    false
}

pub open spec fn skip_view(skip: Option<Vec<Vec<char>>>) -> Option<Seq<Seq<char>>> {
    match skip {
        Some(v) => Some(views(v@)),
        None => None,
    }
}

/// The dependencies that the given capture spans of one pattern yield, each
/// with the byte position of its capture.
pub fn dependency_candidates(body: &Vec<char>, caps: &Vec<Option<(usize, usize)>>, op: Operation, source: &str, skip: &Option<Vec<Vec<char>>>) -> (r: Vec<(usize, Dependency)>)
    requires
        captures_ok(body@, caps@),
    ensures
        cands_view(r@) == candidates_of(body@, caps@, op, source@, skip_view(*skip)),
{
    let ghost skipv = skip_view(*skip);
    let srcv = chars_of(source);
    let from_kw = chars_of("FROM");
    let is_from = chars_eq(&srcv, &from_kw);
    let mut out: Vec<(usize, Dependency)> = Vec::new();
    let mut i: usize = 0;
    while i < caps.len()
        invariant
            i <= caps.len(),
            captures_ok(body@, caps@),
            srcv@ == source@,
            is_from == (source@ == "FROM"@),
            skipv == skip_view(*skip),
            cands_view(out@) == candidates_of(body@, caps@.take(i as int), op, source@, skipv),
        decreases caps.len() - i,
    {
        assert(caps@.take(i + 1).drop_last() =~= caps@.take(i as int));
        assert(caps@.take(i + 1).last() == caps@[i as int]);
        match caps[i] {
            None => {},
            Some(sp) => {
                assert(valid_span(body@, sp));
                let raw0 = span_chars(body, sp);
                let raw = trim_chars(&raw0);
                if raw.len() == 0 || raw[0] == '@' {
                } else if op == Operation::Execute && is_builtin_exec_target(&raw) {
                } else {
                    let obj = normalize_identifier_chars(&raw);
                    if obj.len() == 0 {
                    } else {
                        let skipped = match skip {
                            Some(set) => is_from && contains_object(set, &obj),
                            None => false,
                        };
                        if !skipped {
                            let ghost before = out@;
                            let d = Dependency { object: string_of(&obj), operation: op, source: string_of(&srcv) };
                            out.push((sp.0, d));
                            assert(cands_view(out@) =~= cands_view(before).push(cand_view((sp.0, d))));
                        }
                    }
                }
            },
        }
        i += 1;
    }
    assert(caps@.take(caps.len() as int) =~= caps@);
    out
}

fn append_candidates(out: &mut Vec<(usize, Dependency)>, more: &Vec<(usize, Dependency)>)
    ensures
        cands_view(final(out)@) == cands_view(old(out)@) + cands_view(more@),
{
    let mut k: usize = 0;
    while k < more.len()
        invariant
            k <= more.len(),
            cands_view(out@) == cands_view(old(out)@) + cands_view(more@).take(k as int),
        decreases more.len() - k,
    {
        let ghost before = out@;
        let d = copy_dep(&more[k].1);
        out.push((more[k].0, d));
        assert(cands_view(out@) =~= cands_view(before).push(cand_view(more@[k as int])));
        assert(cands_view(more@).take(k + 1) =~= cands_view(more@).take(k as int).push(cand_view(more@[k as int])));
        k += 1;
    }
    assert(cands_view(more@).take(more.len() as int) =~= cands_view(more@));
}

fn collect_dependencies(body: &Vec<char>, pattern: &str, op: Operation, source: &str, skip: &Option<Vec<Vec<char>>>, out: &mut Vec<(usize, Dependency)>)
    ensures
        cands_view(final(out)@) == cands_view(old(out)@) + collect_spec(body@, pattern@, op, source@, skip_view(*skip)),
{
    let bs = string_of(body);
    match search_captures_iter(pattern, &bs) {
        Some(c) => {
            let found = dependency_candidates(body, &c, op, source, skip);
            append_candidates(out, &found);
        },
        None => {
            assert(cands_view(out@) =~= cands_view(out@) + seq![]);
        },
    }
}

fn objects_of_cands(cs: &Vec<(usize, Dependency)>) -> (r: Vec<Vec<char>>)
    ensures
        views(r@) == objects_of(cands_view(cs@)),
{
    let mut out: Vec<Vec<char>> = Vec::new();
    let mut i: usize = 0;
    while i < cs.len()
        invariant
            i <= cs.len(),
            views(out@) == objects_of(cands_view(cs@)).take(i as int),
        decreases cs.len() - i,
    {
        let ghost before = out@;
        out.push(chars_of(cs[i].1.object.as_str()));
        assert(views(out@) =~= views(before).push(cs@[i as int].1.object@));
        assert(objects_of(cands_view(cs@)).take(i + 1) =~= objects_of(cands_view(cs@)).take(i as int).push(cs@[i as int].1.object@));
        i += 1;
    }
    assert(objects_of(cands_view(cs@)).take(cs.len() as int) =~= objects_of(cands_view(cs@)));
    out
}

fn statement_candidates(stmt: &Vec<char>, out: &mut Vec<(usize, Dependency)>)
    ensures
        cands_view(final(out)@) == cands_view(old(out)@) + stmt_candidates(stmt@),
{
    let ghost base = cands_view(out@);
    let mut w: Vec<(usize, Dependency)> = Vec::new();
    let none: Option<Vec<Vec<char>>> = None;
    collect_dependencies(stmt, SELECT_INTO_PATTERN, Operation::Write, "SELECT INTO", &none, &mut w);
    collect_dependencies(stmt, INSERT_INTO_PATTERN, Operation::Write, "INSERT INTO", &none, &mut w);
    collect_dependencies(stmt, UPDATE_PATTERN, Operation::Write, "UPDATE", &none, &mut w);
    collect_dependencies(stmt, DELETE_PATTERN, Operation::Write, "DELETE FROM", &none, &mut w);
    collect_dependencies(stmt, MERGE_INTO_PATTERN, Operation::Write, "MERGE INTO", &none, &mut w);
    assert(cands_view(w@) =~= write_candidates(stmt@));
    let targets = Some(objects_of_cands(&w));
    append_candidates(out, &w);
    collect_dependencies(stmt, FROM_PATTERN, Operation::Read, "FROM", &targets, out);
    collect_dependencies(stmt, JOIN_PATTERN, Operation::Read, "JOIN", &targets, out);
    collect_dependencies(stmt, USING_PATTERN, Operation::Read, "USING", &targets, out);
    collect_dependencies(stmt, EXEC_PATTERN, Operation::Execute, "EXEC", &none, out);
    assert(cands_view(out@) =~= base + stmt_candidates(stmt@));
}

fn copy_dep(d: &Dependency) -> (r: Dependency)
    ensures
        dep_view(r) == dep_view(*d),
{
    Dependency { object: d.object.clone(), operation: d.operation, source: d.source.clone() }
}

fn sort_candidates(cs: &Vec<(usize, Dependency)>) -> (r: Vec<(usize, Dependency)>)
    ensures
        cands_view(r@) == sort_by_pos(cands_view(cs@)),
{
    let mut sorted: Vec<(usize, Dependency)> = Vec::new();
    let ghost cv = cands_view(cs@);
    let n = cs.len();
    let mut i: usize = 0;
    while i < n
        invariant
            i <= n,
            n == cs.len(),
            cv == cands_view(cs@),
            cands_view(sorted@) == sort_by_pos(cv.take(i as int)),
        decreases n - i,
    {
        let c = (cs[i].0, copy_dep(&cs[i].1));
        assert(cand_view(c) == cv[i as int]);
        assert(cv.take(i + 1).drop_last() =~= cv.take(i as int));
        let ghost sv = cands_view(sorted@);
        let mut p: usize = 0;
        while p < sorted.len() && sorted[p].0 <= c.0
            invariant
                p <= sorted.len(),
                sv == cands_view(sorted@),
                first_greater(sv, c.0, p as int) == first_greater(sv, c.0, 0),
            decreases sorted.len() - p,
        {
            p += 1;
        }
        sorted.insert(p, c);
        assert(cands_view(sorted@) =~= sv.insert(p as int, cand_view(c)));
        i += 1;
    }
    assert(cv.take(n as int) =~= cv);
    sorted
}

fn dedup_dependencies(cs: &Vec<(usize, Dependency)>) -> (r: Vec<Dependency>)
    ensures
        deps_view(r@) == dedup_first(seconds(cands_view(cs@))),
{
    let mut out: Vec<Dependency> = Vec::new();
    let ghost sv = seconds(cands_view(cs@));
    let mut i: usize = 0;
    while i < cs.len()
        invariant
            i <= cs.len(),
            sv == seconds(cands_view(cs@)),
            deps_view(out@) == dedup_first(sv.take(i as int)),
        decreases cs.len() - i,
    {
        assert(sv.take(i + 1).drop_last() =~= sv.take(i as int));
        assert(sv.take(i + 1).last() == dep_view(cs@[i as int].1));
        let d = &cs[i].1;
        let mut found = false;
        let mut k: usize = 0;
        while k < out.len()
            invariant
                k <= out.len(),
                found ==> deps_view(out@).contains(dep_view(*d)),
                !found ==> forall|j: int| 0 <= j < k ==> deps_view(out@)[j] != dep_view(*d),
            decreases out.len() - k,
        {
            if out[k].object == d.object && out[k].operation == d.operation && out[k].source == d.source {
                found = true;
                assert(deps_view(out@)[k as int] == dep_view(*d));
            }
            k += 1;
        }
        if !found {
            let ghost before = out@;
            let nd = copy_dep(d);
            out.push(nd);
            assert(deps_view(out@) =~= deps_view(before).push(dep_view(*d)));
        }
        i += 1;
    }
    assert(sv.take(cs.len() as int) =~= sv);
    out
}

pub fn extract_dependencies_chars(sql: &Vec<char>) -> (r: Vec<Dependency>)
    ensures
        deps_view(r@) == dependencies_spec(sql@),
        crate::laws::variables_unmarked(sql@) ==> forall|k: int|
            0 <= k < dependencies_spec(sql@).len() ==> (#[trigger] dependencies_spec(sql@)[k]).0.len() > 0
                && dependencies_spec(sql@)[k].0[0] != '@',
{
    let body = extract_body_chars(sql);
    proof {
        if crate::laws::variables_unmarked(sql@) {
            crate::laws::lemma_body_unmarked(sql@, body@);
            crate::laws::law_dependency_objects_not_variables(sql@);
        }
    }
    let stmts = split_statements_chars(&body);
    let ghost sv = views(stmts@);
    let mut cands: Vec<(usize, Dependency)> = Vec::new();
    let mut i: usize = 0;
    while i < stmts.len()
        invariant
            i <= stmts.len(),
            sv == views(stmts@),
            cands_view(cands@) == all_candidates(sv.take(i as int)),
        decreases stmts.len() - i,
    {
        assert(sv.take(i + 1).drop_last() =~= sv.take(i as int));
        assert(sv.take(i + 1).last() == stmts@[i as int]@);
        let t = trim_chars(&stmts[i]);
        if t.len() > 0 {
            statement_candidates(&t, &mut cands);
        } else {
            assert(cands_view(cands@) + seq![] =~= cands_view(cands@));
        }
        i += 1;
    }
    assert(sv.take(stmts.len() as int) =~= sv);
    let sorted = sort_candidates(&cands);
    dedup_dependencies(&sorted)
}

/// Reads, writes and procedure calls of the procedure's body. When the
/// comment-free text holds no comment marker and no quoting character right
/// before an `@`, no dependency is a variable.
pub fn extract_dependencies(sql: &str) -> (r: Vec<Dependency>)
    ensures
        deps_view(r@) == dependencies_spec(sql@),
        crate::laws::variables_unmarked(sql@) ==> forall|k: int|
            0 <= k < dependencies_spec(sql@).len() ==> (#[trigger] dependencies_spec(sql@)[k]).0.len() > 0
                && dependencies_spec(sql@)[k].0[0] != '@',
{
    let v = chars_of(sql);
    extract_dependencies_chars(&v)
}


// ---------------------------------------------------------------------------
// Temp tables
// ---------------------------------------------------------------------------

/// `#name` or `##name`.
pub const TEMP_TABLE_PATTERN: &'static str = r"(?i)#{1,2}[A-Za-z0-9_]+";

/// Normalized texts of the matches, the empty ones dropped.
pub open spec fn temp_names_of(body: Seq<char>, spans: Seq<(usize, usize)>) -> Seq<Seq<char>>
    decreases spans.len(),
{
    if spans.len() == 0 {
        seq![]
    } else {
        let p = temp_names_of(body, spans.drop_last());
        let n = normalize_identifier_spec(span_text(body, spans.last()));
        if n.len() > 0 {
            p.push(n)
        } else {
            p
        }
    }
}

/// Names of the temp tables mentioned in the body.
pub open spec fn temp_tables_found(sql: Seq<char>) -> Seq<Seq<char>> {
    let body = body_sql_spec(sql);
    match regex_find_iter(TEMP_TABLE_PATTERN@, body) {
        Some(spans) => temp_names_of(body, spans),
        None => seq![],
    }
}

pub open spec fn temp_names_from(body: Seq<char>, spans: Option<Seq<(usize, usize)>>) -> Seq<Seq<char>> {
    match spans {
        Some(s) => temp_names_of(body, s),
        None => seq![],
    }
}

/// The temp tables named at the given match spans of the body, sorted, each
/// once.
pub fn temp_tables_from_matches(body: &Vec<char>, spans: &Option<Vec<(usize, usize)>>) -> (r: Vec<String>)
    requires
        spans matches Some(v) ==> spans_ok(body@, v@),
    ensures
        sviews(r@) == sorted_set(temp_names_from(body@, opt_spans(*spans))),
{
    let mut names: Vec<Vec<char>> = Vec::new();
    match spans {
        Some(spans) => {
            let mut i: usize = 0;
            while i < spans.len()
                invariant
                    i <= spans.len(),
                    spans_ok(body@, spans@),
                    views(names@) == temp_names_of(body@, spans@.take(i as int)),
                decreases spans.len() - i,
            {
                assert(spans@.take(i + 1).drop_last() =~= spans@.take(i as int));
                assert(spans@.take(i + 1).last() == spans@[i as int]);
                assert(valid_span(body@, spans@[i as int]));
                let raw = span_chars(body, spans[i]);
                let n = normalize_identifier_chars(&raw);
                if n.len() > 0 {
                    let ghost before = names@;
                    names.push(n);
                    assert(views(names@) =~= views(before).push(normalize_identifier_spec(span_text(body@, spans@[i as int]))));
                }
                i += 1;
            }
            assert(spans@.take(spans.len() as int) =~= spans@);
        },
        None => {
            assert(views(names@) =~= seq![]);
        },
    }
    let sorted = sort_dedup(&names);
    let mut out: Vec<String> = Vec::new();
    let mut k: usize = 0;
    while k < sorted.len()
        invariant
            k <= sorted.len(),
            sviews(out@) == views(sorted@).take(k as int),
        decreases sorted.len() - k,
    {
        let ghost before = out@;
        out.push(string_of(&sorted[k]));
        assert(sviews(out@) =~= sviews(before).push(sorted@[k as int]@));
        assert(views(sorted@).take(k + 1) =~= views(sorted@).take(k as int).push(sorted@[k as int]@));
        k += 1;
    }
    assert(views(sorted@).take(sorted.len() as int) =~= views(sorted@));
    out
}

/// The temp tables (`#x`, `##x`) of the body, sorted, each once.
pub fn extract_temp_tables(sql: &str) -> (r: Vec<String>)
    ensures
        sviews(r@) == sorted_set(temp_tables_found(sql@)),
{
    let v = chars_of(sql);
    let body = extract_body_chars(&v);
    let bs = string_of(&body);
    let spans = search_find_iter(TEMP_TABLE_PATTERN, &bs);
    proof {
        match &spans {
            Some(v) => {
                assert(opt_spans(spans) == Some(v@));
            },
            None => {},
        }
    }
    temp_tables_from_matches(&body, &spans)
}

// ---------------------------------------------------------------------------
// Statement summaries
// ---------------------------------------------------------------------------

pub open spec fn is_block_word(w: Seq<char>) -> bool {
    let u = upper(w);
    u == "TRY"@ || u == "CATCH"@ || u == "TRAN"@ || u == "TRANSACTION"@
}

/// A statement without a leading `BEGIN` (unless it opens a TRY, CATCH or
/// transaction block); a lone `END` becomes empty.
pub open spec fn clean_summary(stmt: Seq<char>) -> Seq<char> {
    let t = trim(stmt);
    if eq_ic(t, "END"@) {
        seq![]
    } else {
        let ts = words(t);
        if ts.len() > 1 && eq_ic(ts[0], "BEGIN"@) && !is_block_word(ts[1]) {
            join(ts.skip(1), " "@)
        } else {
            t
        }
    }
}

fn is_block_word_exec(w: &Vec<char>) -> (r: bool)
    ensures
        r == is_block_word(w@),
{
    let u = upper_chars(w);
    let a = chars_of("TRY");
    let b = chars_of("CATCH");
    let c = chars_of("TRAN");
    let d = chars_of("TRANSACTION");
    chars_eq(&u, &a) || chars_eq(&u, &b) || chars_eq(&u, &c) || chars_eq(&u, &d)
}

fn join_words_from(ts: &Vec<Vec<char>>, from: usize) -> (r: Vec<char>)
    requires
        from <= ts.len(),
    ensures
        r@ == join(views(ts@).skip(from as int), " "@),
{
    let mut rest: Vec<Vec<char>> = Vec::new();
    let mut k: usize = from;
    while k < ts.len()
        invariant
            from <= k <= ts.len(),
            views(rest@) == views(ts@).subrange(from as int, k as int),
        decreases ts.len() - k,
    {
        let ghost before = rest@;
        rest.push(ts[k].clone());
        assert(views(rest@) =~= views(before).push(ts@[k as int]@));
        assert(views(ts@).subrange(from as int, k + 1) =~= views(ts@).subrange(from as int, k as int).push(ts@[k as int]@));
        k += 1;
    }
    assert(views(ts@).subrange(from as int, ts.len() as int) =~= views(ts@).skip(from as int));
    let sp = chars_of(" ");
    join_chars(&rest, &sp)
}

fn clean_statement_for_summary(stmt: &Vec<char>) -> (r: Vec<char>)
    ensures
        r@ == clean_summary(stmt@),
{
    let t = trim_chars(stmt);
    if eq_ignore_case_str(&t, "END") {
        let e: Vec<char> = Vec::new();
        assert(e@ =~= seq![]);
        return e;
    }
    let ts = words_chars(&t);
    if ts.len() > 1 && eq_ignore_case_str(&ts[0], "BEGIN") && !is_block_word_exec(&ts[1]) {
        return join_words_from(&ts, 1);
    }
    t
}

/// `classify_statement`: the kind, from the statement's leading keyword.
pub open spec fn classify_spec(stmt: Seq<char>) -> StatementKind {
    let u = upper(trim_start(stmt));
    if starts_with(u, "SELECT INTO"@) {
        StatementKind::Insert
    } else if starts_with(u, "SELECT"@) {
        StatementKind::Select
    } else if starts_with(u, "INSERT"@) {
        StatementKind::Insert
    } else if starts_with(u, "UPDATE"@) {
        StatementKind::Update
    } else if starts_with(u, "DELETE"@) {
        StatementKind::Delete
    } else if starts_with(u, "MERGE"@) {
        StatementKind::Merge
    } else if starts_with(u, "EXECUTE"@) || starts_with(u, "EXEC "@) || u == "EXEC"@ {
        StatementKind::Execute
    } else if contains(u, "BEGIN TRAN"@) || contains(u, "BEGIN TRANSACTION"@) || contains(u, "COMMIT"@) || contains(u, "ROLLBACK"@) {
        StatementKind::Transaction
    } else {
        StatementKind::Unknown
    }
}

pub fn classify_statement(stmt: &Vec<char>) -> (r: StatementKind)
    ensures
        r == classify_spec(stmt@),
{
    let t = trim_start_chars(stmt);
    let u = upper_chars(&t);
    let exec_kw = chars_of("EXEC");
    if starts_with_str(&u, "SELECT INTO") {
        StatementKind::Insert
    } else if starts_with_str(&u, "SELECT") {
        StatementKind::Select
    } else if starts_with_str(&u, "INSERT") {
        StatementKind::Insert
    } else if starts_with_str(&u, "UPDATE") {
        StatementKind::Update
    } else if starts_with_str(&u, "DELETE") {
        StatementKind::Delete
    } else if starts_with_str(&u, "MERGE") {
        StatementKind::Merge
    } else if starts_with_str(&u, "EXECUTE") || starts_with_str(&u, "EXEC ") || chars_eq(&u, &exec_kw) {
        StatementKind::Execute
    } else if contains_str(&u, "BEGIN TRAN") || contains_str(&u, "BEGIN TRANSACTION") || contains_str(&u, "COMMIT") || contains_str(&u, "ROLLBACK") {
        StatementKind::Transaction
    } else {
        StatementKind::Unknown
    }
}

/// Cleaned statements, blank ones dropped.
pub open spec fn cleaned_statements(stmts: Seq<Seq<char>>) -> Seq<Seq<char>>
    decreases stmts.len(),
{
    if stmts.len() == 0 {
        seq![]
    } else {
        let p = cleaned_statements(stmts.drop_last());
        let c = clean_summary(stmts.last());
        if c.len() > 0 {
            p.push(c)
        } else {
            p
        }
    }
}

/// Objects read, in order.
pub open spec fn read_objects(ds: Seq<DepV>) -> Seq<Seq<char>>
    decreases ds.len(),
{
    if ds.len() == 0 {
        seq![]
    } else {
        let p = read_objects(ds.drop_last());
        if ds.last().1 == Operation::Read {
            p.push(ds.last().0)
        } else {
            p
        }
    }
}

/// The object of the first write or procedure call, from position `i` on.
pub open spec fn first_target(ds: Seq<DepV>, i: int) -> Option<Seq<char>>
    decreases ds.len() - i,
{
    if i < 0 || i >= ds.len() {
        None
    } else if ds[i].1 == Operation::Write || ds[i].1 == Operation::Execute {
        Some(ds[i].0)
    } else {
        first_target(ds, i + 1)
    }
}

/// A summary as plain values: index, kind, target, sources.
pub type SummaryV = (usize, StatementKind, Option<Seq<char>>, Seq<Seq<char>>);

pub open spec fn summary_view(s: StatementSummary) -> SummaryV {
    (
        s.index,
        s.kind,
        match s.target {
            Some(t) => Some(t@),
            None => None,
        },
        sviews(s.sources@),
    )
}

pub open spec fn summaries_view(ss: Seq<StatementSummary>) -> Seq<SummaryV> {
    ss.map_values(|s: StatementSummary| summary_view(s))
}

/// The summary of the `index`-th statement: its kind, the first object it
/// writes or calls, and the objects it reads.
pub open spec fn summary_of(index: int, stmt: Seq<char>) -> SummaryV {
    let ds = dependencies_spec(stmt);
    (index as usize, classify_spec(stmt), first_target(ds, 0), read_objects(ds))
}

/// `summarize_statements`: one summary per non-blank cleaned statement of the
/// body, numbered from 1.
pub open spec fn summaries_spec(sql: Seq<char>) -> Seq<SummaryV> {
    let cs = cleaned_statements(split_statements_spec(body_sql_spec(sql)));
    Seq::new(cs.len(), |i: int| summary_of(i + 1, cs[i]))
}

fn summarize_one(index: usize, stmt: &Vec<char>) -> (r: StatementSummary)
    ensures
        summary_view(r) == summary_of(index as int, stmt@),
{
    let kind = classify_statement(stmt);
    let deps = extract_dependencies_chars(stmt);
    let ghost dv = deps_view(deps@);
    let mut sources: Vec<String> = Vec::new();
    let mut target: Option<String> = None;
    let mut i: usize = 0;
    while i < deps.len()
        invariant
            i <= deps.len(),
            dv == deps_view(deps@),
            sviews(sources@) == read_objects(dv.take(i as int)),
            match target {
                Some(t) => first_target(dv, 0) == Some(t@),
                None => first_target(dv, i as int) == first_target(dv, 0),
            },
        decreases deps.len() - i,
    {
        assert(dv.take(i + 1).drop_last() =~= dv.take(i as int));
        assert(dv.take(i + 1).last() == dep_view(deps@[i as int]));
        let op = deps[i].operation;
        if op == Operation::Read {
            let ghost before = sources@;
            sources.push(deps[i].object.clone());
            assert(sviews(sources@) =~= sviews(before).push(deps@[i as int].object@));
        }
        if target.is_none() && (op == Operation::Write || op == Operation::Execute) {
            target = Some(deps[i].object.clone());
        }
        i += 1;
    }
    assert(dv.take(deps.len() as int) =~= dv);
    StatementSummary { index, kind, target, sources }
}

/// One summary per statement of the body.
pub fn summarize_statements(sql: &str) -> (r: Vec<StatementSummary>)
    ensures
        summaries_view(r@) == summaries_spec(sql@),
{
    let v = chars_of(sql);
    let body = extract_body_chars(&v);
    let stmts = split_statements_chars(&body);
    let ghost sv = views(stmts@);
    let mut cleaned: Vec<Vec<char>> = Vec::new();
    let mut i: usize = 0;
    while i < stmts.len()
        invariant
            i <= stmts.len(),
            sv == views(stmts@),
            views(cleaned@) == cleaned_statements(sv.take(i as int)),
        decreases stmts.len() - i,
    {
        assert(sv.take(i + 1).drop_last() =~= sv.take(i as int));
        assert(sv.take(i + 1).last() == stmts@[i as int]@);
        let c = clean_statement_for_summary(&stmts[i]);
        if c.len() > 0 {
            let ghost before = cleaned@;
            let ghost cv = c@;
            cleaned.push(c);
            assert(views(cleaned@) =~= views(before).push(cv));
        }
        i += 1;
    }
    assert(sv.take(stmts.len() as int) =~= sv);
    let ghost cs = views(cleaned@);
    let mut out: Vec<StatementSummary> = Vec::new();
    let mut k: usize = 0;
    while k < cleaned.len()
        invariant
            k <= cleaned.len(),
            cs == views(cleaned@),
            summaries_view(out@) == Seq::new(k as nat, |j: int| summary_of(j + 1, cs[j])),
        decreases cleaned.len() - k,
    {
        let s = summarize_one(k + 1, &cleaned[k]);
        let ghost before = out@;
        out.push(s);
        assert(cs[k as int] == cleaned@[k as int]@);
        assert(summaries_view(out@) =~= summaries_view(before).push(summary_view(s)));
        assert(summaries_view(out@) =~= Seq::new((k + 1) as nat, |j: int| summary_of(j + 1, cs[j])));
        k += 1;
    }
    out
}

} // verus!
