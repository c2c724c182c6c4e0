//! SQL clean-up before analysis: comments, white space, identifiers and
//! statement boundaries.
use vstd::prelude::*;
use crate::text::{
    append_chars, chars_of, eq_ic, eq_ignore_case_str, join, join_chars, split_on,
    split_on_chars, string_of, sviews, trim, trim_chars, trim_end_in, trim_end_in_chars, trim_in,
    trim_in_chars, views, words, words_chars,
};

verus! {

/// Lexical state of the comment stripper.
#[derive(PartialEq, Eq, Structural, Clone, Copy)]
pub enum Lex {
    Code,
    SingleQuoted,
    DoubleQuoted,
    Bracketed,
    LineComment,
    BlockComment,
}

/// The closing character of a quoted state.
pub open spec fn closer(m: Lex) -> char {
    if m == Lex::SingleQuoted {
        '\''
    } else if m == Lex::DoubleQuoted {
        '"'
    } else {
        ']'
    }
}

/// Output of the comment stripper on `s` from position `i` in state `m`.
///
/// Quoted text (`'..'`, `".."`, `[..]`, with doubled closers as escapes) is
/// copied; a `--` comment is dropped up to its newline, which is kept; a
/// `/* */` comment is dropped except for the newlines inside it. A `/*` that is
/// never closed runs to the end of the text.
pub open spec fn strip_from(s: Seq<char>, i: int, m: Lex) -> Seq<char>
    decreases s.len() - i,
{
    if i < 0 || i >= s.len() {
        seq![]
    } else {
        let c = s[i];
        match m {
            Lex::Code => {
                if c == '\'' {
                    seq![c] + strip_from(s, i + 1, Lex::SingleQuoted)
                } else if c == '"' {
                    seq![c] + strip_from(s, i + 1, Lex::DoubleQuoted)
                } else if c == '[' {
                    seq![c] + strip_from(s, i + 1, Lex::Bracketed)
                } else if c == '-' && i + 1 < s.len() && s[i + 1] == '-' {
                    strip_from(s, i + 2, Lex::LineComment)
                } else if c == '/' && i + 1 < s.len() && s[i + 1] == '*' {
                    strip_from(s, i + 2, Lex::BlockComment)
                } else {
                    seq![c] + strip_from(s, i + 1, Lex::Code)
                }
            },
            Lex::LineComment => {
                if c == '\n' {
                    seq!['\n'] + strip_from(s, i + 1, Lex::Code)
                } else {
                    strip_from(s, i + 1, Lex::LineComment)
                }
            },
            Lex::BlockComment => {
                if c == '*' && i + 1 < s.len() && s[i + 1] == '/' {
                    strip_from(s, i + 2, Lex::Code)
                } else if c == '\n' {
                    seq!['\n'] + strip_from(s, i + 1, Lex::BlockComment)
                } else {
                    strip_from(s, i + 1, Lex::BlockComment)
                }
            },
            _ => {
                let q = closer(m);
                if c == q {
                    if i + 1 < s.len() && s[i + 1] == q {
                        seq![c, q] + strip_from(s, i + 2, m)
                    } else {
                        seq![c] + strip_from(s, i + 1, Lex::Code)
                    }
                } else {
                    seq![c] + strip_from(s, i + 1, m)
                }
            },
        }
    }
}

pub open spec fn strip_comments_spec(s: Seq<char>) -> Seq<char> {
    strip_from(s, 0, Lex::Code)
}

/// Removes `--` and `/* */` comments, leaving quoted text untouched.
pub fn strip_comments(sql: &str) -> (r: String)
    ensures
        r@ == strip_comments_spec(sql@),
{
    let v = chars_of(sql);
    let r = strip_comments_chars(&v);
    string_of(&r)
}

pub fn strip_comments_chars(s: &Vec<char>) -> (r: Vec<char>)
    ensures
        r@ == strip_comments_spec(s@),
{
    let n = s.len();
    let mut out: Vec<char> = Vec::new();
    let mut i: usize = 0;
    let mut m = Lex::Code;
    while i < n
        invariant
            n == s.len(),
            i <= n,
            out@ + strip_from(s@, i as int, m) == strip_comments_spec(s@),
        decreases n - i,
    {
        let c = s[i];
        let ghost old_out = out@;
        let ghost rest = strip_from(s@, i as int, m);
        match m {
            Lex::Code => {
                if c == '\'' {
                    out.push(c);
                    m = Lex::SingleQuoted;
                    i += 1;
                } else if c == '"' {
                    out.push(c);
                    m = Lex::DoubleQuoted;
                    i += 1;
                } else if c == '[' {
                    out.push(c);
                    m = Lex::Bracketed;
                    i += 1;
                } else if c == '-' && i + 1 < n && s[i + 1] == '-' {
                    m = Lex::LineComment;
                    i += 2;
                } else if c == '/' && i + 1 < n && s[i + 1] == '*' {
                    m = Lex::BlockComment;
                    i += 2;
                } else {
                    out.push(c);
                    i += 1;
                }
            },
            Lex::LineComment => {
                if c == '\n' {
                    out.push('\n');
                    m = Lex::Code;
                }
                i += 1;
            },
            Lex::BlockComment => {
                if c == '*' && i + 1 < n && s[i + 1] == '/' {
                    m = Lex::Code;
                    i += 2;
                } else {
                    if c == '\n' {
                        out.push('\n');
                    }
                    i += 1;
                }
            },
            _ => {
                let q = if m == Lex::SingleQuoted {
                    '\''
                } else if m == Lex::DoubleQuoted {
                    '"'
                } else {
                    ']'
                };
                if c == q {
                    if i + 1 < n && s[i + 1] == q {
                        out.push(c);
                        out.push(q);
                        i += 2;
                    } else {
                        out.push(c);
                        m = Lex::Code;
                        i += 1;
                    }
                } else {
                    out.push(c);
                    i += 1;
                }
            },
        }
        assert(out@ + strip_from(s@, i as int, m) =~= old_out + rest);
    }
    assert(out@ + seq![] =~= out@);
    out
}

/// `normalize_whitespace`: the words of the text joined by single spaces.
pub fn normalize_whitespace(sql: &str) -> (r: String)
    ensures
        r@ == join(words(sql@), " "@),
{
    let v = chars_of(sql);
    let w = words_chars(&v);
    let sep = chars_of(" ");
    let j = join_chars(&w, &sep);
    string_of(&j)
}

/// One dotted part of an identifier, cleaned of quoting and stray punctuation.
pub open spec fn clean_identifier_part(p: Seq<char>) -> Seq<char> {
    trim_end_in(trim_in(trim(p), "[]\"'`"@), ";,)("@)
}

/// `normalize_identifier`: `[dbo].[Table];` becomes `dbo.Table`.
pub open spec fn normalize_identifier_spec(s: Seq<char>) -> Seq<char> {
    let t = trim_end_in(trim(s), ";,"@);
    join(split_on(t, '.').map_values(|p: Seq<char>| clean_identifier_part(p)), "."@)
}

/// Normalizes an object identifier: outer white space and trailing `;`/`,`
/// go, then each dotted part loses white space, `[ ] " ' \``, and trailing
/// `; , ) (`.
pub fn normalize_identifier(identifier: &str) -> (r: String)
    ensures
        r@ == normalize_identifier_spec(identifier@),
{
    let v = chars_of(identifier);
    let r = normalize_identifier_chars(&v);
    string_of(&r)
}

pub fn normalize_identifier_chars(v: &Vec<char>) -> (r: Vec<char>)
    ensures
        r@ == normalize_identifier_spec(v@),
{
    let t0 = trim_chars(v);
    let semi = chars_of(";,");
    let t = trim_end_in_chars(&t0, &semi);
    let parts = split_on_chars(&t, '.');
    let quotes = chars_of("[]\"'`");
    let tail = chars_of(";,)(");
    let mut cleaned: Vec<Vec<char>> = Vec::new();
    let mut i: usize = 0;
    let ghost ps = split_on(t@, '.');
    while i < parts.len()
        invariant
            i <= parts.len(),
            views(parts@) == ps,
            quotes@ == "[]\"'`"@,
            tail@ == ";,)("@,
            views(cleaned@) == ps.take(i as int).map_values(|p: Seq<char>| clean_identifier_part(p)),
        decreases parts.len() - i,
    {
        let a = trim_chars(&parts[i]);
        let b = trim_in_chars(&a, &quotes);
        let c = trim_end_in_chars(&b, &tail);
        let ghost before = cleaned@;
        cleaned.push(c);
        assert(ps.take(i + 1) =~= ps.take(i as int).push(ps[i as int]));
        assert(views(cleaned@) =~= views(before).push(c@));
        assert(ps.take(i + 1).map_values(|p: Seq<char>| clean_identifier_part(p)) =~= ps.take(
            i as int,
        ).map_values(|p: Seq<char>| clean_identifier_part(p)).push(clean_identifier_part(ps[i as int])));
        i += 1;
    }
    assert(ps.take(parts.len() as int) =~= ps);
    let dot = chars_of(".");
    join_chars(&cleaned, &dot)
}

// ---------------------------------------------------------------------------
// Statements
// ---------------------------------------------------------------------------

/// `str::lines`, scanning from `i` with the line `cur` already begun: lines end
/// at `\n`, a `\r` just before the `\n` is dropped, and a final line without
/// `\n` is kept only when it is not empty.
pub open spec fn lines_from(s: Seq<char>, i: int, cur: Seq<char>) -> Seq<Seq<char>>
    decreases s.len() - i,
{
    if i < 0 || i >= s.len() {
        if cur.len() > 0 {
            seq![cur]
        } else {
            seq![]
        }
    } else if s[i] == '\n' {
        seq![drop_cr(cur)] + lines_from(s, i + 1, seq![])
    } else {
        lines_from(s, i + 1, cur.push(s[i]))
    }
}

pub open spec fn drop_cr(line: Seq<char>) -> Seq<char> {
    if line.len() > 0 && line.last() == '\r' {
        line.drop_last()
    } else {
        line
    }
}

pub open spec fn lines(s: Seq<char>) -> Seq<Seq<char>> {
    lines_from(s, 0, seq![])
}

pub fn lines_chars(v: &Vec<char>) -> (r: Vec<Vec<char>>)
    ensures
        views(r@) == lines(v@),
{
    let mut out: Vec<Vec<char>> = Vec::new();
    let mut cur: Vec<char> = Vec::new();
    let mut i: usize = 0;
    while i < v.len()
        invariant
            i <= v.len(),
            views(out@) + lines_from(v@, i as int, cur@) == lines(v@),
        decreases v.len() - i,
    {
        if v[i] == '\n' {
            let ghost before = out@;
            let ghost cv = cur@;
            let ghost rest = lines_from(v@, i + 1, seq![]);
            if cur.len() > 0 && cur[cur.len() - 1] == '\r' {
                cur.pop();
            }
            assert(cur@ == drop_cr(cv));
            out.push(cur);
            assert(views(out@) =~= views(before) + seq![drop_cr(cv)]);
            assert(views(before) + (seq![drop_cr(cv)] + rest) =~= views(out@) + rest);
            cur = Vec::new();
            assert(cur@ =~= seq![]);
        } else {
            cur.push(v[i]);
        }
        i += 1;
    }
    if cur.len() > 0 {
        let ghost before = out@;
        let ghost cv = cur@;
        out.push(cur);
        assert(views(out@) =~= views(before) + seq![cv]);
    } else {
        assert(views(out@) + seq![] =~= views(out@));
    }
    out
}

/// Whether a `'` literal is still open after scanning `line` from `i`.
pub open spec fn quote_state_from(line: Seq<char>, i: int, q: bool) -> bool
    decreases line.len() - i,
{
    if i < 0 || i >= line.len() {
        q
    } else if line[i] == '\'' {
        if q {
            if i + 1 < line.len() && line[i + 1] == '\'' {
                quote_state_from(line, i + 2, q)
            } else {
                quote_state_from(line, i + 1, false)
            }
        } else {
            quote_state_from(line, i + 1, true)
        }
    } else {
        quote_state_from(line, i + 1, q)
    }
}

fn update_single_quote_state(in_single: bool, line: &Vec<char>) -> (r: bool)
    ensures
        r == quote_state_from(line@, 0, in_single),
{
    let mut q = in_single;
    let mut i: usize = 0;
    while i < line.len()
        invariant
            i <= line.len() + 1,
            quote_state_from(line@, i as int, q) == quote_state_from(line@, 0, in_single),
        decreases line.len() + 1 - i,
    {
        if line[i] == '\'' {
            if q {
                if i + 1 < line.len() && line[i + 1] == '\'' {
                    i += 2;
                } else {
                    q = false;
                    i += 1;
                }
            } else {
                q = true;
                i += 1;
            }
        } else {
            i += 1;
        }
    }
    q
}

/// The trimmed piece, if it is not blank.
pub open spec fn emit(cur: Seq<char>) -> Seq<Seq<char>> {
    if trim(cur).len() > 0 {
        seq![trim(cur)]
    } else {
        seq![]
    }
}

/// Pieces of `s` between `;` outside `'..'` literals, from position `i`.
pub open spec fn semi_from(s: Seq<char>, i: int, cur: Seq<char>, q: bool) -> Seq<Seq<char>>
    decreases s.len() - i,
{
    if i < 0 || i >= s.len() {
        emit(cur)
    } else {
        let c = s[i];
        if c == '\'' {
            if q {
                if i + 1 < s.len() && s[i + 1] == '\'' {
                    semi_from(s, i + 2, cur.push(c).push('\''), q)
                } else {
                    semi_from(s, i + 1, cur.push(c), false)
                }
            } else {
                semi_from(s, i + 1, cur.push(c), true)
            }
        } else if c == ';' && !q {
            emit(cur) + semi_from(s, i + 1, seq![], q)
        } else {
            semi_from(s, i + 1, cur.push(c), q)
        }
    }
}

pub open spec fn split_by_semicolon_spec(s: Seq<char>) -> Seq<Seq<char>> {
    semi_from(s, 0, seq![], false)
}

fn push_emit(out: &mut Vec<Vec<char>>, cur: &Vec<char>)
    ensures
        views(final(out)@) == views(old(out)@) + emit(cur@),
{
    let t = trim_chars(cur);
    if t.len() > 0 {
        let ghost before = out@;
        let ghost tv = t@;
        out.push(t);
        assert(views(out@) =~= views(before) + seq![tv]);
    } else {
        assert(views(out@) + seq![] =~= views(out@));
    }
}

fn split_by_semicolon(batch: &Vec<char>) -> (r: Vec<Vec<char>>)
    ensures
        views(r@) == split_by_semicolon_spec(batch@),
{
    let n = batch.len();
    let mut out: Vec<Vec<char>> = Vec::new();
    let mut cur: Vec<char> = Vec::new();
    let mut q = false;
    let mut i: usize = 0;
    while i < n
        invariant
            n == batch.len(),
            i <= n + 1,
            views(out@) + semi_from(batch@, i as int, cur@, q) == split_by_semicolon_spec(batch@),
        decreases n + 1 - i,
    {
        let c = batch[i];
        if c == '\'' {
            cur.push(c);
            if q {
                if i + 1 < n && batch[i + 1] == '\'' {
                    cur.push('\'');
                    i += 2;
                } else {
                    q = false;
                    i += 1;
                }
            } else {
                q = true;
                i += 1;
            }
        } else if c == ';' && !q {
            let ghost before = views(out@);
            let ghost cv = cur@;
            push_emit(&mut out, &cur);
            cur = Vec::new();
            assert(views(out@) + semi_from(batch@, i + 1, cur@, q) =~= before + (emit(cv)
                + semi_from(batch@, i + 1, seq![], q)));
            i += 1;
        } else {
            cur.push(c);
            i += 1;
        }
    }
    let ghost before = views(out@);
    push_emit(&mut out, &cur);
    out
}

/// Statements of a comment-free text, given as lines, from line `j`: a line
/// that reads `GO` (outside a literal) ends a batch; batches are split at
/// semicolons.
pub open spec fn batches_from(ls: Seq<Seq<char>>, j: int, batch: Seq<char>, q: bool) -> Seq<
    Seq<char>,
>
    decreases ls.len() - j,
{
    if j < 0 || j >= ls.len() {
        split_by_semicolon_spec(batch)
    } else if !q && eq_ic(trim(ls[j]), "GO"@) {
        split_by_semicolon_spec(batch) + batches_from(ls, j + 1, seq![], q)
    } else {
        batches_from(ls, j + 1, batch + ls[j].push('\n'), quote_state_from(ls[j], 0, q))
    }
}

/// Trims every piece and drops the blank ones.
pub open spec fn tidy(xs: Seq<Seq<char>>) -> Seq<Seq<char>>
    decreases xs.len(),
{
    if xs.len() == 0 {
        seq![]
    } else {
        let p = tidy(xs.drop_last());
        let t = trim(xs.last());
        if t.len() > 0 {
            p.push(t)
        } else {
            p
        }
    }
}

/// `split_statements`: comments stripped, batches split on `GO` lines, then
/// on semicolons outside `'..'` literals; pieces trimmed, blank ones dropped.
pub open spec fn split_statements_spec(s: Seq<char>) -> Seq<Seq<char>> {
    tidy(batches_from(lines(strip_comments_spec(s)), 0, seq![], false))
}

/// Splits a SQL text into statements.
pub fn split_statements(sql: &str) -> (r: Vec<String>)
    ensures
        sviews(r@) == split_statements_spec(sql@),
{
    let v = chars_of(sql);
    let parts = split_statements_chars(&v);
    let mut out: Vec<String> = Vec::new();
    let mut i: usize = 0;
    while i < parts.len()
        invariant
            i <= parts.len(),
            sviews(out@) == views(parts@).take(i as int),
        decreases parts.len() - i,
    {
        let s = string_of(&parts[i]);
        let ghost before = out@;
        out.push(s);
        assert(sviews(out@) =~= sviews(before).push(parts@[i as int]@));
        assert(views(parts@).take(i + 1) =~= views(parts@).take(i as int).push(parts@[i as int]@));
        i += 1;
    }
    assert(views(parts@).take(parts.len() as int) =~= views(parts@));
    out
}

fn extend_pieces(out: &mut Vec<Vec<char>>, pieces: &Vec<Vec<char>>)
    ensures
        views(final(out)@) == views(old(out)@) + views(pieces@),
{
    let mut k: usize = 0;
    while k < pieces.len()
        invariant
            k <= pieces.len(),
            views(out@) == views(old(out)@) + views(pieces@).take(k as int),
        decreases pieces.len() - k,
    {
        let ghost b2 = out@;
        out.push(pieces[k].clone());
        assert(views(out@) =~= views(b2).push(pieces@[k as int]@));
        assert(views(pieces@).take(k + 1) =~= views(pieces@).take(k as int).push(
            pieces@[k as int]@,
        ));
        k += 1;
    }
    assert(views(pieces@).take(pieces.len() as int) =~= views(pieces@));
}

fn tidy_chars(xs: &Vec<Vec<char>>) -> (r: Vec<Vec<char>>)
    ensures
        views(r@) == tidy(views(xs@)),
{
    let mut out: Vec<Vec<char>> = Vec::new();
    let mut i: usize = 0;
    while i < xs.len()
        invariant
            i <= xs.len(),
            views(out@) == tidy(views(xs@).take(i as int)),
        decreases xs.len() - i,
    {
        let t = trim_chars(&xs[i]);
        let ghost xv = views(xs@);
        assert(xv.take(i + 1).drop_last() =~= xv.take(i as int));
        assert(xv.take(i + 1).last() == xs@[i as int]@);
        if t.len() > 0 {
            let ghost before = out@;
            out.push(t);
            assert(views(out@) =~= views(before).push(trim(xs@[i as int]@)));
        }
        i += 1;
    }
    assert(views(xs@).take(xs.len() as int) =~= views(xs@));
    out
}

pub fn split_statements_chars(sql: &Vec<char>) -> (r: Vec<Vec<char>>)
    ensures
        views(r@) == split_statements_spec(sql@),
{
    let stripped = strip_comments_chars(sql);
    let ls = lines_chars(&stripped);
    let mut raw: Vec<Vec<char>> = Vec::new();
    let mut batch: Vec<char> = Vec::new();
    let mut q = false;
    let mut j: usize = 0;
    let ghost lv = views(ls@);
    assert(views(raw@) =~= seq![]);
    assert(batch@ =~= seq![]);
    while j < ls.len()
        invariant
            j <= ls.len(),
            lv == views(ls@),
            views(raw@) + batches_from(lv, j as int, batch@, q) == batches_from(lv, 0, seq![], false),
        decreases ls.len() - j,
    {
        let t = trim_chars(&ls[j]);
        let ghost before = views(raw@);
        let ghost bv = batch@;
        assert(lv[j as int] == ls@[j as int]@);
        if !q && eq_ignore_case_str(&t, "GO") {
            let pieces = split_by_semicolon(&batch);
            extend_pieces(&mut raw, &pieces);
            batch = Vec::new();
            assert(batch@ =~= seq![]);
            assert(views(raw@) + batches_from(lv, j + 1, batch@, q) =~= before + batches_from(
                lv,
                j as int,
                bv,
                q,
            ));
        } else {
            let nq = update_single_quote_state(q, &ls[j]);
            append_chars(&mut batch, &ls[j]);
            batch.push('\n');
            assert(batch@ =~= bv + lv[j as int].push('\n'));
            q = nq;
        }
        j += 1;
    }
    let pieces = split_by_semicolon(&batch);
    extend_pieces(&mut raw, &pieces);
    tidy_chars(&raw)
}

} // verus!
