//! Decisions of the `scan` command that do not touch the file system: file
//! names for reports and diagrams, the diagram-format check, and the entries
//! of the folder index.
use vstd::prelude::*;
use crate::analyzer::{count_op, count_operation};
use crate::model::{deps_view, Operation, ProcedureTrace, RiskFinding, ScanIndexEntry};
use crate::text::{
    append_chars, append_str, ascii_lower, char_is_ascii_alnum, char_lower, chars_eq, chars_of,
    eq_ic, eq_ignore_case_str, is_ascii_alnum, str_less, str_lt, string_of, sviews, trim_in,
    trim_in_chars,
};

verus! {

// ---------------------------------------------------------------------------
// File names
// ---------------------------------------------------------------------------

/// Characters kept in a file name (lower-cased); every other becomes `_`.
pub open spec fn safe_char(c: char) -> char {
    if is_ascii_alnum(c) || c == '_' || c == '-' || c == '.' {
        ascii_lower(c)
    } else {
        '_'
    }
}

/// Each run of `_` shortened to a single `_`.
pub open spec fn collapse_underscores(s: Seq<char>) -> Seq<char>
    decreases s.len(),
{
    if s.len() == 0 {
        seq![]
    } else {
        let p = collapse_underscores(s.drop_last());
        if s.last() == '_' && p.len() > 0 && p.last() == '_' {
            p
        } else {
            p.push(s.last())
        }
    }
}

/// `sanitize_filename`: characters made safe and lower case, runs of `_`
/// collapsed, `_` trimmed from both ends.
pub open spec fn sanitize_spec(v: Seq<char>) -> Seq<char> {
    trim_in(collapse_underscores(v.map_values(|c: char| safe_char(c))), "_"@)
}

fn safe_char_exec(c: char) -> (r: char)
    ensures
        r == safe_char(c),
{
    if char_is_ascii_alnum(c) || c == '_' || c == '-' || c == '.' {
        char_lower(c)
    } else {
        '_'
    }
}

/// A file-name-safe form of a procedure name.
pub fn sanitize_filename(value: &str) -> (r: String)
    ensures
        r@ == sanitize_spec(value@),
{
    let v = chars_of(value);
    let mut out: Vec<char> = Vec::new();
    let ghost m = v@.map_values(|c: char| safe_char(c));
    let mut i: usize = 0;
    while i < v.len()
        invariant
            i <= v.len(),
            m == v@.map_values(|c: char| safe_char(c)),
            out@ == collapse_underscores(m.take(i as int)),
        decreases v.len() - i,
    {
        let c = safe_char_exec(v[i]);
        assert(m.take(i + 1).drop_last() =~= m.take(i as int));
        assert(m.take(i + 1).last() == c);
        if !(c == '_' && out.len() > 0 && out[out.len() - 1] == '_') {
            out.push(c);
        }
        i += 1;
    }
    assert(m.take(v.len() as int) =~= m);
    let us = chars_of("_");
    let t = trim_in_chars(&out, &us);
    string_of(&t)
}

/// `fallback_name`: a file's stem, or `unknown_procedure` when it has none.
pub fn fallback_name(stem: Option<&str>) -> (r: String)
    ensures
        r@ == (match stem {
            Some(s) => s@,
            None => "unknown_procedure"@,
        }),
{
    match stem {
        Some(s) => string_of(&chars_of(s)),
        None => string_of(&chars_of("unknown_procedure")),
    }
}

/// The procedure a scanned file is listed under: its declared name, else the
/// file's stem, else `unknown_procedure`.
pub open spec fn procedure_label_spec(name: Option<Seq<char>>, stem: Option<Seq<char>>) -> Seq<char> {
    match name {
        Some(n) => n,
        None => match stem {
            Some(s) => s,
            None => "unknown_procedure"@,
        },
    }
}

pub open spec fn opt_str_view(o: Option<&str>) -> Option<Seq<char>> {
    match o {
        Some(s) => Some(s@),
        None => None,
    }
}

pub open spec fn opt_string_view(o: Option<String>) -> Option<Seq<char>> {
    match o {
        Some(s) => Some(s@),
        None => None,
    }
}

/// The procedure a scanned file is listed under.
pub fn procedure_label(name: &Option<String>, stem: Option<&str>) -> (r: String)
    ensures
        r@ == procedure_label_spec(opt_string_view(*name), opt_str_view(stem)),
{
    match name {
        Some(n) => string_of(&chars_of(n.as_str())),
        None => fallback_name(stem),
    }
}

/// The Markdown report's file name for a scanned file: its procedure label,
/// sanitized, with `.md`.
pub fn report_file_name(name: &Option<String>, stem: Option<&str>) -> (r: String)
    ensures
        r@ == sanitize_spec(procedure_label_spec(opt_string_view(*name), opt_str_view(stem))) + ".md"@,
{
    let label = procedure_label(name, stem);
    let base = sanitize_filename(label.as_str());
    let mut out = chars_of(base.as_str());
    append_str(&mut out, ".md");
    string_of(&out)
}

/// A file extension that marks SQL: `sql` in any letter case.
pub fn is_sql_extension(ext: Option<&str>) -> (r: bool)
    ensures
        r == (match ext {
            Some(e) => eq_ic(e@, "sql"@),
            None => false,
        }),
{
    match ext {
        Some(e) => eq_ignore_case_str(&chars_of(e), "sql"),
        None => false,
    }
}

/// The file stem of a procedure's default diagram: the sanitized procedure
/// name, else the sanitized source file stem, else `diagram`.
pub fn diagram_stem(procedure: Option<&str>, source_stem: Option<&str>) -> (r: String)
    ensures
        r@ == (match procedure {
            Some(p) => sanitize_spec(p@),
            None => match source_stem {
                Some(s) => sanitize_spec(s@),
                None => "diagram"@,
            },
        }),
{
    match procedure {
        Some(p) => sanitize_filename(p),
        None => match source_stem {
            Some(s) => sanitize_filename(s),
            None => string_of(&chars_of("diagram")),
        },
    }
}

/// The error text for a diagram format other than Mermaid.
pub open spec fn unsupported_format_message(f: Seq<char>) -> Seq<char> {
    "Unsupported diagram format: "@ + f + ". Only mermaid is supported in v0.1."@
}

/// The error text for JSON output asked of a directory scan.
pub open spec fn directory_json_message() -> Seq<char> {
    "JSON output is only supported for single-file scan in v0.1."@
}

/// A directory scan writes Markdown reports; JSON output is refused with the
/// error text.
pub fn check_directory_scan_options(json: bool) -> (r: Result<(), String>)
    ensures
        (r is Err) == json,
        r matches Err(e) ==> e@ == directory_json_message(),
{
    if json {
        Err("JSON output is only supported for single-file scan in v0.1.".to_string())
    } else {
        Ok(())
    }
}

/// Accepts no format or `mermaid` (any letter case); otherwise the error text.
pub fn check_diagram_format(format: Option<&str>) -> (r: Result<(), String>)
    ensures
        match format {
            None => r is Ok,
            Some(f) => if eq_ic(f@, "mermaid"@) {
                r is Ok
            } else {
                r matches Err(e) && e@ == unsupported_format_message(f@)
            },
        },
{
    match format {
        None => Ok(()),
        Some(f) => {
            let fv = chars_of(f);
            if eq_ignore_case_str(&fv, "mermaid") {
                Ok(())
            } else {
                let mut msg = chars_of("Unsupported diagram format: ");
                append_chars(&mut msg, &fv);
                append_str(&mut msg, ". Only mermaid is supported in v0.1.");
                Err(string_of(&msg))
            }
        },
    }
}

// ---------------------------------------------------------------------------
// Folder index entries
// ---------------------------------------------------------------------------

pub open spec fn rule_ids(rs: Seq<RiskFinding>) -> Seq<Seq<char>> {
    rs.map_values(|r: RiskFinding| r.rule_id@)
}

/// The index entry of one scanned file: its read and write counts, risk level
/// and the rule ids of its findings, in order.
pub fn index_entry(source_file: String, report_file: String, procedure: String, trace: &ProcedureTrace) -> (r: ScanIndexEntry)
    ensures
        r.source_file@ == source_file@,
        r.report_file@ == report_file@,
        r.procedure@ == procedure@,
        r.read_count == count_op(deps_view(trace.dependencies@), Operation::Read),
        r.write_count == count_op(deps_view(trace.dependencies@), Operation::Write),
        r.risk_level == trace.metrics.risk_level,
        sviews(r.risk_rules@) == rule_ids(trace.risks@),
{
    let mut rules: Vec<String> = Vec::new();
    let mut i: usize = 0;
    while i < trace.risks.len()
        invariant
            i <= trace.risks@.len(),
            sviews(rules@) == rule_ids(trace.risks@).take(i as int),
        decreases trace.risks.len() - i,
    {
        let ghost before = rules@;
        rules.push(trace.risks[i].rule_id.clone());
        assert(sviews(rules@) =~= sviews(before).push(trace.risks@[i as int].rule_id@));
        assert(rule_ids(trace.risks@).take(i + 1) =~= rule_ids(trace.risks@).take(i as int).push(trace.risks@[i as int].rule_id@));
        i += 1;
    }
    assert(rule_ids(trace.risks@).take(trace.risks@.len() as int) =~= rule_ids(trace.risks@));
    ScanIndexEntry {
        source_file,
        report_file,
        procedure,
        read_count: count_operation(&trace.dependencies, Operation::Read),
        write_count: count_operation(&trace.dependencies, Operation::Write),
        risk_level: trace.metrics.risk_level,
        risk_rules: rules,
    }
}

/// `a` goes strictly before `b`: by procedure, then by source file.
pub open spec fn entry_before(a: ScanIndexEntry, b: ScanIndexEntry) -> bool {
    str_lt(a.procedure@, b.procedure@) || (a.procedure@ == b.procedure@ && str_lt(
        a.source_file@,
        b.source_file@,
    ))
}

/// Position of the first element from `i` on that `x` goes before.
pub open spec fn entry_insert_point(sorted: Seq<ScanIndexEntry>, x: ScanIndexEntry, i: int) -> int
    decreases sorted.len() - i,
{
    if i < 0 || i >= sorted.len() {
        sorted.len() as int
    } else if entry_before(x, sorted[i]) {
        i
    } else {
        entry_insert_point(sorted, x, i + 1)
    }
}

/// Stable sort by procedure, then source file (insertion sort).
pub open spec fn sort_entries_spec(s: Seq<ScanIndexEntry>) -> Seq<ScanIndexEntry>
    decreases s.len(),
{
    if s.len() == 0 {
        seq![]
    } else {
        let p = sort_entries_spec(s.drop_last());
        p.insert(entry_insert_point(p, s.last(), 0), s.last())
    }
}

fn entry_before_exec(a: &ScanIndexEntry, b: &ScanIndexEntry) -> (r: bool)
    ensures
        r == entry_before(*a, *b),
{
    let ap = chars_of(a.procedure.as_str());
    let bp = chars_of(b.procedure.as_str());
    if str_less(&ap, &bp) {
        return true;
    }
    if !chars_eq(&ap, &bp) {
        return false;
    }
    let asf = chars_of(a.source_file.as_str());
    let bsf = chars_of(b.source_file.as_str());
    str_less(&asf, &bsf)
}

/// Orders index entries by procedure, then source file; entries that compare
/// equal keep their order.
pub fn sort_index_entries(entries: Vec<ScanIndexEntry>) -> (r: Vec<ScanIndexEntry>)
    ensures
        r@ == sort_entries_spec(entries@),
{
    let ghost ev = entries@;
    let mut sorted: Vec<ScanIndexEntry> = Vec::new();
    let mut rest: Vec<ScanIndexEntry> = Vec::new();
    let mut src = entries;
    // reverse into `rest`, so that popping yields the entries in order
    while src.len() > 0
        invariant
            src@.len() + rest@.len() == ev.len(),
            forall|k: int| 0 <= k < src@.len() ==> src@[k] == ev[k],
            forall|k: int| 0 <= k < rest@.len() ==> rest@[k] == ev[ev.len() - 1 - k],
        decreases src.len(),
    {
        let e = src.pop().unwrap();
        rest.push(e);
    }
    let n = rest.len();
    let mut i: usize = 0;
    while i < n
        invariant
            i <= n,
            n == ev.len(),
            rest@.len() == n - i,
            forall|k: int| 0 <= k < rest@.len() ==> rest@[k] == ev[ev.len() - 1 - k],
            sorted@ == sort_entries_spec(ev.take(i as int)),
        decreases n - i,
    {
        let x = rest.pop().unwrap();
        assert(x == ev[i as int]);
        assert(ev.take(i + 1).drop_last() =~= ev.take(i as int));
        let ghost sv = sorted@;
        let mut p: usize = 0;
        while p < sorted.len() && !entry_before_exec(&x, &sorted[p])
            invariant
                p <= sorted.len(),
                sv == sorted@,
                entry_insert_point(sv, x, p as int) == entry_insert_point(sv, x, 0),
            decreases sorted.len() - p,
        {
            p += 1;
        }
        sorted.insert(p, x);
        i += 1;
    }
    assert(ev.take(n as int) =~= ev);
    sorted
}

} // verus!
