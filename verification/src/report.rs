//! Text reports: terminal, Markdown, AI context, Mermaid diagrams, diff and
//! folder index.
use vstd::prelude::*;
use crate::model::{
    dep_view, deps_view, opt_view, param_view, params_view, risk_view, risks_view, Dependency,
    Operation, Parameter, ProcedureTrace, RiskFinding, ScanIndexEntry, Severity, severity_label,
};
use crate::parser::DepV;
use crate::text::{
    append_chars, append_str, chars_eq, chars_of, decimal, decimal_chars, is_ascii_alnum, join,
    join_chars, sort_dedup, split_on, split_on_chars, string_of, sviews, views,
    char_is_ascii_alnum, trim_end_in, trim_end_in_chars, sorted_set,
};

verus! {

// ---------------------------------------------------------------------------
// Text pieces
// ---------------------------------------------------------------------------

/// The pieces one after the other.
pub open spec fn concat(parts: Seq<Seq<char>>) -> Seq<char>
    decreases parts.len(),
{
    if parts.len() == 0 {
        seq![]
    } else {
        concat(parts.drop_last()) + parts.last()
    }
}

/// A Markdown list, one `- item` line per item; `- None` when there is none.
pub open spec fn md_list(items: Seq<Seq<char>>) -> Seq<char> {
    if items.len() == 0 {
        "- None\n"@
    } else {
        concat(items.map_values(|x: Seq<char>| "- "@ + x + "\n"@))
    }
}

/// Terminal list lines, `- item`; `- None` when there is none.
pub open spec fn bullets(items: Seq<Seq<char>>) -> Seq<Seq<char>> {
    if items.len() == 0 {
        seq!["- None"@]
    } else {
        items.map_values(|x: Seq<char>| "- "@ + x)
    }
}

pub open spec fn severity_upper(s: Severity) -> Seq<char> {
    match s {
        Severity::Low => "LOW"@,
        Severity::Medium => "MEDIUM"@,
        Severity::High => "HIGH"@,
    }
}

pub open spec fn name_or(name: Option<String>, fallback: Seq<char>) -> Seq<char> {
    match name {
        Some(n) => n@,
        None => fallback,
    }
}

pub fn severity_text(s: Severity) -> (r: Vec<char>)
    ensures
        r@ == severity_label(s),
{
    match s {
        Severity::Low => chars_of("Low"),
        Severity::Medium => chars_of("Medium"),
        Severity::High => chars_of("High"),
    }
}

fn severity_upper_text(s: Severity) -> (r: Vec<char>)
    ensures
        r@ == severity_upper(s),
{
    match s {
        Severity::Low => chars_of("LOW"),
        Severity::Medium => chars_of("MEDIUM"),
        Severity::High => chars_of("HIGH"),
    }
}

fn name_or_text(name: &Option<String>, fallback: &str) -> (r: Vec<char>)
    ensures
        r@ == name_or(*name, fallback@),
{
    match name {
        Some(n) => chars_of(n.as_str()),
        None => chars_of(fallback),
    }
}

fn push_md_list(out: &mut Vec<char>, items: &Vec<Vec<char>>)
    ensures
        final(out)@ == old(out)@ + md_list(views(items@)),
{
    if items.len() == 0 {
        append_str(out, "- None\n");
        return;
    }
    let ghost f = |x: Seq<char>| "- "@ + x + "\n"@;
    let ghost iv = views(items@);
    let ghost o = old(out)@;
    let mut i: usize = 0;
    while i < items.len()
        invariant
            i <= items.len(),
            iv == views(items@),
            f == (|x: Seq<char>| "- "@ + x + "\n"@),
            out@ == o + concat(iv.take(i as int).map_values(f)),
        decreases items.len() - i,
    {
        append_str(out, "- ");
        append_chars(out, &items[i]);
        append_str(out, "\n");
        assert(iv.take(i + 1).map_values(f).drop_last() =~= iv.take(i as int).map_values(f));
        assert(iv.take(i + 1).map_values(f).last() == f(items@[i as int]@));
        i += 1;
    }
    assert(iv.take(items.len() as int) =~= iv);
}

fn strings_to_chars(v: &Vec<String>) -> (r: Vec<Vec<char>>)
    ensures
        views(r@) == sviews(v@),
{
    let mut out: Vec<Vec<char>> = Vec::new();
    let mut i: usize = 0;
    while i < v.len()
        invariant
            i <= v.len(),
            views(out@) == sviews(v@).take(i as int),
        decreases v.len() - i,
    {
        let ghost before = out@;
        out.push(chars_of(v[i].as_str()));
        assert(views(out@) =~= views(before).push(v@[i as int]@));
        assert(sviews(v@).take(i + 1) =~= sviews(v@).take(i as int).push(v@[i as int]@));
        i += 1;
    }
    assert(sviews(v@).take(v.len() as int) =~= sviews(v@));
    out
}

fn chars_to_strings(v: &Vec<Vec<char>>) -> (r: Vec<String>)
    ensures
        sviews(r@) == views(v@),
{
    let mut out: Vec<String> = Vec::new();
    let mut i: usize = 0;
    while i < v.len()
        invariant
            i <= v.len(),
            sviews(out@) == views(v@).take(i as int),
        decreases v.len() - i,
    {
        let ghost before = out@;
        out.push(string_of(&v[i]));
        assert(sviews(out@) =~= sviews(before).push(v@[i as int]@));
        assert(views(v@).take(i + 1) =~= views(v@).take(i as int).push(v@[i as int]@));
        i += 1;
    }
    assert(views(v@).take(v.len() as int) =~= views(v@));
    out
}

fn push_line(lines: &mut Vec<Vec<char>>, line: Vec<char>)
    ensures
        views(final(lines)@) == views(old(lines)@).push(line@),
        final(lines)@.len() == old(lines)@.len() + 1,
{
    let ghost before = lines@;
    let ghost lv = line@;
    lines.push(line);
    assert(views(lines@) =~= views(before).push(lv));
}

fn push_line_str(lines: &mut Vec<Vec<char>>, line: &str)
    ensures
        views(final(lines)@) == views(old(lines)@).push(line@),
        final(lines)@.len() == old(lines)@.len() + 1,
{
    push_line(lines, chars_of(line));
}

fn push_bullets(lines: &mut Vec<Vec<char>>, items: &Vec<Vec<char>>)
    ensures
        views(final(lines)@) == views(old(lines)@) + bullets(views(items@)),
{
    if items.len() == 0 {
        push_line_str(lines, "- None");
        assert(views(lines@) =~= views(old(lines)@) + seq!["- None"@]);
        return;
    }
    let ghost f = |x: Seq<char>| "- "@ + x;
    let ghost iv = views(items@);
    let ghost o = views(old(lines)@);
    let mut i: usize = 0;
    while i < items.len()
        invariant
            i <= items.len(),
            iv == views(items@),
            f == (|x: Seq<char>| "- "@ + x),
            views(lines@) == o + iv.take(i as int).map_values(f),
        decreases items.len() - i,
    {
        let mut l = chars_of("- ");
        append_chars(&mut l, &items[i]);
        push_line(lines, l);
        assert(iv.take(i + 1).map_values(f) =~= iv.take(i as int).map_values(f).push(f(items@[i as int]@)));
        i += 1;
    }
    assert(iv.take(items.len() as int) =~= iv);
}

// ---------------------------------------------------------------------------
// Dependency groups
// ---------------------------------------------------------------------------

/// Which dependencies a group collects.
#[derive(PartialEq, Eq, Structural, Clone, Copy)]
pub enum GroupKind {
    Reads,
    Writes,
    Executes,
    External,
}

/// At least four non-empty dotted parts: `server.db.schema.table`.
pub open spec fn is_external(obj: Seq<char>) -> bool {
    nonempty_count(split_on(obj, '.')) >= 4
}

pub open spec fn nonempty_count(parts: Seq<Seq<char>>) -> nat
    decreases parts.len(),
{
    if parts.len() == 0 {
        0
    } else {
        nonempty_count(parts.drop_last()) + (if parts.last().len() > 0 {
            1nat
        } else {
            0nat
        })
    }
}

pub open spec fn in_group(d: DepV, k: GroupKind) -> bool {
    match k {
        GroupKind::Reads => d.1 == Operation::Read,
        GroupKind::Writes => d.1 == Operation::Write,
        GroupKind::Executes => d.1 == Operation::Execute,
        GroupKind::External => is_external(d.0),
    }
}

/// Objects of the group's dependencies, each once, in first-seen order.
pub open spec fn group(ds: Seq<DepV>, k: GroupKind) -> Seq<Seq<char>>
    decreases ds.len(),
{
    if ds.len() == 0 {
        seq![]
    } else {
        let p = group(ds.drop_last(), k);
        if in_group(ds.last(), k) && !p.contains(ds.last().0) {
            p.push(ds.last().0)
        } else {
            p
        }
    }
}

/// The dependency objects of a trace, grouped.
pub struct DependencyGroups {
    pub reads: Vec<String>,
    pub writes: Vec<String>,
    pub executes: Vec<String>,
    pub external: Vec<String>,
}

pub open spec fn groups_of(ds: Seq<Dependency>, g: DependencyGroups) -> bool {
    &&& sviews(g.reads@) == group(deps_view(ds), GroupKind::Reads)
    &&& sviews(g.writes@) == group(deps_view(ds), GroupKind::Writes)
    &&& sviews(g.executes@) == group(deps_view(ds), GroupKind::Executes)
    &&& sviews(g.external@) == group(deps_view(ds), GroupKind::External)
}

fn is_external_dependency(obj: &Vec<char>) -> (r: bool)
    ensures
        r == is_external(obj@),
{
    let parts = split_on_chars(obj, '.');
    let ghost pv = views(parts@);
    let mut n: usize = 0;
    let mut i: usize = 0;
    while i < parts.len()
        invariant
            i <= parts.len(),
            pv == views(parts@),
            n == nonempty_count(pv.take(i as int)),
            n <= i,
        decreases parts.len() - i,
    {
        assert(pv.take(i + 1).drop_last() =~= pv.take(i as int));
        assert(pv.take(i + 1).last() == parts@[i as int]@);
        if parts[i].len() > 0 {
            n += 1;
        }
        i += 1;
    }
    assert(pv.take(parts.len() as int) =~= pv);
    n >= 4
}

fn contains_view(v: &Vec<Vec<char>>, x: &Vec<char>) -> (r: bool)
    ensures
        r == views(v@).contains(x@),
{
    let mut i: usize = 0;
    while i < v.len()
        invariant
            i <= v.len(),
            forall|k: int| 0 <= k < i ==> v@[k]@ != x@,
        decreases v.len() - i,
    {
        if chars_eq(&v[i], x) {
            assert(views(v@)[i as int] == x@);
            return true;
        }
        i += 1;
    }
    assert(!views(v@).contains(x@)) by {
        if views(v@).contains(x@) {
            let k = choose|k: int| 0 <= k < views(v@).len() && views(v@)[k] == x@;
            assert(v@[k]@ == x@);
        }
    }
    false
}

fn ordered_unique_objects(deps: &Vec<Dependency>, k: GroupKind) -> (r: Vec<Vec<char>>)
    ensures
        views(r@) == group(deps_view(deps@), k),
{
    let ghost dv = deps_view(deps@);
    let mut items: Vec<Vec<char>> = Vec::new();
    let mut i: usize = 0;
    while i < deps.len()
        invariant
            i <= deps.len(),
            dv == deps_view(deps@),
            views(items@) == group(dv.take(i as int), k),
        decreases deps.len() - i,
    {
        assert(dv.take(i + 1).drop_last() =~= dv.take(i as int));
        assert(dv.take(i + 1).last() == dep_view(deps@[i as int]));
        let obj = chars_of(deps[i].object.as_str());
        let op = deps[i].operation;
        let inside = match k {
            GroupKind::Reads => op == Operation::Read,
            GroupKind::Writes => op == Operation::Write,
            GroupKind::Executes => op == Operation::Execute,
            GroupKind::External => is_external_dependency(&obj),
        };
        if inside && !contains_view(&items, &obj) {
            push_line(&mut items, obj);
        }
        i += 1;
    }
    assert(dv.take(deps.len() as int) =~= dv);
    items
}

/// Reads, writes, calls and four-part (external) objects of the dependencies.
pub fn group_dependencies(deps: &Vec<Dependency>) -> (r: DependencyGroups)
    ensures
        groups_of(deps@, r),
{
    let reads = ordered_unique_objects(deps, GroupKind::Reads);
    let writes = ordered_unique_objects(deps, GroupKind::Writes);
    let executes = ordered_unique_objects(deps, GroupKind::Executes);
    let external = ordered_unique_objects(deps, GroupKind::External);
    DependencyGroups {
        reads: chars_to_strings(&reads),
        writes: chars_to_strings(&writes),
        executes: chars_to_strings(&executes),
        external: chars_to_strings(&external),
    }
}

// ---------------------------------------------------------------------------
// Terminal report
// ---------------------------------------------------------------------------

pub open spec fn default_or_required(d: Option<Seq<char>>) -> Seq<char> {
    match d {
        Some(v) => v,
        None => "Required"@,
    }
}

pub open spec fn terminal_param_line(p: (Seq<char>, Seq<char>, Option<Seq<char>>)) -> Seq<char> {
    "- "@ + p.0 + " "@ + p.1 + " ("@ + default_or_required(p.2) + ")"@
}

pub open spec fn terminal_risk_line(r: (Seq<char>, Severity, Seq<char>, Seq<char>)) -> Seq<char> {
    "["@ + severity_upper(r.1) + "] "@ + r.0 + " - "@ + r.2
}

pub open spec fn terminal_lines(t: ProcedureTrace) -> Seq<Seq<char>> {
    let ds = deps_view(t.dependencies@);
    let ps = params_view(t.parameters@);
    let rs = risks_view(t.risks@);
    seq!["Procedure: "@ + name_or(t.name, "Unknown"@), ""@, "Parameters:"@] + (if ps.len() == 0 {
        seq!["- None"@]
    } else {
        ps.map_values(|p: (Seq<char>, Seq<char>, Option<Seq<char>>)| terminal_param_line(p))
    }) + seq![""@, "Tables Read:"@] + bullets(group(ds, GroupKind::Reads)) + seq![
        ""@,
        "Tables Written:"@,
    ] + bullets(group(ds, GroupKind::Writes)) + seq![""@, "Procedures Executed:"@] + bullets(
        group(ds, GroupKind::Executes),
    ) + seq![""@, "Temp Tables:"@] + bullets(sviews(t.temp_tables@)) + seq![""@, "Risks:"@] + (
    if rs.len() == 0 {
        seq!["- None"@]
    } else {
        rs.map_values(|r: (Seq<char>, Severity, Seq<char>, Seq<char>)| terminal_risk_line(r))
    })
}

pub open spec fn terminal_spec(t: ProcedureTrace) -> Seq<char> {
    join(terminal_lines(t), "\n"@)
}

fn default_text(d: &Option<String>) -> (r: Vec<char>)
    ensures
        r@ == default_or_required(opt_view(*d)),
{
    match d {
        Some(v) => chars_of(v.as_str()),
        None => chars_of("Required"),
    }
}

fn push_terminal_params(lines: &mut Vec<Vec<char>>, ps: &Vec<Parameter>)
    ensures
        views(final(lines)@) == views(old(lines)@) + (if ps@.len() == 0 {
            seq!["- None"@]
        } else {
            params_view(ps@).map_values(|p: (Seq<char>, Seq<char>, Option<Seq<char>>)| terminal_param_line(p))
        }),
{
    if ps.len() == 0 {
        push_line_str(lines, "- None");
        return;
    }
    let ghost f = |p: (Seq<char>, Seq<char>, Option<Seq<char>>)| terminal_param_line(p);
    let ghost pv = params_view(ps@);
    let ghost o = views(old(lines)@);
    let mut i: usize = 0;
    while i < ps.len()
        invariant
            i <= ps.len(),
            pv == params_view(ps@),
            f == (|p: (Seq<char>, Seq<char>, Option<Seq<char>>)| terminal_param_line(p)),
            views(lines@) == o + pv.take(i as int).map_values(f),
        decreases ps.len() - i,
    {
        let p = &ps[i];
        let mut l = chars_of("- ");
        append_str(&mut l, p.name.as_str());
        append_str(&mut l, " ");
        append_str(&mut l, p.data_type.as_str());
        append_str(&mut l, " (");
        let d = default_text(&p.default_value);
        append_chars(&mut l, &d);
        append_str(&mut l, ")");
        assert(l@ == terminal_param_line(param_view(*p)));
        push_line(lines, l);
        assert(pv.take(i + 1).map_values(f) =~= pv.take(i as int).map_values(f).push(f(param_view(ps@[i as int]))));
        i += 1;
    }
    assert(pv.take(ps.len() as int) =~= pv);
}

fn push_terminal_risks(lines: &mut Vec<Vec<char>>, rs: &Vec<RiskFinding>)
    ensures
        views(final(lines)@) == views(old(lines)@) + (if rs@.len() == 0 {
            seq!["- None"@]
        } else {
            risks_view(rs@).map_values(|r: (Seq<char>, Severity, Seq<char>, Seq<char>)| terminal_risk_line(r))
        }),
{
    if rs.len() == 0 {
        push_line_str(lines, "- None");
        return;
    }
    let ghost f = |r: (Seq<char>, Severity, Seq<char>, Seq<char>)| terminal_risk_line(r);
    let ghost rv = risks_view(rs@);
    let ghost o = views(old(lines)@);
    let mut i: usize = 0;
    while i < rs.len()
        invariant
            i <= rs.len(),
            rv == risks_view(rs@),
            f == (|r: (Seq<char>, Severity, Seq<char>, Seq<char>)| terminal_risk_line(r)),
            views(lines@) == o + rv.take(i as int).map_values(f),
        decreases rs.len() - i,
    {
        let r = &rs[i];
        let mut l = chars_of("[");
        let su = severity_upper_text(r.severity);
        append_chars(&mut l, &su);
        append_str(&mut l, "] ");
        append_str(&mut l, r.rule_id.as_str());
        append_str(&mut l, " - ");
        append_str(&mut l, r.message.as_str());
        assert(l@ == terminal_risk_line(risk_view(*r)));
        push_line(lines, l);
        assert(rv.take(i + 1).map_values(f) =~= rv.take(i as int).map_values(f).push(f(risk_view(rs@[i as int]))));
        i += 1;
    }
    assert(rv.take(rs.len() as int) =~= rv);
}

fn push_section_bullets(lines: &mut Vec<Vec<char>>, title: &str, items: &Vec<String>)
    ensures
        views(final(lines)@) == views(old(lines)@) + seq![""@, title@] + bullets(sviews(items@)),
{
    let ghost o = views(lines@);
    push_line_str(lines, "");
    push_line_str(lines, title);
    let ghost m = views(lines@);
    let iv = strings_to_chars(items);
    push_bullets(lines, &iv);
    assert(views(lines@) =~= o + seq![""@, title@] + bullets(sviews(items@)));
}

/// The terminal report of a trace.
pub fn render_terminal(trace: &ProcedureTrace) -> (r: String)
    ensures
        r@ == terminal_spec(*trace),
{
    let groups = group_dependencies(&trace.dependencies);
    let mut lines: Vec<Vec<char>> = Vec::new();
    let mut first = chars_of("Procedure: ");
    let name = name_or_text(&trace.name, "Unknown");
    append_chars(&mut first, &name);
    push_line(&mut lines, first);
    push_line_str(&mut lines, "");
    push_line_str(&mut lines, "Parameters:");
    push_terminal_params(&mut lines, &trace.parameters);
    let ghost l1 = views(lines@);
    push_section_bullets(&mut lines, "Tables Read:", &groups.reads);
    push_section_bullets(&mut lines, "Tables Written:", &groups.writes);
    push_section_bullets(&mut lines, "Procedures Executed:", &groups.executes);
    push_section_bullets(&mut lines, "Temp Tables:", &trace.temp_tables);
    push_line_str(&mut lines, "");
    push_line_str(&mut lines, "Risks:");
    push_terminal_risks(&mut lines, &trace.risks);
    assert(views(lines@) =~= terminal_lines(*trace));
    let nl = chars_of("\n");
    let j = join_chars(&lines, &nl);
    string_of(&j)
}


// ---------------------------------------------------------------------------
// Mermaid
// ---------------------------------------------------------------------------

pub open spec fn id_char(c: char) -> char {
    if is_ascii_alnum(c) {
        c
    } else {
        '_'
    }
}

/// A Mermaid node id: `N_` and the label with every character that is not an
/// ASCII letter or digit made `_`, trailing `_` removed.
pub open spec fn node_id_spec(label: Seq<char>) -> Seq<char> {
    let s = trim_end_in("N_"@ + label.map_values(|c: char| id_char(c)), "_"@);
    if s == "N_"@ {
        "N_UNKNOWN"@
    } else {
        s
    }
}

/// A Mermaid label: `"` becomes `'`.
pub open spec fn escape_label_spec(label: Seq<char>) -> Seq<char> {
    label.map_values(|c: char| if c == '"' { '\'' } else { c })
}

fn node_id(label: &Vec<char>) -> (r: Vec<char>)
    ensures
        r@ == node_id_spec(label@),
{
    let mut out = chars_of("N_");
    let ghost base = out@;
    let mut i: usize = 0;
    while i < label.len()
        invariant
            i <= label.len(),
            out@ == base + label@.take(i as int).map_values(|c: char| id_char(c)),
        decreases label.len() - i,
    {
        let c = label[i];
        if char_is_ascii_alnum(c) {
            out.push(c);
        } else {
            out.push('_');
        }
        assert(label@.take(i + 1).map_values(|c: char| id_char(c)) =~= label@.take(i as int).map_values(|c: char| id_char(c)).push(id_char(c)));
        i += 1;
    }
    assert(label@.take(label.len() as int) =~= label@);
    let us = chars_of("_");
    let t = trim_end_in_chars(&out, &us);
    let n = chars_of("N_");
    if chars_eq(&t, &n) {
        chars_of("N_UNKNOWN")
    } else {
        t
    }
}

fn escape_label(label: &Vec<char>) -> (r: Vec<char>)
    ensures
        r@ == escape_label_spec(label@),
{
    let mut out: Vec<char> = Vec::new();
    let mut i: usize = 0;
    while i < label.len()
        invariant
            i <= label.len(),
            out@ == label@.take(i as int).map_values(|c: char| if c == '"' { '\'' } else { c }),
        decreases label.len() - i,
    {
        let c = label[i];
        if c == '"' {
            out.push('\'');
        } else {
            out.push(c);
        }
        assert(label@.take(i + 1).map_values(|c: char| if c == '"' { '\'' } else { c }) =~= label@.take(i as int).map_values(|c: char| if c == '"' { '\'' } else { c }).push(if c == '"' { '\'' } else { c }));
        i += 1;
    }
    assert(label@.take(label.len() as int) =~= label@);
    out
}

pub open spec fn node_line(id: Seq<char>, label: Seq<char>) -> Seq<char> {
    "    "@ + id + "[\""@ + escape_label_spec(label) + "\"]"@
}

/// The edge line of a dependency, if its operation has one.
pub open spec fn edge_of(op: Operation, dep_id: Seq<char>, proc_id: Seq<char>) -> Option<Seq<char>> {
    match op {
        Operation::Read => Some("    "@ + dep_id + " --> "@ + proc_id),
        Operation::Write => Some("    "@ + proc_id + " --> "@ + dep_id),
        Operation::Execute => Some("    "@ + proc_id + " -. executes .-> "@ + dep_id),
        Operation::Unknown => None,
    }
}

/// Lines and emitted node ids after the procedure's dependencies: a node line
/// the first time an object's id appears, then its edge.
pub open spec fn mermaid_fold(ds: Seq<DepV>, pid: Seq<char>) -> (Seq<Seq<char>>, Seq<Seq<char>>)
    decreases ds.len(),
{
    if ds.len() == 0 {
        (seq![], seq![pid])
    } else {
        let (ls, em) = mermaid_fold(ds.drop_last(), pid);
        let d = ds.last();
        let id = node_id_spec(d.0);
        let (ls2, em2) = if em.contains(id) {
            (ls, em)
        } else {
            (ls.push(node_line(id, d.0)), em.push(id))
        };
        (
            match edge_of(d.1, id, pid) {
                Some(e) => ls2.push(e),
                None => ls2,
            },
            em2,
        )
    }
}

pub open spec fn mermaid_spec(t: ProcedureTrace) -> Seq<char> {
    let ds = deps_view(t.dependencies@);
    let name = name_or(t.name, "UNKNOWN_PROC"@);
    let pid = node_id_spec(name);
    let tail: Seq<Seq<char>> = if ds.len() == 0 && group(ds, GroupKind::External).len() == 0 {
        seq!["    %% No dependencies detected"@]
    } else {
        seq![]
    };
    join(seq!["flowchart LR"@, node_line(pid, name)] + mermaid_fold(ds, pid).0 + tail, "\n"@)
}

fn node_line_exec(id: &Vec<char>, label: &Vec<char>) -> (r: Vec<char>)
    ensures
        r@ == node_line(id@, label@),
{
    let mut l = chars_of("    ");
    append_chars(&mut l, id);
    append_str(&mut l, "[\"");
    let e = escape_label(label);
    append_chars(&mut l, &e);
    append_str(&mut l, "\"]");
    l
}

fn edge_exec(op: Operation, dep_id: &Vec<char>, proc_id: &Vec<char>) -> (r: Option<Vec<char>>)
    ensures
        match r {
            Some(v) => edge_of(op, dep_id@, proc_id@) == Some(v@),
            None => edge_of(op, dep_id@, proc_id@) is None,
        },
{
    match op {
        Operation::Read => {
            let mut l = chars_of("    ");
            append_chars(&mut l, dep_id);
            append_str(&mut l, " --> ");
            append_chars(&mut l, proc_id);
            Some(l)
        },
        Operation::Write => {
            let mut l = chars_of("    ");
            append_chars(&mut l, proc_id);
            append_str(&mut l, " --> ");
            append_chars(&mut l, dep_id);
            Some(l)
        },
        Operation::Execute => {
            let mut l = chars_of("    ");
            append_chars(&mut l, proc_id);
            append_str(&mut l, " -. executes .-> ");
            append_chars(&mut l, dep_id);
            Some(l)
        },
        Operation::Unknown => None,
    }
}

fn mermaid_chars(trace: &ProcedureTrace) -> (r: Vec<char>)
    ensures
        r@ == mermaid_spec(*trace),
{
    let name = name_or_text(&trace.name, "UNKNOWN_PROC");
    let pid = node_id(&name);
    let mut lines: Vec<Vec<char>> = Vec::new();
    push_line_str(&mut lines, "flowchart LR");
    push_line(&mut lines, node_line_exec(&pid, &name));
    let ghost head = views(lines@);
    assert(head =~= seq!["flowchart LR"@, node_line(pid@, name@)]);
    let mut emitted: Vec<Vec<char>> = Vec::new();
    push_line(&mut emitted, pid.clone());
    let ghost dv = deps_view(trace.dependencies@);
    let deps = &trace.dependencies;
    assert(views(emitted@) =~= seq![pid@]);
    assert(dv.take(0) =~= seq![]);
    let mut i: usize = 0;
    while i < deps.len()
        invariant
            i <= deps.len(),
            dv == deps_view(deps@),
            views(lines@) == head + mermaid_fold(dv.take(i as int), pid@).0,
            views(emitted@) == mermaid_fold(dv.take(i as int), pid@).1,
        decreases deps.len() - i,
    {
        assert(dv.take(i + 1).drop_last() =~= dv.take(i as int));
        assert(dv.take(i + 1).last() == dep_view(deps@[i as int]));
        let obj = chars_of(deps[i].object.as_str());
        let id = node_id(&obj);
        if !contains_view(&emitted, &id) {
            push_line(&mut lines, node_line_exec(&id, &obj));
            push_line(&mut emitted, id.clone());
        }
        match edge_exec(deps[i].operation, &id, &pid) {
            Some(e) => push_line(&mut lines, e),
            None => {},
        }
        i += 1;
    }
    assert(dv.take(deps.len() as int) =~= dv);
    let ghost body = views(lines@);
    let ghost tail: Seq<Seq<char>> = if dv.len() == 0 && group(dv, GroupKind::External).len() == 0 {
        seq!["    %% No dependencies detected"@]
    } else {
        seq![]
    };
    if deps.len() == 0 {
        let ext = ordered_unique_objects(deps, GroupKind::External);
        if ext.len() == 0 {
            push_line_str(&mut lines, "    %% No dependencies detected");
        }
    }
    assert(views(lines@) =~= body + tail);
    assert(views(lines@) =~= seq!["flowchart LR"@, node_line(pid@, name@)] + mermaid_fold(dv, pid@).0 + tail);
    let nl = chars_of("\n");
    join_chars(&lines, &nl)
}

/// The Mermaid flowchart of one procedure and its dependencies.
pub fn render_mermaid(trace: &ProcedureTrace) -> (r: String)
    ensures
        r@ == mermaid_spec(*trace),
{
    let m = mermaid_chars(trace);
    string_of(&m)
}


// ---------------------------------------------------------------------------
// Flow, questions, suggested queries
// ---------------------------------------------------------------------------

/// A finding with this rule id was reported.
pub open spec fn has_rule(t: ProcedureTrace, id: Seq<char>) -> bool {
    exists|i: int| 0 <= i < t.risks@.len() && #[trigger] t.risks@[i].rule_id@ == id
}

fn contains_risk(trace: &ProcedureTrace, rule_id: &str) -> (r: bool)
    ensures
        r == has_rule(*trace, rule_id@),
{
    let id = chars_of(rule_id);
    let mut i: usize = 0;
    while i < trace.risks.len()
        invariant
            i <= trace.risks@.len(),
            id@ == rule_id@,
            forall|k: int| 0 <= k < i ==> trace.risks@[k].rule_id@ != id@,
        decreases trace.risks.len() - i,
    {
        let r = chars_of(trace.risks[i].rule_id.as_str());
        if chars_eq(&r, &id) {
            assert(r@ == trace.risks@[i as int].rule_id@);
            assert(id@ == rule_id@);
            assert(trace.risks@[i as int].rule_id@ == rule_id@);
            return true;
        }
        i += 1;
    }
    false
}

pub open spec fn flow_step(n: nat, text: Seq<char>, items: Seq<Seq<char>>) -> Seq<char> {
    decimal(n) + text + join(items, "`, `"@) + "`"@
}

/// The numbered steps of the execution flow: reads, temp tables, writes,
/// calls, each when there is any.
pub open spec fn flow_steps(reads: Seq<Seq<char>>, temps: Seq<Seq<char>>, writes: Seq<Seq<char>>, execs: Seq<Seq<char>>) -> Seq<Seq<char>> {
    let s1: Seq<Seq<char>> = if reads.len() > 0 {
        seq![flow_step(1, ". Reads from `"@, reads)]
    } else {
        seq![]
    };
    let s2 = if temps.len() > 0 {
        s1.push(flow_step(s1.len() + 1, ". Uses temp tables `"@, temps))
    } else {
        s1
    };
    let s3 = if writes.len() > 0 {
        s2.push(flow_step(s2.len() + 1, ". Writes to `"@, writes))
    } else {
        s2
    };
    if execs.len() > 0 {
        s3.push(flow_step(s3.len() + 1, ". Calls `"@, execs))
    } else {
        s3
    }
}

pub open spec fn flow_spec(t: ProcedureTrace) -> Seq<char> {
    let ds = deps_view(t.dependencies@);
    let steps = flow_steps(
        group(ds, GroupKind::Reads),
        sviews(t.temp_tables@),
        group(ds, GroupKind::Writes),
        group(ds, GroupKind::Executes),
    );
    if steps.len() == 0 {
        "1. No explicit flow detected."@
    } else {
        join(steps, "\n"@)
    }
}

fn push_flow_step(steps: &mut Vec<Vec<char>>, text: &str, items: &Vec<Vec<char>>)
    requires
        items@.len() > 0,
        old(steps)@.len() < 4,
    ensures
        views(final(steps)@) == views(old(steps)@).push(flow_step((old(steps)@.len() + 1) as nat, text@, views(items@))),
        final(steps)@.len() == old(steps)@.len() + 1,
{
    let n = steps.len() + 1;
    let mut l = decimal_chars(n);
    append_str(&mut l, text);
    let sep = chars_of("`, `");
    let j = join_chars(items, &sep);
    append_chars(&mut l, &j);
    append_str(&mut l, "`");
    push_line(steps, l);
}

fn render_flow(trace: &ProcedureTrace, groups: &DependencyGroups) -> (r: Vec<char>)
    requires
        groups_of(trace.dependencies@, *groups),
    ensures
        r@ == flow_spec(*trace),
{
    let reads = strings_to_chars(&groups.reads);
    let temps = strings_to_chars(&trace.temp_tables);
    let writes = strings_to_chars(&groups.writes);
    let execs = strings_to_chars(&groups.executes);
    let mut steps: Vec<Vec<char>> = Vec::new();
    if reads.len() > 0 {
        push_flow_step(&mut steps, ". Reads from `", &reads);
    }
    if temps.len() > 0 {
        push_flow_step(&mut steps, ". Uses temp tables `", &temps);
    }
    if writes.len() > 0 {
        push_flow_step(&mut steps, ". Writes to `", &writes);
    }
    if execs.len() > 0 {
        push_flow_step(&mut steps, ". Calls `", &execs);
    }
    assert(views(steps@) =~= flow_steps(views(reads@), views(temps@), views(writes@), views(execs@)));
    if steps.len() == 0 {
        chars_of("1. No explicit flow detected.")
    } else {
        let nl = chars_of("\n");
        join_chars(&steps, &nl)
    }
}

pub open spec fn q_list(b: bool, qs: Seq<Seq<char>>) -> Seq<Seq<char>> {
    if b {
        qs
    } else {
        seq![]
    }
}

/// Questions prompted by the findings, before sorting.
pub open spec fn raw_questions(t: ProcedureTrace) -> Seq<Seq<char>> {
    q_list(has_rule(t, "multi_join_aggregation"@), seq![
        "Is PART_NO unique per ORDER_NO?"@,
        "Should MANIFEST_NO be part of the join key?"@,
        "Should quantity be pre-aggregated before joining master data?"@,
    ]) + q_list(has_rule(t, "update_without_where"@) || has_rule(t, "delete_without_where"@), seq![
        "Is the full-table update/delete intentional?"@,
        "Should a WHERE clause be added to narrow the affected rows?"@,
    ]) + q_list(has_rule(t, "dynamic_sql"@), seq![
        "What runtime object names are injected into the dynamic SQL?"@,
        "Can the dynamic SQL be replaced with a static query?"@,
    ]) + q_list(has_rule(t, "linked_server"@), seq![
        "Is the linked server available and trusted in all environments?"@,
        "Does this external dependency affect freshness or latency?"@,
    ]) + q_list(has_rule(t, "transaction_without_trycatch"@) || has_rule(t, "trycatch_without_rollback"@), seq![
        "Is transaction rollback handled correctly on error?"@,
    ]) + q_list(has_rule(t, "select_star"@), seq![
        "Can the query list explicit columns instead of SELECT *?"@,
    ])
}

/// The questions to verify, sorted, each once; a general question when no
/// finding prompts any.
pub open spec fn questions_spec(t: ProcedureTrace) -> Seq<Seq<char>> {
    let q = raw_questions(t);
    sorted_set(if q.len() == 0 {
        seq!["Does the current dependency graph match the intended business flow?"@]
    } else {
        q
    })
}

fn push_questions(qs: &mut Vec<Vec<char>>, b: bool, items: &[&str])
    ensures
        views(final(qs)@) == views(old(qs)@) + q_list(b, items@.map_values(|s: &str| s@)),
{
    if !b {
        assert(views(qs@) =~= views(qs@) + seq![]);
        return;
    }
    let ghost o = views(qs@);
    let ghost iv = items@.map_values(|s: &str| s@);
    let mut i: usize = 0;
    while i < items.len()
        invariant
            i <= items@.len(),
            iv == items@.map_values(|s: &str| s@),
            views(qs@) == o + iv.take(i as int),
        decreases items.len() - i,
    {
        push_line_str(qs, items[i]);
        assert(iv.take(i + 1) =~= iv.take(i as int).push(items@[i as int]@));
        i += 1;
    }
    assert(iv.take(items@.len() as int) =~= iv);
}

fn raw_question_list(trace: &ProcedureTrace) -> (r: Vec<Vec<char>>)
    ensures
        views(r@) == raw_questions(*trace),
{
    let mut qs: Vec<Vec<char>> = Vec::new();
    let b = contains_risk(trace, "multi_join_aggregation");
    let a1 = ["Is PART_NO unique per ORDER_NO?", "Should MANIFEST_NO be part of the join key?", "Should quantity be pre-aggregated before joining master data?"];
    push_questions(&mut qs, b, &a1);
    let b = contains_risk(trace, "update_without_where") || contains_risk(trace, "delete_without_where");
    let a2 = ["Is the full-table update/delete intentional?", "Should a WHERE clause be added to narrow the affected rows?"];
    push_questions(&mut qs, b, &a2);
    let b = contains_risk(trace, "dynamic_sql");
    let a3 = ["What runtime object names are injected into the dynamic SQL?", "Can the dynamic SQL be replaced with a static query?"];
    push_questions(&mut qs, b, &a3);
    let b = contains_risk(trace, "linked_server");
    let a4 = ["Is the linked server available and trusted in all environments?", "Does this external dependency affect freshness or latency?"];
    push_questions(&mut qs, b, &a4);
    let b = contains_risk(trace, "transaction_without_trycatch") || contains_risk(trace, "trycatch_without_rollback");
    let a5 = ["Is transaction rollback handled correctly on error?"];
    push_questions(&mut qs, b, &a5);
    let b = contains_risk(trace, "select_star");
    let a6 = ["Can the query list explicit columns instead of SELECT *?"];
    push_questions(&mut qs, b, &a6);
    assert(views(qs@) =~= raw_questions(*trace));
    qs
}

/// The questions a reader should verify, sorted, each once.
pub fn render_questions(trace: &ProcedureTrace) -> (r: Vec<String>)
    ensures
        sviews(r@) == questions_spec(*trace),
{
    let mut qs = raw_question_list(trace);
    if qs.len() == 0 {
        push_line_str(&mut qs, "Does the current dependency graph match the intended business flow?");
        assert(views(qs@) =~= seq!["Does the current dependency graph match the intended business flow?"@]);
    }
    let sorted = sort_dedup(&qs);
    chars_to_strings(&sorted)
}

pub open spec fn first_or(items: Seq<Seq<char>>, fallback: Seq<char>) -> Seq<char> {
    if items.len() > 0 {
        items[0]
    } else {
        fallback
    }
}

/// SQL to run next, prompted by the findings.
pub open spec fn queries_spec(t: ProcedureTrace) -> Seq<Seq<char>> {
    let ds = deps_view(t.dependencies@);
    q_list(has_rule(t, "multi_join_aggregation"@), seq![
        "SELECT ORDER_NO, PART_NO, COUNT(*) AS CNT\nFROM "@ + first_or(group(ds, GroupKind::Reads), "<SOURCE_TABLE>"@) + "\nGROUP BY ORDER_NO, PART_NO\nHAVING COUNT(*) > 1;"@,
    ]) + q_list(has_rule(t, "update_without_where"@) || has_rule(t, "delete_without_where"@), seq![
        "SELECT TOP 100 *\nFROM "@ + first_or(group(ds, GroupKind::Writes), "<TARGET_TABLE>"@) + ";"@,
    ]) + q_list(has_rule(t, "dynamic_sql"@), seq![
        "-- Inspect the generated SQL string before execution\n-- PRINT @SQL;"@,
    ])
}

fn first_or_text(items: &Vec<String>, fallback: &str) -> (r: Vec<char>)
    ensures
        r@ == first_or(sviews(items@), fallback@),
{
    if items.len() > 0 {
        chars_of(items[0].as_str())
    } else {
        chars_of(fallback)
    }
}

/// Suggested verification queries.
pub fn render_next_queries(trace: &ProcedureTrace, groups: &DependencyGroups) -> (r: Vec<String>)
    requires
        groups_of(trace.dependencies@, *groups),
    ensures
        sviews(r@) == queries_spec(*trace),
{
    let mut qs: Vec<Vec<char>> = Vec::new();
    if contains_risk(trace, "multi_join_aggregation") {
        let mut q = chars_of("SELECT ORDER_NO, PART_NO, COUNT(*) AS CNT\nFROM ");
        let src = first_or_text(&groups.reads, "<SOURCE_TABLE>");
        append_chars(&mut q, &src);
        append_str(&mut q, "\nGROUP BY ORDER_NO, PART_NO\nHAVING COUNT(*) > 1;");
        push_line(&mut qs, q);
    }
    let ghost q1 = views(qs@);
    if contains_risk(trace, "update_without_where") || contains_risk(trace, "delete_without_where") {
        let mut q = chars_of("SELECT TOP 100 *\nFROM ");
        let tgt = first_or_text(&groups.writes, "<TARGET_TABLE>");
        append_chars(&mut q, &tgt);
        append_str(&mut q, ";");
        push_line(&mut qs, q);
    }
    let ghost q2 = views(qs@);
    if contains_risk(trace, "dynamic_sql") {
        push_line_str(&mut qs, "-- Inspect the generated SQL string before execution\n-- PRINT @SQL;");
    }
    assert(views(qs@) =~= queries_spec(*trace));
    chars_to_strings(&qs)
}


// ---------------------------------------------------------------------------
// Markdown report
// ---------------------------------------------------------------------------

pub open spec fn md_param_row(p: (Seq<char>, Seq<char>, Option<Seq<char>>)) -> Seq<char> {
    "| "@ + p.0 + " | "@ + p.1 + " | "@ + default_or_required(p.2) + " |\n"@
}

pub open spec fn md_risk_block(r: (Seq<char>, Severity, Seq<char>, Seq<char>)) -> Seq<char> {
    "\n### "@ + severity_label(r.1) + ": "@ + r.0 + "\n"@ + r.2 + "\n\n"@ + "Suggestion: "@ + r.3 + "\n"@
}

pub open spec fn sql_block(q: Seq<char>) -> Seq<char> {
    "```sql\n"@ + q + "\n```\n"@
}

pub open spec fn md_queries(qs: Seq<Seq<char>>) -> Seq<char> {
    if qs.len() == 0 {
        "- No specific query suggested.\n"@
    } else {
        concat(qs.map_values(|q: Seq<char>| sql_block(q)))
    }
}

pub open spec fn md_overview(t: ProcedureTrace) -> Seq<char> {
    let name = name_or(t.name, "Unknown"@);
    "# SPTrace Report: "@ + name + "\n\n"@ + "## 1. Overview\n"@ + "- Procedure: "@ + name + "\n"@
        + "- Dialect: T-SQL\n"@ + "- Statements: "@ + decimal(t.metrics.statement_count as nat)
        + "\n"@ + "- Risk Level: "@ + severity_label(t.metrics.risk_level) + "\n\n"@
}

pub open spec fn md_parameters(t: ProcedureTrace) -> Seq<char> {
    let ps = params_view(t.parameters@);
    "## 2. Parameters\n"@ + "| Parameter | Type | Default |\n|---|---|---|\n"@ + (if ps.len() == 0 {
        "| None | - | - |\n"@
    } else {
        concat(ps.map_values(|p: (Seq<char>, Seq<char>, Option<Seq<char>>)| md_param_row(p)))
    }) + "\n"@
}

pub open spec fn md_dependencies(t: ProcedureTrace) -> Seq<char> {
    let ds = deps_view(t.dependencies@);
    "## 3. Dependencies\n\n"@ + "### Tables Read\n"@ + md_list(group(ds, GroupKind::Reads))
        + "\n### Tables Written\n"@ + md_list(group(ds, GroupKind::Writes))
        + "\n### Procedures Executed\n"@ + md_list(group(ds, GroupKind::Executes))
        + "\n### External Dependencies\n"@ + md_list(group(ds, GroupKind::External)) + "\n"@
}

pub open spec fn md_middle(t: ProcedureTrace) -> Seq<char> {
    "## 4. Temp Tables\n"@ + md_list(sviews(t.temp_tables@)) + "\n"@ + "## 5. Dependency Diagram\n\n"@
        + "```mermaid\n"@ + mermaid_spec(t) + "\n```\n\n"@ + "## 6. Execution Flow\n"@ + flow_spec(t)
        + "\n\n"@
}

pub open spec fn md_findings(t: ProcedureTrace) -> Seq<char> {
    let rs = risks_view(t.risks@);
    "## 7. Risk Findings\n"@ + (if rs.len() == 0 {
        "- None detected.\n"@
    } else {
        concat(rs.map_values(|r: (Seq<char>, Severity, Seq<char>, Seq<char>)| md_risk_block(r)))
    }) + "\n"@ + "## 8. Questions to Verify\n"@ + md_list(questions_spec(t)) + "\n"@
        + "## 9. Suggested Next Queries\n"@ + md_queries(queries_spec(t))
}

/// `render_markdown`: the full Markdown report, sections 1 to 9.
pub open spec fn markdown_spec(t: ProcedureTrace) -> Seq<char> {
    md_overview(t) + md_parameters(t) + md_dependencies(t) + md_middle(t) + md_findings(t)
}

fn append_overview(out: &mut Vec<char>, trace: &ProcedureTrace)
    ensures
        final(out)@ == old(out)@ + md_overview(*trace),
{
    let name = name_or_text(&trace.name, "Unknown");
    append_str(out, "# SPTrace Report: ");
    append_chars(out, &name);
    append_str(out, "\n\n");
    append_str(out, "## 1. Overview\n");
    append_str(out, "- Procedure: ");
    append_chars(out, &name);
    append_str(out, "\n");
    append_str(out, "- Dialect: T-SQL\n");
    append_str(out, "- Statements: ");
    let n = decimal_chars(trace.metrics.statement_count);
    append_chars(out, &n);
    append_str(out, "\n");
    append_str(out, "- Risk Level: ");
    let l = severity_text(trace.metrics.risk_level);
    append_chars(out, &l);
    append_str(out, "\n\n");
    assert(out@ =~= old(out)@ + md_overview(*trace));
}

fn append_parameters(out: &mut Vec<char>, trace: &ProcedureTrace)
    ensures
        final(out)@ == old(out)@ + md_parameters(*trace),
{
    let ghost o = out@;
    append_str(out, "## 2. Parameters\n");
    append_str(out, "| Parameter | Type | Default |\n|---|---|---|\n");
    let ghost o1 = out@;
    let ps = &trace.parameters;
    let ghost f = |p: (Seq<char>, Seq<char>, Option<Seq<char>>)| md_param_row(p);
    let ghost pv = params_view(ps@);
    if ps.len() == 0 {
        append_str(out, "| None | - | - |\n");
    } else {
        let mut i: usize = 0;
        while i < ps.len()
            invariant
                i <= ps.len(),
                pv == params_view(ps@),
                f == (|p: (Seq<char>, Seq<char>, Option<Seq<char>>)| md_param_row(p)),
                out@ == o1 + concat(pv.take(i as int).map_values(f)),
            decreases ps.len() - i,
        {
            let p = &ps[i];
            append_str(out, "| ");
            append_str(out, p.name.as_str());
            append_str(out, " | ");
            append_str(out, p.data_type.as_str());
            append_str(out, " | ");
            let d = default_text(&p.default_value);
            append_chars(out, &d);
            append_str(out, " |\n");
            assert(pv.take(i + 1).map_values(f).drop_last() =~= pv.take(i as int).map_values(f));
            assert(pv.take(i + 1).map_values(f).last() == md_param_row(param_view(*p)));
            i += 1;
        }
        assert(pv.take(ps.len() as int) =~= pv);
    }
    append_str(out, "\n");
    assert(out@ =~= o + md_parameters(*trace));
}

fn append_dependencies(out: &mut Vec<char>, trace: &ProcedureTrace, groups: &DependencyGroups)
    requires
        groups_of(trace.dependencies@, *groups),
    ensures
        final(out)@ == old(out)@ + md_dependencies(*trace),
{
    let reads = strings_to_chars(&groups.reads);
    let writes = strings_to_chars(&groups.writes);
    let execs = strings_to_chars(&groups.executes);
    let ext = strings_to_chars(&groups.external);
    append_str(out, "## 3. Dependencies\n\n");
    append_str(out, "### Tables Read\n");
    push_md_list(out, &reads);
    append_str(out, "\n### Tables Written\n");
    push_md_list(out, &writes);
    append_str(out, "\n### Procedures Executed\n");
    push_md_list(out, &execs);
    append_str(out, "\n### External Dependencies\n");
    push_md_list(out, &ext);
    append_str(out, "\n");
    assert(out@ =~= old(out)@ + md_dependencies(*trace));
}

fn append_middle(out: &mut Vec<char>, trace: &ProcedureTrace, groups: &DependencyGroups)
    requires
        groups_of(trace.dependencies@, *groups),
    ensures
        final(out)@ == old(out)@ + md_middle(*trace),
{
    let temps = strings_to_chars(&trace.temp_tables);
    let diagram = mermaid_chars(trace);
    let flow = render_flow(trace, groups);
    append_str(out, "## 4. Temp Tables\n");
    push_md_list(out, &temps);
    append_str(out, "\n");
    append_str(out, "## 5. Dependency Diagram\n\n");
    append_str(out, "```mermaid\n");
    append_chars(out, &diagram);
    append_str(out, "\n```\n\n");
    append_str(out, "## 6. Execution Flow\n");
    append_chars(out, &flow);
    append_str(out, "\n\n");
    assert(out@ =~= old(out)@ + md_middle(*trace));
}

fn append_queries(out: &mut Vec<char>, queries: &Vec<String>)
    ensures
        final(out)@ == old(out)@ + md_queries(sviews(queries@)),
{
    let ghost o = out@;
    if queries.len() == 0 {
        append_str(out, "- No specific query suggested.\n");
        return;
    }
    let ghost f = |q: Seq<char>| sql_block(q);
    let ghost qv = sviews(queries@);
    let mut i: usize = 0;
    while i < queries.len()
        invariant
            i <= queries.len(),
            qv == sviews(queries@),
            f == (|q: Seq<char>| sql_block(q)),
            out@ == o + concat(qv.take(i as int).map_values(f)),
        decreases queries.len() - i,
    {
        append_str(out, "```sql\n");
        append_str(out, queries[i].as_str());
        append_str(out, "\n```\n");
        assert(qv.take(i + 1).map_values(f).drop_last() =~= qv.take(i as int).map_values(f));
        assert(qv.take(i + 1).map_values(f).last() == sql_block(queries@[i as int]@));
        i += 1;
    }
    assert(qv.take(queries.len() as int) =~= qv);
}

fn md_risk_block_exec(r: &RiskFinding) -> (b: Vec<char>)
    ensures
        b@ == md_risk_block(risk_view(*r)),
{
    let mut out = chars_of("\n### ");
    let l = severity_text(r.severity);
    append_chars(&mut out, &l);
    append_str(&mut out, ": ");
    append_str(&mut out, r.rule_id.as_str());
    append_str(&mut out, "\n");
    append_str(&mut out, r.message.as_str());
    append_str(&mut out, "\n\n");
    append_str(&mut out, "Suggestion: ");
    append_str(&mut out, r.suggestion.as_str());
    append_str(&mut out, "\n");
    assert(out@ =~= md_risk_block(risk_view(*r)));
    out
}

fn context_risk_line_exec(r: &RiskFinding) -> (b: Vec<char>)
    ensures
        b@ == context_risk_line(risk_view(*r)),
{
    let mut out = chars_of("- [");
    append_chars(&mut out, &severity_text(r.severity));
    append_str(&mut out, "] ");
    append_str(&mut out, r.rule_id.as_str());
    append_str(&mut out, ": ");
    append_str(&mut out, r.message.as_str());
    append_str(&mut out, "\n");
    assert(out@ =~= context_risk_line(risk_view(*r)));
    out
}

fn append_findings(out: &mut Vec<char>, trace: &ProcedureTrace, groups: &DependencyGroups)
    requires
        groups_of(trace.dependencies@, *groups),
    ensures
        final(out)@ == old(out)@ + md_findings(*trace),
{
    let ghost o = out@;
    append_str(out, "## 7. Risk Findings\n");
    let ghost o1 = out@;
    let rs = &trace.risks;
    let ghost f = |r: (Seq<char>, Severity, Seq<char>, Seq<char>)| md_risk_block(r);
    let ghost rv = risks_view(rs@);
    if rs.len() == 0 {
        append_str(out, "- None detected.\n");
    } else {
        let mut i: usize = 0;
        while i < rs.len()
            invariant
                i <= rs.len(),
                rv == risks_view(rs@),
                f == (|r: (Seq<char>, Severity, Seq<char>, Seq<char>)| md_risk_block(r)),
                out@ == o1 + concat(rv.take(i as int).map_values(f)),
            decreases rs.len() - i,
        {
            let r = &rs[i];
            let block = md_risk_block_exec(r);
            append_chars(out, &block);
            assert(rv.take(i + 1).map_values(f).drop_last() =~= rv.take(i as int).map_values(f));
            assert(rv.take(i + 1).map_values(f).last() == md_risk_block(risk_view(*r)));
            i += 1;
        }
        assert(rv.take(rs.len() as int) =~= rv);
    }
    append_str(out, "\n");
    let ghost o2 = out@;
    let questions = render_questions(trace);
    let qv = strings_to_chars(&questions);
    append_str(out, "## 8. Questions to Verify\n");
    push_md_list(out, &qv);
    append_str(out, "\n");
    let queries = render_next_queries(trace, groups);
    append_str(out, "## 9. Suggested Next Queries\n");
    append_queries(out, &queries);
    assert(out@ =~= o + md_findings(*trace));
}

/// The Markdown report of a trace.
pub fn render_markdown(trace: &ProcedureTrace) -> (r: String)
    ensures
        r@ == markdown_spec(*trace),
{
    let groups = group_dependencies(&trace.dependencies);
    let mut out: Vec<char> = Vec::new();
    append_overview(&mut out, trace);
    append_parameters(&mut out, trace);
    append_dependencies(&mut out, trace, &groups);
    append_middle(&mut out, trace, &groups);
    append_findings(&mut out, trace, &groups);
    assert(out@ =~= markdown_spec(*trace));
    string_of(&out)
}

// ---------------------------------------------------------------------------
// AI context
// ---------------------------------------------------------------------------

pub open spec fn plural(n: nat) -> Seq<char> {
    if n == 1 {
        "table"@
    } else {
        "tables"@
    }
}

pub open spec fn summary_sentence(nr: nat, nw: nat, nt: nat, level: Severity) -> Seq<char> {
    "This procedure reads "@ + decimal(nr) + " "@ + plural(nr) + ", writes "@ + decimal(nw) + " "@
        + plural(nw) + ", uses "@ + decimal(nt) + " temp "@ + plural(nt) + ", and has risk level "@
        + severity_label(level) + ".\n\n"@
}

pub open spec fn context_head(t: ProcedureTrace) -> Seq<char> {
    let ds = deps_view(t.dependencies@);
    "# AI Context for Stored Procedure Analysis\n\n"@ + "## Procedure\n"@ + name_or(t.name, "Unknown"@)
        + "\n\n"@ + "## Summary\n"@ + summary_sentence(
        group(ds, GroupKind::Reads).len(),
        group(ds, GroupKind::Writes).len(),
        t.temp_tables@.len(),
        t.metrics.risk_level,
    )
}

pub open spec fn context_dependencies(t: ProcedureTrace) -> Seq<char> {
    let ds = deps_view(t.dependencies@);
    "## Extracted Dependencies\n"@ + "### Tables Read\n"@ + md_list(group(ds, GroupKind::Reads))
        + "\n### Tables Written\n"@ + md_list(group(ds, GroupKind::Writes))
        + "\n### Procedures Executed\n"@ + md_list(group(ds, GroupKind::Executes))
        + "\n### Temp Tables\n"@ + md_list(sviews(t.temp_tables@)) + "\n"@
}

pub open spec fn context_risk_line(r: (Seq<char>, Severity, Seq<char>, Seq<char>)) -> Seq<char> {
    "- ["@ + severity_label(r.1) + "] "@ + r.0 + ": "@ + r.2 + "\n"@
}

pub open spec fn context_tail(t: ProcedureTrace) -> Seq<char> {
    let rs = risks_view(t.risks@);
    "## Suspicious Logic\n"@ + (if rs.len() == 0 {
        "- None detected.\n"@
    } else {
        concat(rs.map_values(|r: (Seq<char>, Severity, Seq<char>, Seq<char>)| context_risk_line(r)))
    }) + "\n"@ + "## Ask\n"@ + concat(questions_spec(t).map_values(|q: Seq<char>| "- "@ + q + "\n"@))
        + "\n"@ + "## Suggested Verification Queries\n"@ + md_queries(queries_spec(t))
}

/// `render_context`: the context handed to an assistant.
pub open spec fn context_spec(t: ProcedureTrace) -> Seq<char> {
    context_head(t) + context_dependencies(t) + context_tail(t)
}

fn plural_text(n: usize) -> (r: Vec<char>)
    ensures
        r@ == plural(n as nat),
{
    if n == 1 {
        chars_of("table")
    } else {
        chars_of("tables")
    }
}

fn summary_sentence_exec(nr: usize, nw: usize, nt: usize, level: Severity) -> (r: Vec<char>)
    ensures
        r@ == summary_sentence(nr as nat, nw as nat, nt as nat, level),
{
    let mut out = chars_of("This procedure reads ");
    append_chars(&mut out, &decimal_chars(nr));
    append_str(&mut out, " ");
    append_chars(&mut out, &plural_text(nr));
    append_str(&mut out, ", writes ");
    append_chars(&mut out, &decimal_chars(nw));
    append_str(&mut out, " ");
    append_chars(&mut out, &plural_text(nw));
    append_str(&mut out, ", uses ");
    append_chars(&mut out, &decimal_chars(nt));
    append_str(&mut out, " temp ");
    append_chars(&mut out, &plural_text(nt));
    append_str(&mut out, ", and has risk level ");
    append_chars(&mut out, &severity_text(level));
    append_str(&mut out, ".\n\n");
    assert(out@ =~= summary_sentence(nr as nat, nw as nat, nt as nat, level));
    out
}

fn append_context_head(out: &mut Vec<char>, trace: &ProcedureTrace, groups: &DependencyGroups)
    requires
        groups_of(trace.dependencies@, *groups),
    ensures
        final(out)@ == old(out)@ + context_head(*trace),
{
    let ghost ds = deps_view(trace.dependencies@);
    assert(groups.reads@.len() == group(ds, GroupKind::Reads).len());
    assert(groups.writes@.len() == group(ds, GroupKind::Writes).len());
    let sentence = summary_sentence_exec(groups.reads.len(), groups.writes.len(), trace.temp_tables.len(), trace.metrics.risk_level);
    append_str(out, "# AI Context for Stored Procedure Analysis\n\n");
    append_str(out, "## Procedure\n");
    let name = name_or_text(&trace.name, "Unknown");
    append_chars(out, &name);
    append_str(out, "\n\n");
    append_str(out, "## Summary\n");
    append_chars(out, &sentence);
    assert(out@ =~= old(out)@ + context_head(*trace));
}

fn append_context_dependencies(out: &mut Vec<char>, trace: &ProcedureTrace, groups: &DependencyGroups)
    requires
        groups_of(trace.dependencies@, *groups),
    ensures
        final(out)@ == old(out)@ + context_dependencies(*trace),
{
    let reads = strings_to_chars(&groups.reads);
    let writes = strings_to_chars(&groups.writes);
    let execs = strings_to_chars(&groups.executes);
    let temps = strings_to_chars(&trace.temp_tables);
    append_str(out, "## Extracted Dependencies\n");
    append_str(out, "### Tables Read\n");
    push_md_list(out, &reads);
    append_str(out, "\n### Tables Written\n");
    push_md_list(out, &writes);
    append_str(out, "\n### Procedures Executed\n");
    push_md_list(out, &execs);
    append_str(out, "\n### Temp Tables\n");
    push_md_list(out, &temps);
    append_str(out, "\n");
    assert(out@ =~= old(out)@ + context_dependencies(*trace));
}

fn append_context_tail(out: &mut Vec<char>, trace: &ProcedureTrace, groups: &DependencyGroups)
    requires
        groups_of(trace.dependencies@, *groups),
    ensures
        final(out)@ == old(out)@ + context_tail(*trace),
{
    let ghost o = out@;
    append_str(out, "## Suspicious Logic\n");
    let ghost o1 = out@;
    let rs = &trace.risks;
    let ghost f = |r: (Seq<char>, Severity, Seq<char>, Seq<char>)| context_risk_line(r);
    let ghost rv = risks_view(rs@);
    if rs.len() == 0 {
        append_str(out, "- None detected.\n");
    } else {
        let mut i: usize = 0;
        while i < rs.len()
            invariant
                i <= rs.len(),
                rv == risks_view(rs@),
                f == (|r: (Seq<char>, Severity, Seq<char>, Seq<char>)| context_risk_line(r)),
                out@ == o1 + concat(rv.take(i as int).map_values(f)),
            decreases rs.len() - i,
        {
            let r = &rs[i];
            let line = context_risk_line_exec(r);
            append_chars(out, &line);
            assert(rv.take(i + 1).map_values(f).drop_last() =~= rv.take(i as int).map_values(f));
            assert(rv.take(i + 1).map_values(f).last() == context_risk_line(risk_view(*r)));
            i += 1;
        }
        assert(rv.take(rs.len() as int) =~= rv);
    }
    append_str(out, "\n");
    append_str(out, "## Ask\n");
    let ghost o2 = out@;
    let questions = render_questions(trace);
    let ghost g = |q: Seq<char>| "- "@ + q + "\n"@;
    let ghost qv = sviews(questions@);
    let mut k: usize = 0;
    while k < questions.len()
        invariant
            k <= questions.len(),
            qv == sviews(questions@),
            g == (|q: Seq<char>| "- "@ + q + "\n"@),
            out@ == o2 + concat(qv.take(k as int).map_values(g)),
        decreases questions.len() - k,
    {
        append_str(out, "- ");
        append_str(out, questions[k].as_str());
        append_str(out, "\n");
        assert(qv.take(k + 1).map_values(g).drop_last() =~= qv.take(k as int).map_values(g));
        assert(qv.take(k + 1).map_values(g).last() == g(questions@[k as int]@));
        k += 1;
    }
    assert(qv.take(questions.len() as int) =~= qv);
    append_str(out, "\n");
    let queries = render_next_queries(trace, groups);
    append_str(out, "## Suggested Verification Queries\n");
    append_queries(out, &queries);
    assert(out@ =~= o + context_tail(*trace));
}

/// The AI-context report of a trace.
pub fn render_context(trace: &ProcedureTrace) -> (r: String)
    ensures
        r@ == context_spec(*trace),
{
    let groups = group_dependencies(&trace.dependencies);
    let mut out: Vec<char> = Vec::new();
    append_context_head(&mut out, trace, &groups);
    append_context_dependencies(&mut out, trace, &groups);
    append_context_tail(&mut out, trace, &groups);
    assert(out@ =~= context_spec(*trace));
    string_of(&out)
}


// ---------------------------------------------------------------------------
// Folder index
// ---------------------------------------------------------------------------

pub open spec fn rules_cell(rules: Seq<Seq<char>>) -> Seq<char> {
    if rules.len() == 0 {
        "-"@
    } else {
        join(rules, ", "@)
    }
}

pub open spec fn index_row(e: ScanIndexEntry) -> Seq<char> {
    "| "@ + e.source_file@ + " | "@ + e.procedure@ + " | "@ + decimal(e.read_count as nat) + " | "@
        + decimal(e.write_count as nat) + " | "@ + severity_label(e.risk_level) + " | "@ + rules_cell(
        sviews(e.risk_rules@),
    ) + " |\n"@
}

/// `render_dependency_index`: a Markdown table with one row per entry.
pub open spec fn index_spec(es: Seq<ScanIndexEntry>) -> Seq<char> {
    "# SPTrace Dependency Index\n\n"@ + "| File | Procedure | Reads | Writes | Risk Level | Risk Rules |\n"@
        + "|---|---|---:|---:|---|---|\n"@ + (if es.len() == 0 {
        "| None | - | 0 | 0 | Low | - |\n"@
    } else {
        concat(es.map_values(|e: ScanIndexEntry| index_row(e)))
    })
}

fn index_row_exec(e: &ScanIndexEntry) -> (r: Vec<char>)
    ensures
        r@ == index_row(*e),
{
    let rules = if e.risk_rules.len() == 0 {
        chars_of("-")
    } else {
        let rv = strings_to_chars(&e.risk_rules);
        let sep = chars_of(", ");
        join_chars(&rv, &sep)
    };
    let mut out = chars_of("| ");
    append_str(&mut out, e.source_file.as_str());
    append_str(&mut out, " | ");
    append_str(&mut out, e.procedure.as_str());
    append_str(&mut out, " | ");
    append_chars(&mut out, &decimal_chars(e.read_count));
    append_str(&mut out, " | ");
    append_chars(&mut out, &decimal_chars(e.write_count));
    append_str(&mut out, " | ");
    append_chars(&mut out, &severity_text(e.risk_level));
    append_str(&mut out, " | ");
    append_chars(&mut out, &rules);
    append_str(&mut out, " |\n");
    assert(out@ =~= index_row(*e));
    out
}

/// The Markdown index of a folder scan.
pub fn render_dependency_index(entries: &[ScanIndexEntry]) -> (r: String)
    ensures
        r@ == index_spec(entries@),
{
    let mut out = chars_of("# SPTrace Dependency Index\n\n");
    append_str(&mut out, "| File | Procedure | Reads | Writes | Risk Level | Risk Rules |\n");
    append_str(&mut out, "|---|---|---:|---:|---|---|\n");
    let ghost o = out@;
    if entries.len() == 0 {
        append_str(&mut out, "| None | - | 0 | 0 | Low | - |\n");
        assert(out@ =~= index_spec(entries@));
        return string_of(&out);
    }
    let ghost f = |e: ScanIndexEntry| index_row(e);
    let mut i: usize = 0;
    while i < entries.len()
        invariant
            i <= entries@.len(),
            f == (|e: ScanIndexEntry| index_row(e)),
            out@ == o + concat(entries@.take(i as int).map_values(f)),
        decreases entries.len() - i,
    {
        let row = index_row_exec(&entries[i]);
        append_chars(&mut out, &row);
        assert(entries@.take(i + 1).map_values(f).drop_last() =~= entries@.take(i as int).map_values(f));
        assert(entries@.take(i + 1).map_values(f).last() == index_row(entries@[i as int]));
        i += 1;
    }
    assert(entries@.take(entries@.len() as int) =~= entries@);
    assert(out@ =~= index_spec(entries@));
    string_of(&out)
}

// ---------------------------------------------------------------------------
// Diff
// ---------------------------------------------------------------------------

/// Items of `a` that are not items of `b`, in order.
pub open spec fn minus(a: Seq<Seq<char>>, b: Seq<Seq<char>>) -> Seq<Seq<char>>
    decreases a.len(),
{
    if a.len() == 0 {
        seq![]
    } else {
        let p = minus(a.drop_last(), b);
        if b.contains(a.last()) {
            p
        } else {
            p.push(a.last())
        }
    }
}

/// `set_diff`: the items of `a` that are not in `b`, sorted, each once.
pub open spec fn set_diff_spec(a: Seq<Seq<char>>, b: Seq<Seq<char>>) -> Seq<Seq<char>> {
    sorted_set(minus(a, b))
}

/// The items of `a` that are not in `b`, sorted, each once.
pub fn set_diff(a: &Vec<String>, b: &Vec<String>) -> (r: Vec<String>)
    ensures
        sviews(r@) == set_diff_spec(sviews(a@), sviews(b@)),
{
    let av = strings_to_chars(a);
    let bv = strings_to_chars(b);
    let ghost sa = views(av@);
    let mut items: Vec<Vec<char>> = Vec::new();
    let mut i: usize = 0;
    while i < av.len()
        invariant
            i <= av.len(),
            sa == views(av@),
            views(items@) == minus(sa.take(i as int), views(bv@)),
        decreases av.len() - i,
    {
        assert(sa.take(i + 1).drop_last() =~= sa.take(i as int));
        assert(sa.take(i + 1).last() == av@[i as int]@);
        if !contains_view(&bv, &av[i]) {
            push_line(&mut items, av[i].clone());
        }
        i += 1;
    }
    assert(sa.take(av.len() as int) =~= sa);
    let sorted = sort_dedup(&items);
    chars_to_strings(&sorted)
}

pub open spec fn param_entry(p: (Seq<char>, Seq<char>, Option<Seq<char>>)) -> Seq<char> {
    match p.2 {
        Some(d) => p.0 + " "@ + p.1 + " = "@ + d,
        None => p.0 + " "@ + p.1,
    }
}

/// `parameter_set`: each parameter as `name type [= default]`, sorted, once.
pub open spec fn parameter_set_spec(t: ProcedureTrace) -> Seq<Seq<char>> {
    sorted_set(params_view(t.parameters@).map_values(|p: (Seq<char>, Seq<char>, Option<Seq<char>>)| param_entry(p)))
}

pub open spec fn risk_entry(r: (Seq<char>, Severity, Seq<char>, Seq<char>)) -> Seq<char> {
    r.0 + ": "@ + r.2
}

/// `risk_rule_set`: each finding as `rule: message`, sorted, once.
pub open spec fn risk_rule_set_spec(t: ProcedureTrace) -> Seq<Seq<char>> {
    sorted_set(risks_view(t.risks@).map_values(|r: (Seq<char>, Severity, Seq<char>, Seq<char>)| risk_entry(r)))
}

/// The parameters of a trace as comparable entries.
pub fn parameter_set(trace: &ProcedureTrace) -> (r: Vec<String>)
    ensures
        sviews(r@) == parameter_set_spec(*trace),
{
    let ps = &trace.parameters;
    let ghost f = |p: (Seq<char>, Seq<char>, Option<Seq<char>>)| param_entry(p);
    let ghost pv = params_view(ps@);
    let mut items: Vec<Vec<char>> = Vec::new();
    let mut i: usize = 0;
    while i < ps.len()
        invariant
            i <= ps.len(),
            pv == params_view(ps@),
            f == (|p: (Seq<char>, Seq<char>, Option<Seq<char>>)| param_entry(p)),
            views(items@) == pv.take(i as int).map_values(f),
        decreases ps.len() - i,
    {
        let p = &ps[i];
        let mut e = chars_of(p.name.as_str());
        append_str(&mut e, " ");
        append_str(&mut e, p.data_type.as_str());
        match &p.default_value {
            Some(d) => {
                append_str(&mut e, " = ");
                append_str(&mut e, d.as_str());
            },
            None => {},
        }
        assert(e@ == param_entry(param_view(*p)));
        push_line(&mut items, e);
        assert(pv.take(i + 1).map_values(f) =~= pv.take(i as int).map_values(f).push(f(param_view(ps@[i as int]))));
        i += 1;
    }
    assert(pv.take(ps.len() as int) =~= pv);
    let sorted = sort_dedup(&items);
    chars_to_strings(&sorted)
}

/// The findings of a trace as comparable entries.
pub fn risk_rule_set(trace: &ProcedureTrace) -> (r: Vec<String>)
    ensures
        sviews(r@) == risk_rule_set_spec(*trace),
{
    let rs = &trace.risks;
    let ghost f = |r: (Seq<char>, Severity, Seq<char>, Seq<char>)| risk_entry(r);
    let ghost rv = risks_view(rs@);
    let mut items: Vec<Vec<char>> = Vec::new();
    let mut i: usize = 0;
    while i < rs.len()
        invariant
            i <= rs.len(),
            rv == risks_view(rs@),
            f == (|r: (Seq<char>, Severity, Seq<char>, Seq<char>)| risk_entry(r)),
            views(items@) == rv.take(i as int).map_values(f),
        decreases rs.len() - i,
    {
        let mut e = chars_of(rs[i].rule_id.as_str());
        append_str(&mut e, ": ");
        append_str(&mut e, rs[i].message.as_str());
        push_line(&mut items, e);
        assert(rv.take(i + 1).map_values(f) =~= rv.take(i as int).map_values(f).push(f(risk_view(rs@[i as int]))));
        i += 1;
    }
    assert(rv.take(rs.len() as int) =~= rv);
    let sorted = sort_dedup(&items);
    chars_to_strings(&sorted)
}

pub open spec fn section(title: Seq<char>, items: Seq<Seq<char>>) -> Seq<char> {
    "### "@ + title + "\n"@ + md_list(items)
}

fn write_string_section(out: &mut Vec<char>, title: &str, items: &Vec<String>)
    ensures
        final(out)@ == old(out)@ + section(title@, sviews(items@)),
{
    append_str(out, "### ");
    append_str(out, title);
    append_str(out, "\n");
    let iv = strings_to_chars(items);
    push_md_list(out, &iv);
    assert(out@ =~= old(out)@ + section(title@, sviews(items@)));
}

pub open spec fn diff_overview(b: ProcedureTrace, a: ProcedureTrace, bl: Seq<char>, al: Seq<char>) -> Seq<char> {
    "# SPTrace Diff Report\n\n"@ + "## Overview\n"@ + "- Before: "@ + bl + "\n"@ + "- After: "@ + al
        + "\n"@ + "- Before Procedure: "@ + name_or(b.name, "Unknown"@) + "\n"@
        + "- After Procedure: "@ + name_or(a.name, "Unknown"@) + "\n"@ + "- Before Risk Level: "@
        + severity_label(b.metrics.risk_level) + "\n"@ + "- After Risk Level: "@ + severity_label(
        a.metrics.risk_level,
    ) + "\n\n"@
}

pub open spec fn diff_parameters(b: ProcedureTrace, a: ProcedureTrace) -> Seq<char> {
    let bp = parameter_set_spec(b);
    let ap = parameter_set_spec(a);
    "## Parameter Changes\n"@ + section("Added"@, set_diff_spec(ap, bp)) + section(
        "Removed"@,
        set_diff_spec(bp, ap),
    ) + "\n"@
}

/// The dependency sections; "New" lists what the before side has and the
/// after side lacks, "Removed" the reverse.
pub open spec fn diff_dependencies(b: ProcedureTrace, a: ProcedureTrace) -> Seq<char> {
    let bd = deps_view(b.dependencies@);
    let ad = deps_view(a.dependencies@);
    let br = group(bd, GroupKind::Reads);
    let ar = group(ad, GroupKind::Reads);
    let bw = group(bd, GroupKind::Writes);
    let aw = group(ad, GroupKind::Writes);
    let be = group(bd, GroupKind::Executes);
    let ae = group(ad, GroupKind::Executes);
    "## Dependency Changes\n"@ + section("New Tables Read"@, set_diff_spec(br, ar)) + section(
        "Removed Tables Read"@,
        set_diff_spec(ar, br),
    ) + section("New Tables Written"@, set_diff_spec(bw, aw)) + section(
        "Removed Tables Written"@,
        set_diff_spec(aw, bw),
    ) + section("New Procedures Executed"@, set_diff_spec(be, ae)) + section(
        "Removed Procedures Executed"@,
        set_diff_spec(ae, be),
    ) + "\n"@
}

pub open spec fn diff_temps_and_risks(b: ProcedureTrace, a: ProcedureTrace) -> Seq<char> {
    let bt = sviews(b.temp_tables@);
    let at = sviews(a.temp_tables@);
    let brs = risk_rule_set_spec(b);
    let ars = risk_rule_set_spec(a);
    "## Temp Table Changes\n"@ + section("New Temp Tables"@, set_diff_spec(bt, at)) + section(
        "Removed Temp Tables"@,
        set_diff_spec(at, bt),
    ) + "\n"@ + "## Risk Changes\n"@ + section("Added Risks"@, set_diff_spec(ars, brs)) + section(
        "Removed Risks"@,
        set_diff_spec(brs, ars),
    ) + "- Before Count: "@ + decimal(b.risks@.len()) + "\n- After Count: "@ + decimal(a.risks@.len())
        + "\n\n"@
}

/// `render_diff`: the changes between two traces.
pub open spec fn diff_spec(b: ProcedureTrace, a: ProcedureTrace, bl: Seq<char>, al: Seq<char>) -> Seq<char> {
    diff_overview(b, a, bl, al) + diff_parameters(b, a) + diff_dependencies(b, a) + diff_temps_and_risks(b, a)
}

#[verifier::rlimit(40)]
fn append_diff_overview(out: &mut Vec<char>, before: &ProcedureTrace, after: &ProcedureTrace, before_label: &str, after_label: &str)
    ensures
        final(out)@ == old(out)@ + diff_overview(*before, *after, before_label@, after_label@),
{
    append_str(out, "# SPTrace Diff Report\n\n");
    append_str(out, "## Overview\n");
    append_str(out, "- Before: ");
    append_str(out, before_label);
    append_str(out, "\n");
    append_str(out, "- After: ");
    append_str(out, after_label);
    append_str(out, "\n");
    append_str(out, "- Before Procedure: ");
    append_chars(out, &name_or_text(&before.name, "Unknown"));
    append_str(out, "\n");
    append_str(out, "- After Procedure: ");
    append_chars(out, &name_or_text(&after.name, "Unknown"));
    append_str(out, "\n");
    append_str(out, "- Before Risk Level: ");
    append_chars(out, &severity_text(before.metrics.risk_level));
    append_str(out, "\n");
    append_str(out, "- After Risk Level: ");
    append_chars(out, &severity_text(after.metrics.risk_level));
    append_str(out, "\n\n");
    assert(out@ =~= old(out)@ + diff_overview(*before, *after, before_label@, after_label@));
}

fn append_diff_parameters(out: &mut Vec<char>, before: &ProcedureTrace, after: &ProcedureTrace)
    ensures
        final(out)@ == old(out)@ + diff_parameters(*before, *after),
{
    let bp = parameter_set(before);
    let ap = parameter_set(after);
    append_str(out, "## Parameter Changes\n");
    write_string_section(out, "Added", &set_diff(&ap, &bp));
    write_string_section(out, "Removed", &set_diff(&bp, &ap));
    append_str(out, "\n");
    assert(out@ =~= old(out)@ + diff_parameters(*before, *after));
}

fn append_diff_dependencies(out: &mut Vec<char>, before: &ProcedureTrace, after: &ProcedureTrace)
    ensures
        final(out)@ == old(out)@ + diff_dependencies(*before, *after),
{
    let bg = group_dependencies(&before.dependencies);
    let ag = group_dependencies(&after.dependencies);
    append_str(out, "## Dependency Changes\n");
    write_string_section(out, "New Tables Read", &set_diff(&bg.reads, &ag.reads));
    write_string_section(out, "Removed Tables Read", &set_diff(&ag.reads, &bg.reads));
    write_string_section(out, "New Tables Written", &set_diff(&bg.writes, &ag.writes));
    write_string_section(out, "Removed Tables Written", &set_diff(&ag.writes, &bg.writes));
    write_string_section(out, "New Procedures Executed", &set_diff(&bg.executes, &ag.executes));
    write_string_section(out, "Removed Procedures Executed", &set_diff(&ag.executes, &bg.executes));
    append_str(out, "\n");
    assert(out@ =~= old(out)@ + diff_dependencies(*before, *after));
}

fn append_diff_temps_and_risks(out: &mut Vec<char>, before: &ProcedureTrace, after: &ProcedureTrace)
    ensures
        final(out)@ == old(out)@ + diff_temps_and_risks(*before, *after),
{
    append_str(out, "## Temp Table Changes\n");
    write_string_section(out, "New Temp Tables", &set_diff(&before.temp_tables, &after.temp_tables));
    write_string_section(out, "Removed Temp Tables", &set_diff(&after.temp_tables, &before.temp_tables));
    append_str(out, "\n");
    append_str(out, "## Risk Changes\n");
    let brs = risk_rule_set(before);
    let ars = risk_rule_set(after);
    write_string_section(out, "Added Risks", &set_diff(&ars, &brs));
    write_string_section(out, "Removed Risks", &set_diff(&brs, &ars));
    append_str(out, "- Before Count: ");
    append_chars(out, &decimal_chars(before.risks.len()));
    append_str(out, "\n- After Count: ");
    append_chars(out, &decimal_chars(after.risks.len()));
    append_str(out, "\n\n");
    assert(out@ =~= old(out)@ + diff_temps_and_risks(*before, *after));
}

/// The Markdown diff of two traces.
pub fn render_diff(before: &ProcedureTrace, after: &ProcedureTrace, before_label: &str, after_label: &str) -> (r: String)
    ensures
        r@ == diff_spec(*before, *after, before_label@, after_label@),
{
    let mut out: Vec<char> = Vec::new();
    append_diff_overview(&mut out, before, after, before_label, after_label);
    append_diff_parameters(&mut out, before, after);
    append_diff_dependencies(&mut out, before, after);
    append_diff_temps_and_risks(&mut out, before, after);
    assert(out@ =~= diff_spec(*before, *after, before_label@, after_label@));
    string_of(&out)
}


// ---------------------------------------------------------------------------
// Folder diagram
// ---------------------------------------------------------------------------

/// Diagram state: lines, emitted node ids, emitted edges.
pub type FolderState = (Seq<Seq<char>>, Seq<Seq<char>>, Seq<Seq<char>>);

pub open spec fn emit_node(st: FolderState, id: Seq<char>, label: Seq<char>) -> FolderState {
    if st.1.contains(id) {
        st
    } else {
        (st.0.push(node_line(id, label)), st.1.push(id), st.2)
    }
}

pub open spec fn emit_edge(st: FolderState, e: Option<Seq<char>>) -> FolderState {
    match e {
        None => st,
        Some(l) => if st.2.contains(l) {
            st
        } else {
            (st.0.push(l), st.1, st.2.push(l))
        },
    }
}

/// The state after one procedure's dependencies: each object's node once,
/// each distinct edge once.
pub open spec fn folder_deps(st: FolderState, pid: Seq<char>, ds: Seq<DepV>) -> FolderState
    decreases ds.len(),
{
    if ds.len() == 0 {
        st
    } else {
        let s0 = folder_deps(st, pid, ds.drop_last());
        let d = ds.last();
        let id = node_id_spec(d.0);
        emit_edge(emit_node(s0, id, d.0), edge_of(d.1, id, pid))
    }
}

pub open spec fn folder_trace(st: FolderState, t: ProcedureTrace) -> FolderState {
    let name = name_or(t.name, "UNKNOWN_PROC"@);
    let pid = node_id_spec(name);
    folder_deps(emit_node(st, pid, name), pid, deps_view(t.dependencies@))
}

pub open spec fn folder_fold(ts: Seq<ProcedureTrace>) -> FolderState
    decreases ts.len(),
{
    if ts.len() == 0 {
        (seq!["flowchart LR"@], seq![], seq![])
    } else {
        folder_trace(folder_fold(ts.drop_last()), ts.last())
    }
}

/// `render_folder_mermaid`: one flowchart for all procedures of a folder.
pub open spec fn folder_mermaid_spec(ts: Seq<ProcedureTrace>) -> Seq<char> {
    let ls = folder_fold(ts).0;
    join(if ls.len() == 1 {
        ls.push("    %% No dependencies detected"@)
    } else {
        ls
    }, "\n"@)
}

struct FolderLines {
    lines: Vec<Vec<char>>,
    nodes: Vec<Vec<char>>,
    edges: Vec<Vec<char>>,
}

spec fn folder_view(f: FolderLines) -> FolderState {
    (views(f.lines@), views(f.nodes@), views(f.edges@))
}

fn emit_node_exec(f: &mut FolderLines, id: &Vec<char>, label: &Vec<char>)
    ensures
        folder_view(*final(f)) == emit_node(folder_view(*old(f)), id@, label@),
{
    if !contains_view(&f.nodes, id) {
        push_line(&mut f.lines, node_line_exec(id, label));
        push_line(&mut f.nodes, id.clone());
    }
}

fn emit_edge_exec(f: &mut FolderLines, e: Option<Vec<char>>)
    ensures
        folder_view(*final(f)) == emit_edge(folder_view(*old(f)), match e { Some(v) => Some(v@), None => None }),
{
    match e {
        None => {},
        Some(l) => {
            if !contains_view(&f.edges, &l) {
                push_line(&mut f.lines, l.clone());
                push_line(&mut f.edges, l);
            }
        },
    }
}

fn folder_trace_exec(f: &mut FolderLines, trace: &ProcedureTrace)
    ensures
        folder_view(*final(f)) == folder_trace(folder_view(*old(f)), *trace),
{
    let name = name_or_text(&trace.name, "UNKNOWN_PROC");
    let pid = node_id(&name);
    emit_node_exec(f, &pid, &name);
    let ghost st0 = folder_view(*f);
    let deps = &trace.dependencies;
    let ghost dv = deps_view(deps@);
    assert(dv.take(0) =~= seq![]);
    let mut i: usize = 0;
    while i < deps.len()
        invariant
            i <= deps.len(),
            dv == deps_view(deps@),
            folder_view(*f) == folder_deps(st0, pid@, dv.take(i as int)),
        decreases deps.len() - i,
    {
        assert(dv.take(i + 1).drop_last() =~= dv.take(i as int));
        assert(dv.take(i + 1).last() == dep_view(deps@[i as int]));
        let obj = chars_of(deps[i].object.as_str());
        let id = node_id(&obj);
        emit_node_exec(f, &id, &obj);
        let e = edge_exec(deps[i].operation, &id, &pid);
        emit_edge_exec(f, e);
        i += 1;
    }
    assert(dv.take(deps.len() as int) =~= dv);
}

/// One flowchart for the procedures of a folder.
pub fn render_folder_mermaid(traces: &[ProcedureTrace]) -> (r: String)
    ensures
        r@ == folder_mermaid_spec(traces@),
{
    let mut f = FolderLines { lines: Vec::new(), nodes: Vec::new(), edges: Vec::new() };
    push_line_str(&mut f.lines, "flowchart LR");
    assert(folder_view(f) =~= (seq!["flowchart LR"@], seq![], seq![]));
    let mut i: usize = 0;
    while i < traces.len()
        invariant
            i <= traces@.len(),
            folder_view(f) == folder_fold(traces@.take(i as int)),
        decreases traces.len() - i,
    {
        assert(traces@.take(i + 1).drop_last() =~= traces@.take(i as int));
        assert(traces@.take(i + 1).last() == traces@[i as int]);
        folder_trace_exec(&mut f, &traces[i]);
        i += 1;
    }
    assert(traces@.take(traces@.len() as int) =~= traces@);
    if f.lines.len() == 1 {
        push_line_str(&mut f.lines, "    %% No dependencies detected");
    }
    let nl = chars_of("\n");
    let j = join_chars(&f.lines, &nl);
    string_of(&j)
}

} // verus!
