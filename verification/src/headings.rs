//! The Markdown report read line by line: its `## ` lines are the nine
//! section headings, in order.
use vstd::prelude::*;
use crate::parser::DepV;
use crate::model::{deps_view, params_view, risks_view, ProcedureTrace, Severity, severity_label};
use crate::normalizer::{drop_cr, lines, lines_from};
use crate::laws::{markdown_bodies, markdown_headings, law_markdown_layout};
use crate::laws::{lemma_trim_end_in, mermaid_block};
use crate::model::Operation;
use crate::report::{
    concat, default_or_required, edge_of, escape_label_spec, flow_spec, flow_step, flow_steps,
    group, id_char, markdown_spec, md_list, md_param_row, md_risk_block, mermaid_fold,
    mermaid_spec, name_or, node_id_spec, node_line, GroupKind, md_queries, queries_spec,
    questions_spec, raw_questions, q_list, sql_block, first_or, has_rule,
};
use crate::text::{decimal, digit_char, join, lemma_sorted_set, sorted_set, sviews, trim_end_in};

verus! {

/// The text holds no line break.
pub open spec fn plain(s: Seq<char>) -> bool {
    forall|i: int| 0 <= i < s.len() ==> s[i] != '\n'
}

/// A line that starts with `## `.
pub open spec fn is_heading_line(l: Seq<char>) -> bool {
    l.len() >= 3 && l[0] == '#' && l[1] == '#' && l[2] == ' '
}

pub open spec fn heading_pred() -> spec_fn(Seq<char>) -> bool {
    |l: Seq<char>| is_heading_line(l)
}

/// The lines of a text, as `str::lines` gives them, that start with `## `.
pub open spec fn heading_lines(s: Seq<char>) -> Seq<Seq<char>> {
    lines(s).filter(heading_pred())
}

/// Empty, or ends with a line break.
pub open spec fn ends_line(s: Seq<char>) -> bool {
    s.len() == 0 || s.last() == '\n'
}

/// Whole lines, none of them a `## ` line.
pub open spec fn quiet(s: Seq<char>) -> bool {
    ends_line(s) && heading_lines(s) == Seq::<Seq<char>>::empty()
}

proof fn lemma_lines_shift(a: Seq<char>, b: Seq<char>, j: int, cur: Seq<char>)
    requires
        0 <= j <= b.len(),
    ensures
        lines_from(a + b, a.len() + j, cur) == lines_from(b, j, cur),
    decreases b.len() - j,
{
    if j < b.len() {
        assert((a + b)[a.len() + j] == b[j]);
        if b[j] == '\n' {
            lemma_lines_shift(a, b, j + 1, seq![]);
        } else {
            lemma_lines_shift(a, b, j + 1, cur.push(b[j]));
        }
    }
}

proof fn lemma_lines_prefix(a: Seq<char>, b: Seq<char>, i: int, cur: Seq<char>)
    requires
        ends_line(a),
        0 <= i <= a.len(),
        i == a.len() ==> cur.len() == 0,
    ensures
        lines_from(a + b, i, cur) == lines_from(a, i, cur) + lines(b),
    decreases a.len() - i,
{
    if i == a.len() {
        lemma_lines_shift(a, b, 0, cur);
        assert(cur =~= Seq::<char>::empty());
        assert(lines_from(a, i, cur) + lines(b) =~= lines(b));
    } else {
        assert((a + b)[i] == a[i]);
        if a[i] == '\n' {
            lemma_lines_prefix(a, b, i + 1, seq![]);
            assert(seq![drop_cr(cur)] + (lines_from(a, i + 1, seq![]) + lines(b)) =~= (seq![
                drop_cr(cur),
            ] + lines_from(a, i + 1, seq![])) + lines(b));
        } else {
            lemma_lines_prefix(a, b, i + 1, cur.push(a[i]));
        }
    }
}

/// After a line break, the lines of a text continue with the lines of what
/// follows.
proof fn lemma_heading_lines_concat(a: Seq<char>, b: Seq<char>)
    requires
        ends_line(a),
    ensures
        heading_lines(a + b) == heading_lines(a) + heading_lines(b),
        ends_line(b) ==> ends_line(a + b),
{
    lemma_lines_prefix(a, b, 0, seq![]);
    Seq::filter_distributes_over_add(lines(a), lines(b), heading_pred());
    if b.len() == 0 {
        assert(a + b =~= a);
    } else {
        assert((a + b).last() == b.last());
    }
}

proof fn lemma_quiet_concat(a: Seq<char>, b: Seq<char>)
    requires
        quiet(a),
        quiet(b),
    ensures
        quiet(a + b),
{
    lemma_heading_lines_concat(a, b);
    assert(Seq::<Seq<char>>::empty() + Seq::<Seq<char>>::empty() =~= Seq::<Seq<char>>::empty());
}

proof fn lemma_lines_single(x: Seq<char>, i: int)
    requires
        plain(x),
        0 <= i <= x.len(),
    ensures
        lines_from(x.push('\n'), i, x.subrange(0, i)) == seq![drop_cr(x)],
    decreases x.len() - i,
{
    let s = x.push('\n');
    if i == x.len() {
        assert(x.subrange(0, i) =~= x);
        assert(seq![drop_cr(x)] + lines_from(s, i + 1, seq![]) =~= seq![drop_cr(x)]);
    } else {
        assert(s[i] == x[i]);
        assert(x.subrange(0, i).push(x[i]) =~= x.subrange(0, i + 1));
        lemma_lines_single(x, i + 1);
    }
}

/// One line: its heading lines are itself when it reads as a heading.
proof fn lemma_one_line(x: Seq<char>)
    requires
        plain(x),
        x.len() == 0 || x.last() != '\r',
    ensures
        heading_lines(x + "\n"@) == (if is_heading_line(x) {
            seq![x]
        } else {
            Seq::<Seq<char>>::empty()
        }),
        ends_line(x + "\n"@),
{
    reveal_strlit("\n");
    assert(x + "\n"@ =~= x.push('\n'));
    lemma_lines_single(x, 0);
    assert(x.subrange(0, 0) =~= Seq::<char>::empty());
    assert(drop_cr(x) == x);
    reveal_with_fuel(Seq::filter, 2);
    assert(seq![x].drop_last() =~= Seq::<Seq<char>>::empty());
}

/// A line that does not read as a heading.
proof fn lemma_quiet_line(x: Seq<char>)
    requires
        plain(x),
        !is_heading_line(x),
    ensures
        quiet(x + "\n"@),
{
    reveal_strlit("\n");
    assert(x + "\n"@ =~= x.push('\n'));
    lemma_lines_single(x, 0);
    assert(x.subrange(0, 0) =~= Seq::<char>::empty());
    let d = drop_cr(x);
    if d.len() >= 3 {
        assert(d[0] == x[0] && d[1] == x[1] && d[2] == x[2]);
    }
    reveal_with_fuel(Seq::filter, 2);
    assert(seq![d].drop_last() =~= Seq::<Seq<char>>::empty());
}

proof fn lemma_plain_concat(a: Seq<char>, b: Seq<char>)
    requires
        plain(a),
        plain(b),
    ensures
        plain(a + b),
{
    assert forall|i: int| 0 <= i < (a + b).len() implies (a + b)[i] != '\n' by {
        if i < a.len() {
            assert((a + b)[i] == a[i]);
        } else {
            assert((a + b)[i] == b[i - a.len()]);
        }
    }
}

/// A line made of a fixed lead and a one-line text.
proof fn lemma_quiet_led(p: Seq<char>, u: Seq<char>)
    requires
        plain(p),
        plain(u),
        (p.len() >= 1 && p[0] != '#') || (p.len() >= 3 && p[2] != ' '),
    ensures
        quiet(p + u + "\n"@),
{
    lemma_plain_concat(p, u);
    let x = p + u;
    assert(x[0] == p[0]);
    if p.len() >= 3 {
        assert(x[2] == p[2]);
    }
    lemma_quiet_line(x);
}

proof fn lemma_quiet_empty()
    ensures
        quiet(Seq::<char>::empty()),
{
    reveal_with_fuel(Seq::filter, 1);
    assert(lines(Seq::<char>::empty()) =~= Seq::<Seq<char>>::empty());
}

proof fn lemma_quiet_newline()
    ensures
        quiet("\n"@),
{
    lemma_quiet_line(Seq::<char>::empty());
    assert(Seq::<char>::empty() + "\n"@ =~= "\n"@);
}

/// Whole quiet parts make a quiet text.
proof fn lemma_quiet_concat_all(parts: Seq<Seq<char>>)
    requires
        forall|k: int| 0 <= k < parts.len() ==> quiet(#[trigger] parts[k]),
    ensures
        quiet(concat(parts)),
    decreases parts.len(),
{
    if parts.len() == 0 {
        lemma_quiet_empty();
    } else {
        let init = parts.drop_last();
        assert forall|k: int| 0 <= k < init.len() implies quiet(#[trigger] init[k]) by {
            assert(init[k] == parts[k]);
        }
        lemma_quiet_concat_all(init);
        assert(quiet(parts[parts.len() - 1]));
        lemma_quiet_concat(concat(init), parts.last());
    }
}

/// A Markdown list of one-line items.
proof fn lemma_quiet_md_list(items: Seq<Seq<char>>)
    requires
        forall|k: int| 0 <= k < items.len() ==> plain(#[trigger] items[k]),
    ensures
        quiet(md_list(items)),
{
    reveal_strlit("- None\n");
    reveal_strlit("- None");
    reveal_strlit("- ");
    reveal_strlit("\n");
    if items.len() == 0 {
        assert("- None\n"@ =~= "- None"@ + Seq::<char>::empty() + "\n"@);
        lemma_quiet_led("- None"@, Seq::<char>::empty());
    } else {
        let f = |x: Seq<char>| "- "@ + x + "\n"@;
        let parts = items.map_values(f);
        assert forall|k: int| 0 <= k < parts.len() implies quiet(#[trigger] parts[k]) by {
            lemma_quiet_led("- "@, items[k]);
        }
        lemma_quiet_concat_all(parts);
    }
}

/// Lines joined by line breaks, closed by one more.
proof fn lemma_quiet_joined(ls: Seq<Seq<char>>)
    requires
        ls.len() > 0,
        forall|k: int| 0 <= k < ls.len() ==> plain(#[trigger] ls[k]) && !is_heading_line(ls[k]),
    ensures
        quiet(join(ls, "\n"@) + "\n"@),
    decreases ls.len(),
{
    if ls.len() == 1 {
        lemma_quiet_line(ls[0]);
    } else {
        let init = ls.drop_last();
        assert forall|k: int| 0 <= k < init.len() implies plain(#[trigger] init[k]) && !is_heading_line(init[k]) by {
            assert(init[k] == ls[k]);
        }
        lemma_quiet_joined(init);
        assert(plain(ls[ls.len() - 1]));
        lemma_quiet_line(ls.last());
        assert(join(ls, "\n"@) + "\n"@ =~= (join(init, "\n"@) + "\n"@) + (ls.last() + "\n"@));
        lemma_quiet_concat(join(init, "\n"@) + "\n"@, ls.last() + "\n"@);
    }
}

proof fn lemma_plain_join(ls: Seq<Seq<char>>, sep: Seq<char>)
    requires
        plain(sep),
        forall|k: int| 0 <= k < ls.len() ==> plain(#[trigger] ls[k]),
    ensures
        plain(join(ls, sep)),
    decreases ls.len(),
{
    if ls.len() == 1 {
        assert(plain(ls[0]));
    } else if ls.len() > 1 {
        let init = ls.drop_last();
        assert forall|k: int| 0 <= k < init.len() implies plain(#[trigger] init[k]) by {
            assert(init[k] == ls[k]);
        }
        lemma_plain_join(init, sep);
        assert(plain(ls[ls.len() - 1]));
        lemma_plain_concat(join(init, sep), sep);
        lemma_plain_concat(join(init, sep) + sep, ls.last());
    }
}

/// Decimal digits: neither a line break nor `#`.
proof fn lemma_decimal_digits(n: nat)
    ensures
        plain(decimal(n)),
        decimal(n).len() > 0,
        decimal(n)[0] != '#',
    decreases n,
{
    if n < 10 {
        assert(digit_char(n) != '\n' && digit_char(n) != '#');
    } else {
        lemma_decimal_digits(n / 10);
        let d = digit_char(n % 10);
        assert(d != '\n');
        lemma_plain_concat(decimal(n / 10), seq![d]);
        assert(decimal(n / 10).push(d) =~= decimal(n / 10) + seq![d]);
    }
}

proof fn lemma_severity_plain(s: Severity)
    ensures
        plain(severity_label(s)),
{
    reveal_strlit("Low");
    reveal_strlit("Medium");
    reveal_strlit("High");
}

/// Every text of the trace that the report prints on a line of its own is one
/// line, and no risk message reads as a `## ` line.
pub open spec fn single_line_trace(t: ProcedureTrace) -> bool {
    let ps = params_view(t.parameters@);
    let ds = deps_view(t.dependencies@);
    let rs = risks_view(t.risks@);
    &&& (t.name matches Some(n) ==> plain(n@))
    &&& forall|k: int|
        0 <= k < ps.len() ==> plain((#[trigger] ps[k]).0) && plain(ps[k].1) && (ps[k].2 matches Some(
            d,
        ) ==> plain(d))
    &&& forall|k: int| 0 <= k < ds.len() ==> plain((#[trigger] ds[k]).0)
    &&& forall|k: int| 0 <= k < t.temp_tables@.len() ==> plain((#[trigger] t.temp_tables@[k])@)
    &&& forall|k: int|
        0 <= k < rs.len() ==> plain((#[trigger] rs[k]).0) && plain(rs[k].2) && plain(rs[k].3)
            && !is_heading_line(rs[k].2)
}

/// The section headings of the Markdown report, as lines.
pub open spec fn report_heading_titles() -> Seq<Seq<char>> {
    seq![
        "## 1. Overview"@,
        "## 2. Parameters"@,
        "## 3. Dependencies"@,
        "## 4. Temp Tables"@,
        "## 5. Dependency Diagram"@,
        "## 6. Execution Flow"@,
        "## 7. Risk Findings"@,
        "## 8. Questions to Verify"@,
        "## 9. Suggested Next Queries"@,
    ]
}

proof fn lemma_name_plain(t: ProcedureTrace, fallback: Seq<char>)
    requires
        single_line_trace(t),
        plain(fallback),
    ensures
        plain(name_or(t.name, fallback)),
{
}

proof fn lemma_group_plain(ds: Seq<DepV>, k: GroupKind)
    requires
        forall|j: int| 0 <= j < ds.len() ==> plain((#[trigger] ds[j]).0),
    ensures
        forall|j: int| 0 <= j < group(ds, k).len() ==> plain(#[trigger] group(ds, k)[j]),
    decreases ds.len(),
{
    if ds.len() > 0 {
        let init = ds.drop_last();
        assert forall|j: int| 0 <= j < init.len() implies plain((#[trigger] init[j]).0) by {
            assert(init[j] == ds[j]);
        }
        lemma_group_plain(init, k);
        assert(plain(ds[ds.len() - 1].0));
        let p = group(init, k);
        let g = group(ds, k);
        assert forall|j: int| 0 <= j < g.len() implies plain(#[trigger] g[j]) by {
            if j < p.len() {
                assert(g[j] == p[j]);
            } else {
                assert(g[j] == ds.last().0);
            }
        }
    }
}

proof fn lemma_quiet4(a: Seq<char>, b: Seq<char>, c: Seq<char>, d: Seq<char>)
    requires
        quiet(a),
        quiet(b),
        quiet(c),
        quiet(d),
    ensures
        quiet(a + b + c + d),
{
    lemma_quiet_concat(a, b);
    lemma_quiet_concat(a + b, c);
    lemma_quiet_concat(a + b + c, d);
}

proof fn lemma_title_quiet(t: ProcedureTrace)
    requires
        single_line_trace(t),
    ensures
        quiet("# SPTrace Report: "@ + name_or(t.name, "Unknown"@) + "\n\n"@),
{
    reveal_strlit("Unknown");
    reveal_strlit("# SPTrace Report: ");
    reveal_strlit("\n\n");
    reveal_strlit("\n");
    lemma_name_plain(t, "Unknown"@);
    let name = name_or(t.name, "Unknown"@);
    lemma_quiet_led("# SPTrace Report: "@, name);
    lemma_quiet_newline();
    lemma_quiet_concat("# SPTrace Report: "@ + name + "\n"@, "\n"@);
    assert("# SPTrace Report: "@ + name + "\n\n"@ =~= ("# SPTrace Report: "@ + name + "\n"@)
        + "\n"@);
}

proof fn lemma_body_overview(t: ProcedureTrace)
    requires
        single_line_trace(t),
    ensures
        quiet(markdown_bodies(t)[0]),
{
    reveal_strlit("Unknown");
    reveal_strlit("- Procedure: ");
    reveal_strlit("- Dialect: T-SQL\n");
    reveal_strlit("- Dialect: T-SQL");
    reveal_strlit("- Statements: ");
    reveal_strlit("- Risk Level: ");
    reveal_strlit("\n\n");
    reveal_strlit("\n");
    lemma_name_plain(t, "Unknown"@);
    let name = name_or(t.name, "Unknown"@);
    let dec = decimal(t.metrics.statement_count as nat);
    lemma_decimal_digits(t.metrics.statement_count as nat);
    let sev = severity_label(t.metrics.risk_level);
    lemma_severity_plain(t.metrics.risk_level);
    let e = Seq::<char>::empty();
    let u1 = "- Procedure: "@ + name + "\n"@;
    let u2 = "- Dialect: T-SQL"@ + e + "\n"@;
    let u3 = "- Statements: "@ + dec + "\n"@;
    let u4 = "- Risk Level: "@ + sev + "\n"@;
    lemma_quiet_led("- Procedure: "@, name);
    lemma_quiet_led("- Dialect: T-SQL"@, e);
    lemma_quiet_led("- Statements: "@, dec);
    lemma_quiet_led("- Risk Level: "@, sev);
    lemma_quiet_newline();
    lemma_quiet4(u1, u2, u3, u4);
    lemma_quiet_concat(u1 + u2 + u3 + u4, "\n"@);
    assert(markdown_bodies(t)[0] =~= u1 + u2 + u3 + u4 + "\n"@);
}

proof fn lemma_param_row_quiet(p: (Seq<char>, Seq<char>, Option<Seq<char>>))
    requires
        plain(p.0),
        plain(p.1),
        p.2 matches Some(d) ==> plain(d),
    ensures
        quiet(md_param_row(p)),
{
    reveal_strlit("| ");
    reveal_strlit(" | ");
    reveal_strlit(" |\n");
    reveal_strlit(" |");
    reveal_strlit("\n");
    reveal_strlit("Required");
    let d = default_or_required(p.2);
    assert(plain(d));
    lemma_plain_concat(p.0, " | "@);
    lemma_plain_concat(p.0 + " | "@, p.1);
    lemma_plain_concat(p.0 + " | "@ + p.1, " | "@);
    lemma_plain_concat(p.0 + " | "@ + p.1 + " | "@, d);
    lemma_plain_concat(p.0 + " | "@ + p.1 + " | "@ + d, " |"@);
    let u = p.0 + " | "@ + p.1 + " | "@ + d + " |"@;
    lemma_quiet_led("| "@, u);
    assert(md_param_row(p) =~= "| "@ + u + "\n"@);
}

proof fn lemma_body_parameters(t: ProcedureTrace)
    requires
        single_line_trace(t),
    ensures
        quiet(markdown_bodies(t)[1]),
{
    reveal_strlit("| Parameter | Type | Default |\n|---|---|---|\n");
    reveal_strlit("| Parameter | Type | Default |");
    reveal_strlit("|---|---|---|");
    reveal_strlit("| None | - | - |\n");
    reveal_strlit("| None | - | - |");
    reveal_strlit("\n");
    let e = Seq::<char>::empty();
    let ps = params_view(t.parameters@);
    let h1 = "| Parameter | Type | Default |"@ + e + "\n"@;
    let h2 = "|---|---|---|"@ + e + "\n"@;
    lemma_quiet_led("| Parameter | Type | Default |"@, e);
    lemma_quiet_led("|---|---|---|"@, e);
    lemma_quiet_concat(h1, h2);
    assert("| Parameter | Type | Default |\n|---|---|---|\n"@ =~= h1 + h2);
    let mid = if ps.len() == 0 {
        "| None | - | - |\n"@
    } else {
        concat(ps.map_values(|p: (Seq<char>, Seq<char>, Option<Seq<char>>)| md_param_row(p)))
    };
    if ps.len() == 0 {
        lemma_quiet_led("| None | - | - |"@, e);
        assert("| None | - | - |\n"@ =~= "| None | - | - |"@ + e + "\n"@);
    } else {
        let parts = ps.map_values(|p: (Seq<char>, Seq<char>, Option<Seq<char>>)| md_param_row(p));
        assert forall|k: int| 0 <= k < parts.len() implies quiet(#[trigger] parts[k]) by {
            assert(plain(ps[k].0));
            lemma_param_row_quiet(ps[k]);
        }
        lemma_quiet_concat_all(parts);
    }
    lemma_quiet_newline();
    lemma_quiet_concat(h1 + h2, mid);
    lemma_quiet_concat(h1 + h2 + mid, "\n"@);
    assert(markdown_bodies(t)[1] =~= h1 + h2 + mid + "\n"@);
}

proof fn lemma_sub_heading(x: Seq<char>)
    requires
        plain(x),
        x.len() >= 3,
        x[2] != ' ',
    ensures
        quiet("\n"@ + x + "\n"@),
{
    lemma_quiet_newline();
    lemma_quiet_led(x, Seq::<char>::empty());
    assert(x + Seq::<char>::empty() + "\n"@ =~= x + "\n"@);
    lemma_quiet_concat("\n"@, x + "\n"@);
    assert("\n"@ + x + "\n"@ =~= "\n"@ + (x + "\n"@));
}

proof fn lemma_body_dependencies(t: ProcedureTrace)
    requires
        single_line_trace(t),
    ensures
        quiet(markdown_bodies(t)[2]),
{
    reveal_strlit("\n");
    reveal_strlit("### Tables Read\n");
    reveal_strlit("### Tables Read");
    reveal_strlit("\n### Tables Written\n");
    reveal_strlit("### Tables Written");
    reveal_strlit("\n### Procedures Executed\n");
    reveal_strlit("### Procedures Executed");
    reveal_strlit("\n### External Dependencies\n");
    reveal_strlit("### External Dependencies");
    let ds = deps_view(t.dependencies@);
    lemma_group_plain(ds, GroupKind::Reads);
    lemma_group_plain(ds, GroupKind::Writes);
    lemma_group_plain(ds, GroupKind::Executes);
    lemma_group_plain(ds, GroupKind::External);
    let l1 = md_list(group(ds, GroupKind::Reads));
    let l2 = md_list(group(ds, GroupKind::Writes));
    let l3 = md_list(group(ds, GroupKind::Executes));
    let l4 = md_list(group(ds, GroupKind::External));
    lemma_quiet_md_list(group(ds, GroupKind::Reads));
    lemma_quiet_md_list(group(ds, GroupKind::Writes));
    lemma_quiet_md_list(group(ds, GroupKind::Executes));
    lemma_quiet_md_list(group(ds, GroupKind::External));
    lemma_sub_heading("### Tables Read"@);
    lemma_sub_heading("### Tables Written"@);
    lemma_sub_heading("### Procedures Executed"@);
    lemma_sub_heading("### External Dependencies"@);
    let a = "\n"@ + "### Tables Read"@ + "\n"@;
    let b = "\n"@ + "### Tables Written"@ + "\n"@;
    let c = "\n"@ + "### Procedures Executed"@ + "\n"@;
    let d = "\n"@ + "### External Dependencies"@ + "\n"@;
    lemma_quiet_newline();
    lemma_quiet4(a, l1, b, l2);
    lemma_quiet4(c, l3, d, l4);
    lemma_quiet_concat(a + l1 + b + l2, c + l3 + d + l4);
    lemma_quiet_concat(a + l1 + b + l2 + (c + l3 + d + l4), "\n"@);
    assert(markdown_bodies(t)[2] =~= a + l1 + b + l2 + (c + l3 + d + l4) + "\n"@);
}

proof fn lemma_body_temp_tables(t: ProcedureTrace)
    requires
        single_line_trace(t),
    ensures
        quiet(markdown_bodies(t)[3]),
{
    let tv = sviews(t.temp_tables@);
    assert forall|k: int| 0 <= k < tv.len() implies plain(#[trigger] tv[k]) by {
        assert(tv[k] == t.temp_tables@[k]@);
    }
    lemma_quiet_md_list(tv);
    lemma_quiet_newline();
    lemma_quiet_concat(md_list(tv), "\n"@);
}

proof fn lemma_risk_block_quiet(r: (Seq<char>, Severity, Seq<char>, Seq<char>))
    requires
        plain(r.0),
        plain(r.2),
        plain(r.3),
        !is_heading_line(r.2),
    ensures
        quiet(md_risk_block(r)),
{
    reveal_strlit("\n### ");
    reveal_strlit("### ");
    reveal_strlit(": ");
    reveal_strlit("\n");
    reveal_strlit("\n\n");
    reveal_strlit("Suggestion: ");
    let sev = severity_label(r.1);
    lemma_severity_plain(r.1);
    lemma_plain_concat(sev, ": "@);
    lemma_plain_concat(sev + ": "@, r.0);
    let u = sev + ": "@ + r.0;
    lemma_quiet_newline();
    lemma_quiet_led("### "@, u);
    lemma_quiet_line(r.2);
    lemma_quiet_led("Suggestion: "@, r.3);
    let a = "\n"@;
    let b = "### "@ + u + "\n"@;
    let c = r.2 + "\n"@;
    let d = "Suggestion: "@ + r.3 + "\n"@;
    lemma_quiet4(a, b, c, a);
    lemma_quiet_concat(a + b + c + a, d);
    assert(md_risk_block(r) =~= a + b + c + a + d);
}

proof fn lemma_body_risks(t: ProcedureTrace)
    requires
        single_line_trace(t),
    ensures
        quiet(markdown_bodies(t)[6]),
{
    reveal_strlit("- None detected.\n");
    reveal_strlit("- None detected.");
    reveal_strlit("\n");
    let e = Seq::<char>::empty();
    let rs = risks_view(t.risks@);
    let mid = if rs.len() == 0 {
        "- None detected.\n"@
    } else {
        concat(rs.map_values(|r: (Seq<char>, Severity, Seq<char>, Seq<char>)| md_risk_block(r)))
    };
    if rs.len() == 0 {
        lemma_quiet_led("- None detected."@, e);
        assert("- None detected.\n"@ =~= "- None detected."@ + e + "\n"@);
    } else {
        let parts = rs.map_values(|r: (Seq<char>, Severity, Seq<char>, Seq<char>)| md_risk_block(r));
        assert forall|k: int| 0 <= k < parts.len() implies quiet(#[trigger] parts[k]) by {
            assert(plain(rs[k].0));
            lemma_risk_block_quiet(rs[k]);
        }
        lemma_quiet_concat_all(parts);
    }
    lemma_quiet_newline();
    lemma_quiet_concat(mid, "\n"@);
    assert(markdown_bodies(t)[6] =~= mid + "\n"@);
}

/// A line of the diagram: one line, indented.
pub open spec fn indented(l: Seq<char>) -> bool {
    plain(l) && l.len() > 0 && l[0] == ' '
}

proof fn lemma_node_id_plain(label: Seq<char>)
    ensures
        plain(node_id_spec(label)),
{
    reveal_strlit("N_");
    reveal_strlit("_");
    reveal_strlit("N_UNKNOWN");
    let m = label.map_values(|c: char| id_char(c));
    assert forall|i: int| 0 <= i < m.len() implies m[i] != '\n' by {
        assert(m[i] == id_char(label[i]));
    }
    lemma_plain_concat("N_"@, m);
    let full = "N_"@ + m;
    lemma_trim_end_in(full, "_"@);
    let b = choose|b: int| 0 <= b <= full.len() && trim_end_in(full, "_"@) == full.subrange(0, b);
    let s = trim_end_in(full, "_"@);
    assert forall|i: int| 0 <= i < s.len() implies s[i] != '\n' by {
        assert(s[i] == full[i]);
    }
}

proof fn lemma_node_line(id: Seq<char>, label: Seq<char>)
    requires
        plain(id),
        plain(label),
    ensures
        indented(node_line(id, label)),
{
    reveal_strlit("    ");
    reveal_strlit("[\"");
    reveal_strlit("\"]");
    let e = escape_label_spec(label);
    assert forall|i: int| 0 <= i < e.len() implies e[i] != '\n' by {
        assert(e[i] == (if label[i] == '"' { '\'' } else { label[i] }));
    }
    lemma_plain_concat("    "@, id);
    lemma_plain_concat("    "@ + id, "[\""@);
    lemma_plain_concat("    "@ + id + "[\""@, e);
    lemma_plain_concat("    "@ + id + "[\""@ + e, "\"]"@);
    assert(node_line(id, label)[0] == ' ');
}

proof fn lemma_edge_line(op: Operation, dep_id: Seq<char>, proc_id: Seq<char>)
    requires
        plain(dep_id),
        plain(proc_id),
    ensures
        edge_of(op, dep_id, proc_id) matches Some(e) ==> indented(e),
{
    reveal_strlit("    ");
    reveal_strlit(" --> ");
    reveal_strlit(" -. executes .-> ");
    lemma_plain_concat("    "@, dep_id);
    lemma_plain_concat("    "@ + dep_id, " --> "@);
    lemma_plain_concat("    "@ + dep_id + " --> "@, proc_id);
    lemma_plain_concat("    "@, proc_id);
    lemma_plain_concat("    "@ + proc_id, " --> "@);
    lemma_plain_concat("    "@ + proc_id + " --> "@, dep_id);
    lemma_plain_concat("    "@ + proc_id, " -. executes .-> "@);
    lemma_plain_concat("    "@ + proc_id + " -. executes .-> "@, dep_id);
}

proof fn lemma_fold_lines(ds: Seq<DepV>, pid: Seq<char>)
    requires
        plain(pid),
        forall|j: int| 0 <= j < ds.len() ==> plain((#[trigger] ds[j]).0),
    ensures
        forall|k: int| 0 <= k < mermaid_fold(ds, pid).0.len() ==> indented(#[trigger] mermaid_fold(ds, pid).0[k]),
    decreases ds.len(),
{
    if ds.len() > 0 {
        let init = ds.drop_last();
        assert forall|j: int| 0 <= j < init.len() implies plain((#[trigger] init[j]).0) by {
            assert(init[j] == ds[j]);
        }
        lemma_fold_lines(init, pid);
        let (ls, em) = mermaid_fold(init, pid);
        let d = ds.last();
        assert(plain(ds[ds.len() - 1].0));
        let id = node_id_spec(d.0);
        lemma_node_id_plain(d.0);
        lemma_node_line(id, d.0);
        lemma_edge_line(d.1, id, pid);
        let ls2 = if em.contains(id) { ls } else { ls.push(node_line(id, d.0)) };
        assert forall|k: int| 0 <= k < ls2.len() implies indented(#[trigger] ls2[k]) by {
            if k < ls.len() {
                assert(ls2[k] == ls[k]);
            }
        }
        let out = mermaid_fold(ds, pid).0;
        assert forall|k: int| 0 <= k < out.len() implies indented(#[trigger] out[k]) by {
            if k < ls2.len() {
                assert(out[k] == ls2[k]);
            }
        }
    }
}

proof fn lemma_body_diagram(t: ProcedureTrace)
    requires
        single_line_trace(t),
    ensures
        quiet(markdown_bodies(t)[4]),
{
    reveal_strlit("UNKNOWN_PROC");
    reveal_strlit("flowchart LR");
    reveal_strlit("    %% No dependencies detected");
    reveal_strlit("```mermaid\n");
    reveal_strlit("```mermaid");
    reveal_strlit("\n```\n");
    reveal_strlit("```");
    reveal_strlit("\n");
    let ds = deps_view(t.dependencies@);
    lemma_name_plain(t, "UNKNOWN_PROC"@);
    let name = name_or(t.name, "UNKNOWN_PROC"@);
    let pid = node_id_spec(name);
    lemma_node_id_plain(name);
    lemma_node_line(pid, name);
    lemma_fold_lines(ds, pid);
    let tail: Seq<Seq<char>> = if ds.len() == 0 && group(ds, GroupKind::External).len() == 0 {
        seq!["    %% No dependencies detected"@]
    } else {
        seq![]
    };
    let head = seq!["flowchart LR"@, node_line(pid, name)];
    let fl = mermaid_fold(ds, pid).0;
    let ls = head + fl + tail;
    assert forall|k: int| 0 <= k < ls.len() implies plain(#[trigger] ls[k]) && !is_heading_line(ls[k]) by {
        if k < 2 {
        } else if k < 2 + fl.len() {
            assert(ls[k] == fl[k - 2]);
            assert(indented(fl[k - 2]));
        } else {
            assert(ls[k] == tail[k - 2 - fl.len()]);
        }
    }
    lemma_quiet_joined(ls);
    assert(mermaid_spec(t) == join(ls, "\n"@));
    let e = Seq::<char>::empty();
    lemma_quiet_led("```mermaid"@, e);
    lemma_quiet_led("```"@, e);
    lemma_quiet_newline();
    let a = "```mermaid"@ + e + "\n"@;
    let b = join(ls, "\n"@) + "\n"@;
    let c = "```"@ + e + "\n"@;
    lemma_quiet4("\n"@, a, b, c);
    lemma_quiet_concat("\n"@ + a + b + c, "\n"@);
    assert(mermaid_block(t) =~= a + b + c);
    assert(markdown_bodies(t)[4] =~= "\n"@ + a + b + c + "\n"@);
}

proof fn lemma_flow_step(n: nat, text: Seq<char>, items: Seq<Seq<char>>)
    requires
        plain(text),
        forall|k: int| 0 <= k < items.len() ==> plain(#[trigger] items[k]),
    ensures
        plain(flow_step(n, text, items)),
        flow_step(n, text, items).len() > 0,
        flow_step(n, text, items)[0] != '#',
{
    reveal_strlit("`, `");
    reveal_strlit("`");
    lemma_decimal_digits(n);
    lemma_plain_join(items, "`, `"@);
    lemma_plain_concat(decimal(n), text);
    lemma_plain_concat(decimal(n) + text, join(items, "`, `"@));
    lemma_plain_concat(decimal(n) + text + join(items, "`, `"@), "`"@);
    assert(flow_step(n, text, items)[0] == decimal(n)[0]);
}

/// A flow step line: one line, not a heading.
pub open spec fn step_ok(l: Seq<char>) -> bool {
    plain(l) && l.len() > 0 && l[0] != '#'
}

proof fn lemma_push_step(s: Seq<Seq<char>>, x: Seq<char>)
    requires
        forall|k: int| 0 <= k < s.len() ==> step_ok(#[trigger] s[k]),
        step_ok(x),
    ensures
        forall|k: int| 0 <= k < s.push(x).len() ==> step_ok(#[trigger] s.push(x)[k]),
{
    assert forall|k: int| 0 <= k < s.push(x).len() implies step_ok(#[trigger] s.push(x)[k]) by {
        if k < s.len() {
            assert(s.push(x)[k] == s[k]);
        }
    }
}

proof fn lemma_flow_steps(reads: Seq<Seq<char>>, temps: Seq<Seq<char>>, writes: Seq<Seq<char>>, execs: Seq<Seq<char>>)
    requires
        forall|k: int| 0 <= k < reads.len() ==> plain(#[trigger] reads[k]),
        forall|k: int| 0 <= k < temps.len() ==> plain(#[trigger] temps[k]),
        forall|k: int| 0 <= k < writes.len() ==> plain(#[trigger] writes[k]),
        forall|k: int| 0 <= k < execs.len() ==> plain(#[trigger] execs[k]),
    ensures
        forall|k: int|
            0 <= k < flow_steps(reads, temps, writes, execs).len() ==> step_ok(
                #[trigger] flow_steps(reads, temps, writes, execs)[k],
            ),
{
    reveal_strlit(". Reads from `");
    reveal_strlit(". Uses temp tables `");
    reveal_strlit(". Writes to `");
    reveal_strlit(". Calls `");
    let e = Seq::<Seq<char>>::empty();
    let s1: Seq<Seq<char>> = if reads.len() > 0 {
        seq![flow_step(1, ". Reads from `"@, reads)]
    } else {
        seq![]
    };
    lemma_flow_step(1, ". Reads from `"@, reads);
    lemma_push_step(e, flow_step(1, ". Reads from `"@, reads));
    assert(e.push(flow_step(1, ". Reads from `"@, reads)) =~= seq![flow_step(1, ". Reads from `"@, reads)]);
    let s2 = if temps.len() > 0 {
        s1.push(flow_step(s1.len() + 1, ". Uses temp tables `"@, temps))
    } else {
        s1
    };
    lemma_flow_step(s1.len() + 1, ". Uses temp tables `"@, temps);
    lemma_push_step(s1, flow_step(s1.len() + 1, ". Uses temp tables `"@, temps));
    let s3 = if writes.len() > 0 {
        s2.push(flow_step(s2.len() + 1, ". Writes to `"@, writes))
    } else {
        s2
    };
    lemma_flow_step(s2.len() + 1, ". Writes to `"@, writes);
    lemma_push_step(s2, flow_step(s2.len() + 1, ". Writes to `"@, writes));
    lemma_flow_step(s3.len() + 1, ". Calls `"@, execs);
    lemma_push_step(s3, flow_step(s3.len() + 1, ". Calls `"@, execs));
}

proof fn lemma_body_flow(t: ProcedureTrace)
    requires
        single_line_trace(t),
    ensures
        quiet(markdown_bodies(t)[5]),
{
    reveal_strlit("1. No explicit flow detected.");
    reveal_strlit("\n\n");
    reveal_strlit("\n");
    let ds = deps_view(t.dependencies@);
    lemma_group_plain(ds, GroupKind::Reads);
    lemma_group_plain(ds, GroupKind::Writes);
    lemma_group_plain(ds, GroupKind::Executes);
    let tv = sviews(t.temp_tables@);
    assert forall|k: int| 0 <= k < tv.len() implies plain(#[trigger] tv[k]) by {
        assert(tv[k] == t.temp_tables@[k]@);
    }
    let steps = flow_steps(
        group(ds, GroupKind::Reads),
        tv,
        group(ds, GroupKind::Writes),
        group(ds, GroupKind::Executes),
    );
    lemma_flow_steps(group(ds, GroupKind::Reads), tv, group(ds, GroupKind::Writes), group(ds, GroupKind::Executes));
    let e = Seq::<char>::empty();
    if steps.len() == 0 {
        lemma_quiet_led("1. No explicit flow detected."@, e);
        assert("1. No explicit flow detected."@ + e + "\n"@ =~= flow_spec(t) + "\n"@);
    } else {
        assert forall|k: int| 0 <= k < steps.len() implies plain(#[trigger] steps[k]) && !is_heading_line(steps[k]) by {
            assert(step_ok(steps[k]));
        }
        lemma_quiet_joined(steps);
    }
    lemma_quiet_newline();
    lemma_quiet_concat(flow_spec(t) + "\n"@, "\n"@);
    assert(markdown_bodies(t)[5] =~= (flow_spec(t) + "\n"@) + "\n"@);
}

/// Every item is one line.
pub open spec fn all_plain(xs: Seq<Seq<char>>) -> bool {
    forall|k: int| 0 <= k < xs.len() ==> plain(#[trigger] xs[k])
}

proof fn lemma_all_plain_concat(a: Seq<Seq<char>>, b: Seq<Seq<char>>)
    requires
        all_plain(a),
        all_plain(b),
    ensures
        all_plain(a + b),
{
    assert forall|k: int| 0 <= k < (a + b).len() implies plain(#[trigger] (a + b)[k]) by {
        if k < a.len() {
            assert((a + b)[k] == a[k]);
        } else {
            assert((a + b)[k] == b[k - a.len()]);
        }
    }
}

proof fn lemma_raw_questions_plain(t: ProcedureTrace)
    ensures
        all_plain(raw_questions(t)),
{
    reveal_strlit("Is PART_NO unique per ORDER_NO?");
    reveal_strlit("Should MANIFEST_NO be part of the join key?");
    reveal_strlit("Should quantity be pre-aggregated before joining master data?");
    reveal_strlit("Is the full-table update/delete intentional?");
    reveal_strlit("Should a WHERE clause be added to narrow the affected rows?");
    reveal_strlit("What runtime object names are injected into the dynamic SQL?");
    reveal_strlit("Can the dynamic SQL be replaced with a static query?");
    reveal_strlit("Is the linked server available and trusted in all environments?");
    reveal_strlit("Does this external dependency affect freshness or latency?");
    reveal_strlit("Is transaction rollback handled correctly on error?");
    reveal_strlit("Can the query list explicit columns instead of SELECT *?");
    let a = q_list(has_rule(t, "multi_join_aggregation"@), seq![
        "Is PART_NO unique per ORDER_NO?"@,
        "Should MANIFEST_NO be part of the join key?"@,
        "Should quantity be pre-aggregated before joining master data?"@,
    ]);
    let b = q_list(has_rule(t, "update_without_where"@) || has_rule(t, "delete_without_where"@), seq![
        "Is the full-table update/delete intentional?"@,
        "Should a WHERE clause be added to narrow the affected rows?"@,
    ]);
    let c = q_list(has_rule(t, "dynamic_sql"@), seq![
        "What runtime object names are injected into the dynamic SQL?"@,
        "Can the dynamic SQL be replaced with a static query?"@,
    ]);
    let d = q_list(has_rule(t, "linked_server"@), seq![
        "Is the linked server available and trusted in all environments?"@,
        "Does this external dependency affect freshness or latency?"@,
    ]);
    let e = q_list(has_rule(t, "transaction_without_trycatch"@) || has_rule(t, "trycatch_without_rollback"@), seq![
        "Is transaction rollback handled correctly on error?"@,
    ]);
    let f = q_list(has_rule(t, "select_star"@), seq![
        "Can the query list explicit columns instead of SELECT *?"@,
    ]);
    assert(all_plain(a));
    assert(all_plain(b));
    assert(all_plain(c));
    assert(all_plain(d));
    assert(all_plain(e));
    assert(all_plain(f));
    lemma_all_plain_concat(a, b);
    lemma_all_plain_concat(a + b, c);
    lemma_all_plain_concat(a + b + c, d);
    lemma_all_plain_concat(a + b + c + d, e);
    lemma_all_plain_concat(a + b + c + d + e, f);
}

proof fn lemma_body_questions(t: ProcedureTrace)
    ensures
        quiet(markdown_bodies(t)[7]),
{
    reveal_strlit("Does the current dependency graph match the intended business flow?");
    let q = raw_questions(t);
    lemma_raw_questions_plain(t);
    let items = if q.len() == 0 {
        seq!["Does the current dependency graph match the intended business flow?"@]
    } else {
        q
    };
    assert(all_plain(items));
    lemma_sorted_set(items);
    let qs = sorted_set(items);
    assert(qs == questions_spec(t));
    assert forall|k: int| 0 <= k < qs.len() implies plain(#[trigger] qs[k]) by {
        assert(qs.contains(qs[k]));
        assert(items.contains(qs[k]));
        let j = choose|j: int| 0 <= j < items.len() && items[j] == qs[k];
    }
    lemma_quiet_md_list(qs);
    lemma_quiet_newline();
    lemma_quiet_concat(md_list(qs), "\n"@);
}

proof fn lemma_quiet_lines3(a: Seq<char>, b: Seq<char>, c: Seq<char>)
    requires
        quiet(a),
        quiet(b),
        quiet(c),
    ensures
        quiet(a + b + c),
{
    lemma_quiet_concat(a, b);
    lemma_quiet_concat(a + b, c);
}

proof fn lemma_sql_blocks(t: ProcedureTrace)
    requires
        single_line_trace(t),
    ensures
        forall|k: int| 0 <= k < queries_spec(t).len() ==> quiet(#[trigger] sql_block(queries_spec(t)[k])),
{
    reveal_strlit("```sql\n");
    reveal_strlit("```sql");
    reveal_strlit("\n```\n");
    reveal_strlit("```");
    reveal_strlit("\n");
    reveal_strlit("SELECT ORDER_NO, PART_NO, COUNT(*) AS CNT\nFROM ");
    reveal_strlit("SELECT ORDER_NO, PART_NO, COUNT(*) AS CNT");
    reveal_strlit("FROM ");
    reveal_strlit("\nGROUP BY ORDER_NO, PART_NO\nHAVING COUNT(*) > 1;");
    reveal_strlit("GROUP BY ORDER_NO, PART_NO");
    reveal_strlit("HAVING COUNT(*) > 1;");
    reveal_strlit("<SOURCE_TABLE>");
    reveal_strlit("SELECT TOP 100 *\nFROM ");
    reveal_strlit("SELECT TOP 100 *");
    reveal_strlit(";");
    reveal_strlit("<TARGET_TABLE>");
    reveal_strlit("-- Inspect the generated SQL string before execution\n-- PRINT @SQL;");
    reveal_strlit("-- Inspect the generated SQL string before execution");
    reveal_strlit("-- PRINT @SQL;");
    let ds = deps_view(t.dependencies@);
    let e = Seq::<char>::empty();
    lemma_group_plain(ds, GroupKind::Reads);
    lemma_group_plain(ds, GroupKind::Writes);
    let x1 = first_or(group(ds, GroupKind::Reads), "<SOURCE_TABLE>"@);
    let x2 = first_or(group(ds, GroupKind::Writes), "<TARGET_TABLE>"@);
    assert(plain(x1));
    assert(plain(x2));
    let q1 = "SELECT ORDER_NO, PART_NO, COUNT(*) AS CNT\nFROM "@ + x1 + "\nGROUP BY ORDER_NO, PART_NO\nHAVING COUNT(*) > 1;"@;
    let q2 = "SELECT TOP 100 *\nFROM "@ + x2 + ";"@;
    let q3 = "-- Inspect the generated SQL string before execution\n-- PRINT @SQL;"@;
    let open = "```sql"@ + e + "\n"@;
    let close = "```"@ + e + "\n"@;
    lemma_quiet_led("```sql"@, e);
    lemma_quiet_led("```"@, e);
    // first query
    let l1 = "SELECT ORDER_NO, PART_NO, COUNT(*) AS CNT"@ + e + "\n"@;
    let l2 = "FROM "@ + x1 + "\n"@;
    let l3 = "GROUP BY ORDER_NO, PART_NO"@ + e + "\n"@;
    let l4 = "HAVING COUNT(*) > 1;"@ + e + "\n"@;
    lemma_quiet_led("SELECT ORDER_NO, PART_NO, COUNT(*) AS CNT"@, e);
    lemma_quiet_led("FROM "@, x1);
    lemma_quiet_led("GROUP BY ORDER_NO, PART_NO"@, e);
    lemma_quiet_led("HAVING COUNT(*) > 1;"@, e);
    lemma_quiet4(open, l1, l2, l3);
    lemma_quiet_lines3(open + l1 + l2 + l3, l4, close);
    assert(sql_block(q1) =~= open + l1 + l2 + l3 + l4 + close);
    // second query
    lemma_plain_concat(x2, ";"@);
    let m1 = "SELECT TOP 100 *"@ + e + "\n"@;
    let m2 = "FROM "@ + (x2 + ";"@) + "\n"@;
    lemma_quiet_led("SELECT TOP 100 *"@, e);
    lemma_quiet_led("FROM "@, x2 + ";"@);
    lemma_quiet4(open, m1, m2, close);
    assert(sql_block(q2) =~= open + m1 + m2 + close);
    // third query
    let n1 = "-- Inspect the generated SQL string before execution"@ + e + "\n"@;
    let n2 = "-- PRINT @SQL;"@ + e + "\n"@;
    lemma_quiet_led("-- Inspect the generated SQL string before execution"@, e);
    lemma_quiet_led("-- PRINT @SQL;"@, e);
    lemma_quiet4(open, n1, n2, close);
    assert(sql_block(q3) =~= open + n1 + n2 + close);
    let qs = queries_spec(t);
    let a = q_list(has_rule(t, "multi_join_aggregation"@), seq![q1]);
    let b = q_list(has_rule(t, "update_without_where"@) || has_rule(t, "delete_without_where"@), seq![q2]);
    let c = q_list(has_rule(t, "dynamic_sql"@), seq![q3]);
    assert(qs == a + b + c);
    assert forall|k: int| 0 <= k < qs.len() implies quiet(#[trigger] sql_block(qs[k])) by {
        if k < a.len() {
            assert(qs[k] == a[k]);
        } else if k < a.len() + b.len() {
            assert(qs[k] == b[k - a.len()]);
        } else {
            assert(qs[k] == c[k - a.len() - b.len()]);
        }
    }
}

proof fn lemma_body_queries(t: ProcedureTrace)
    requires
        single_line_trace(t),
    ensures
        quiet(markdown_bodies(t)[8]),
{
    reveal_strlit("- No specific query suggested.\n");
    reveal_strlit("- No specific query suggested.");
    reveal_strlit("\n");
    let qs = queries_spec(t);
    let e = Seq::<char>::empty();
    lemma_sql_blocks(t);
    if qs.len() == 0 {
        lemma_quiet_led("- No specific query suggested."@, e);
        assert("- No specific query suggested.\n"@ =~= "- No specific query suggested."@ + e + "\n"@);
    } else {
        let parts = qs.map_values(|q: Seq<char>| sql_block(q));
        assert forall|k: int| 0 <= k < parts.len() implies quiet(#[trigger] parts[k]) by {
            assert(parts[k] == sql_block(qs[k]));
        }
        lemma_quiet_concat_all(parts);
    }
    assert(markdown_bodies(t)[8] == md_queries(qs));
}

/// A section: its heading line, then a body of whole, quiet lines.
proof fn lemma_section(acc: Seq<char>, x: Seq<char>, body: Seq<char>)
    requires
        ends_line(acc),
        plain(x),
        x.len() > 0,
        x.last() != '\r',
        is_heading_line(x),
        quiet(body),
    ensures
        heading_lines(acc + (x + "\n"@ + body)) == heading_lines(acc).push(x),
        ends_line(acc + (x + "\n"@ + body)),
{
    lemma_one_line(x);
    lemma_heading_lines_concat(x + "\n"@, body);
    assert(seq![x] + Seq::<Seq<char>>::empty() =~= seq![x]);
    lemma_heading_lines_concat(acc, x + "\n"@ + body);
    assert(heading_lines(acc) + seq![x] =~= heading_lines(acc).push(x));
}

proof fn lemma_heading_literals()
    ensures
        forall|k: int|
            0 <= k < 9 ==> plain(#[trigger] report_heading_titles()[k]) && report_heading_titles()[k].len() > 0
                && report_heading_titles()[k].last() != '\r' && is_heading_line(
                report_heading_titles()[k],
            ) && markdown_headings()[k] == report_heading_titles()[k] + "\n"@,
{
    reveal_strlit("## 1. Overview");
    reveal_strlit("## 2. Parameters");
    reveal_strlit("## 3. Dependencies");
    reveal_strlit("## 4. Temp Tables");
    reveal_strlit("## 5. Dependency Diagram");
    reveal_strlit("## 6. Execution Flow");
    reveal_strlit("## 7. Risk Findings");
    reveal_strlit("## 8. Questions to Verify");
    reveal_strlit("## 9. Suggested Next Queries");
    reveal_strlit("## 1. Overview\n");
    reveal_strlit("## 2. Parameters\n");
    reveal_strlit("## 3. Dependencies\n");
    reveal_strlit("## 4. Temp Tables\n");
    reveal_strlit("## 5. Dependency Diagram\n");
    reveal_strlit("## 6. Execution Flow\n");
    reveal_strlit("## 7. Risk Findings\n");
    reveal_strlit("## 8. Questions to Verify\n");
    reveal_strlit("## 9. Suggested Next Queries\n");
    reveal_strlit("\n");
    let h = markdown_headings();
    let r = report_heading_titles();
    assert(h[0] =~= r[0] + "\n"@);
    assert(h[1] =~= r[1] + "\n"@);
    assert(h[2] =~= r[2] + "\n"@);
    assert(h[3] =~= r[3] + "\n"@);
    assert(h[4] =~= r[4] + "\n"@);
    assert(h[5] =~= r[5] + "\n"@);
    assert(h[6] =~= r[6] + "\n"@);
    assert(h[7] =~= r[7] + "\n"@);
    assert(h[8] =~= r[8] + "\n"@);
}

/// Read line by line, the Markdown report has exactly nine lines that start
/// with `## `: the section headings, in order. This holds when every text of
/// the trace that the report prints is one line and no risk message reads as
/// such a line.
pub proof fn law_markdown_heading_lines(t: ProcedureTrace)
    requires
        single_line_trace(t),
    ensures
        heading_lines(markdown_spec(t)) == report_heading_titles(),
{
    law_markdown_layout(t);
    lemma_heading_literals();
    lemma_title_quiet(t);
    lemma_body_overview(t);
    lemma_body_parameters(t);
    lemma_body_dependencies(t);
    lemma_body_temp_tables(t);
    lemma_body_diagram(t);
    lemma_body_flow(t);
    lemma_body_risks(t);
    lemma_body_questions(t);
    lemma_body_queries(t);
    let h = markdown_headings();
    let b = markdown_bodies(t);
    let r = report_heading_titles();
    let s0 = "# SPTrace Report: "@ + name_or(t.name, "Unknown"@) + "\n\n"@;
    assert(h[0] == r[0] + "\n"@);
    lemma_section(s0, r[0], b[0]);
    let s1 = s0 + (h[0] + b[0]);
    assert(h[1] == r[1] + "\n"@);
    lemma_section(s1, r[1], b[1]);
    let s2 = s1 + (h[1] + b[1]);
    assert(h[2] == r[2] + "\n"@);
    lemma_section(s2, r[2], b[2]);
    let s3 = s2 + (h[2] + b[2]);
    assert(h[3] == r[3] + "\n"@);
    lemma_section(s3, r[3], b[3]);
    let s4 = s3 + (h[3] + b[3]);
    assert(h[4] == r[4] + "\n"@);
    lemma_section(s4, r[4], b[4]);
    let s5 = s4 + (h[4] + b[4]);
    assert(h[5] == r[5] + "\n"@);
    lemma_section(s5, r[5], b[5]);
    let s6 = s5 + (h[5] + b[5]);
    assert(h[6] == r[6] + "\n"@);
    lemma_section(s6, r[6], b[6]);
    let s7 = s6 + (h[6] + b[6]);
    assert(h[7] == r[7] + "\n"@);
    lemma_section(s7, r[7], b[7]);
    let s8 = s7 + (h[7] + b[7]);
    assert(h[8] == r[8] + "\n"@);
    lemma_section(s8, r[8], b[8]);
    let s9 = s8 + (h[8] + b[8]);
    assert(s9 == markdown_spec(t));
    assert(heading_lines(s0) =~= Seq::<Seq<char>>::empty());
    assert(heading_lines(s9) =~= r);
}

} // verus!
