//! Properties that hold of the library's results on every input.
use vstd::prelude::*;
use crate::analyzer::{highest, is_trace_of};
use crate::model::{
    deps_view, risks_view, severity_rank, ProcedureTrace, RuleConfig, ScanIndexEntry, Severity,
};
use crate::normalizer::{
    batches_from, clean_identifier_part, drop_cr, emit, lines, lines_from, normalize_identifier_spec,
    closer, quote_state_from, semi_from, split_by_semicolon_spec, split_statements_spec,
    strip_comments_spec, strip_from, tidy, Lex,
};
use crate::model::Operation;
use crate::parser::{
    all_candidates, body_sql_spec, body_start, candidate, candidates_of, cleaned_statements,
    collect_spec, decl_end, dedup_first, dependencies_spec, drop_trailing_keywords,
    is_trailing_keyword,
    first_greater, objects_of, strip_output,
    param_decl, parameters_spec, parse_param_spec, parse_params, seconds, sort_by_pos, stmt_candidates,
    summaries_spec, temp_tables_found, write_candidates, DepV, DELETE_PATTERN, EXEC_PATTERN,
    FROM_PATTERN, INSERT_INTO_PATTERN, JOIN_PATTERN, MERGE_INTO_PATTERN, SELECT_INTO_PATTERN,
    UPDATE_PATTERN, USING_PATTERN,
};
use crate::pattern::regex_captures_iter;
use crate::model::{params_view, severity_label};
use crate::report::{
    concat, diff_overview, diff_spec, edge_of, emit_edge, emit_node, flow_spec, folder_deps,
    folder_fold, folder_mermaid_spec, folder_trace, group, in_group, markdown_spec, md_list,
    id_char, node_id_spec, node_line, FolderState,
    md_param_row, md_queries, md_risk_block, mermaid_spec, minus, name_or, parameter_set_spec,
    queries_spec, questions_spec, risk_rule_set_spec, section, set_diff_spec, GroupKind,
};
use crate::rules::{
    any_insert_select, apply_config, cursor_finding, delete_finding, delete_findings,
    dynamic_sql_finding, goes_before, hardcoded_date_finding, hits_of, insert_point,
    insert_select_finding, is_delete_without_where, is_update_without_where, leading_findings,
    lemma_rule_ids_distinct, linked_server_finding, multi_join_aggregation, multi_join_finding,
    nolock_finding, opt_finding, raw_findings, risks_spec, rollback_finding, rule_table,
    select_star_finding, sort_findings, statement_and_pattern_findings, statement_findings,
    status_finding, temp_chain_finding, transaction_finding, transaction_without_trycatch,
    trycatch_without_rollback, update_finding, update_findings, FindingV,
};
use crate::scan::{
    collapse_underscores, entry_before, entry_insert_point, safe_char, sanitize_spec,
    sort_entries_spec,
};
use crate::text::{
    ascii_lower, contains, count_char, decimal, eq_ic, is_ascii_alnum, is_ws, join,
    lemma_sorted_set, lemma_str_lt_total, lemma_str_lt_trans, lemma_trim_idempotent,
    lemma_trim_range, occurs_at, split_from, split_on,
    same_items, sorted_set, sorted_strict, str_lt, sviews, trim, trim_end, trim_end_in,
    trim_start_in,
    words, words_from,
};

verus! {

broadcast use vstd::seq_lib::group_to_multiset_ensures;

// ---------------------------------------------------------------------------
// Risk findings
// ---------------------------------------------------------------------------

/// No finding goes before one that comes earlier.
pub open spec fn findings_ordered(s: Seq<FindingV>) -> bool {
    forall|i: int, j: int| 0 <= i < j < s.len() ==> !goes_before(#[trigger] s[j], #[trigger] s[i])
}

/// Highest severity first; within one severity, rule ids in order.
pub open spec fn ordered_by_severity(s: Seq<FindingV>) -> bool {
    forall|i: int, j: int|
        0 <= i < j < s.len() ==> severity_rank(#[trigger] s[i].1) >= severity_rank(#[trigger] s[j].1)
            && (severity_rank(s[i].1) == severity_rank(s[j].1) ==> !str_lt(s[j].0, s[i].0))
}

proof fn lemma_goes_before_trans(a: FindingV, b: FindingV, c: FindingV)
    requires
        goes_before(a, b),
        goes_before(b, c),
    ensures
        goes_before(a, c),
{
    if severity_rank(a.1) == severity_rank(b.1) && severity_rank(b.1) == severity_rank(c.1) {
        lemma_str_lt_trans(a.0, b.0, c.0);
    }
}

proof fn lemma_goes_before_asym(a: FindingV, b: FindingV)
    ensures
        !(goes_before(a, b) && goes_before(b, a)),
{
    lemma_str_lt_total(a.0, b.0);
}

proof fn lemma_insert_point(sorted: Seq<FindingV>, x: FindingV, i: int)
    requires
        0 <= i <= sorted.len(),
    ensures
        i <= insert_point(sorted, x, i) <= sorted.len(),
        forall|t: int| i <= t < insert_point(sorted, x, i) ==> !goes_before(x, #[trigger] sorted[t]),
        insert_point(sorted, x, i) < sorted.len() ==> goes_before(
            x,
            sorted[insert_point(sorted, x, i)],
        ),
    decreases sorted.len() - i,
{
    if i < sorted.len() && !goes_before(x, sorted[i]) {
        lemma_insert_point(sorted, x, i + 1);
    }
}

/// The sort orders the findings and keeps each of them.
proof fn lemma_sort_findings(s: Seq<FindingV>)
    ensures
        findings_ordered(sort_findings(s)),
        sort_findings(s).to_multiset() == s.to_multiset(),
    decreases s.len(),
{
    if s.len() > 0 {
        let p = sort_findings(s.drop_last());
        lemma_sort_findings(s.drop_last());
        let x = s.last();
        lemma_insert_point(p, x, 0);
        let k = insert_point(p, x, 0);
        let q = p.insert(k, x);
        assert(q == sort_findings(s));
        assert forall|i: int, j: int| 0 <= i < j < q.len() implies !goes_before(
            #[trigger] q[j],
            #[trigger] q[i],
        ) by {
            if j < k {
                assert(q[i] == p[i] && q[j] == p[j]);
            } else if j == k {
                assert(q[i] == p[i]);
                assert(!goes_before(x, p[i]));
            } else if i == k {
                assert(q[j] == p[j - 1]);
                if goes_before(p[j - 1], x) {
                    if j - 1 == k {
                        lemma_goes_before_asym(x, p[k]);
                    } else {
                        lemma_goes_before_trans(p[j - 1], x, p[k]);
                        assert(!goes_before(p[j - 1], p[k]));
                    }
                }
            } else if i < k {
                assert(q[i] == p[i] && q[j] == p[j - 1]);
                assert(!goes_before(p[j - 1], p[i]));
            } else {
                assert(q[i] == p[i - 1] && q[j] == p[j - 1]);
                assert(!goes_before(p[j - 1], p[i - 1]));
            }
        }
        vstd::seq_lib::to_multiset_insert(p, k, x);
        assert(s =~= s.drop_last().push(x));
        vstd::seq_lib::to_multiset_build(s.drop_last(), x);
    }
}

/// Keeping first occurrences leaves each value once and loses none.
pub proof fn lemma_dedup_first<T>(s: Seq<T>)
    ensures
        dedup_first(s).no_duplicates(),
        forall|x: T| dedup_first(s).contains(x) <==> s.contains(x),
    decreases s.len(),
{
    if s.len() > 0 {
        let init = s.drop_last();
        lemma_dedup_first(init);
        assert forall|x: T| s.contains(x) <==> (init.contains(x) || x == s.last()) by {
            if s.contains(x) {
                let k = choose|k: int| 0 <= k < s.len() && s[k] == x;
                if k < s.len() - 1 {
                    assert(init[k] == x);
                }
            }
            if init.contains(x) {
                let k = choose|k: int| 0 <= k < init.len() && init[k] == x;
                assert(s[k] == x);
            }
            if x == s.last() {
                assert(s[s.len() - 1] == x);
            }
        }
        let p = dedup_first(init);
        if !p.contains(s.last()) {
            assert forall|x: T| p.push(s.last()).contains(x) <==> (p.contains(x) || x == s.last()) by {
                if p.push(s.last()).contains(x) {
                    let k = choose|k: int| 0 <= k < p.len() + 1 && p.push(s.last())[k] == x;
                    if k < p.len() {
                        assert(p[k] == x);
                    }
                }
                if p.contains(x) {
                    let k = choose|k: int| 0 <= k < p.len() && p[k] == x;
                    assert(p.push(s.last())[k] == x);
                }
                if x == s.last() {
                    assert(p.push(s.last())[p.len() as int] == x);
                }
            }
            assert forall|i: int, j: int|
                0 <= i < p.len() + 1 && 0 <= j < p.len() + 1 && i != j implies p.push(s.last())[i]
                != p.push(s.last())[j] by {
                if i == p.len() {
                    assert(p[j] == p.push(s.last())[j]);
                } else if j == p.len() {
                    assert(p[i] == p.push(s.last())[i]);
                }
            }
        }
    }
}

/// Every configured finding respects its rule's setting.
proof fn lemma_apply_config(fs: Seq<FindingV>, m: Map<Seq<char>, RuleConfig>)
    ensures
        forall|k: int|
            0 <= k < apply_config(fs, m).len() && m.contains_key(#[trigger] apply_config(fs, m)[k].0)
                ==> m[apply_config(fs, m)[k].0] != RuleConfig::Bool(false) && (m[apply_config(
                fs,
                m,
            )[k].0] matches RuleConfig::Severity(sv) ==> apply_config(fs, m)[k].1 == sv),
    decreases fs.len(),
{
    if fs.len() > 0 {
        lemma_apply_config(fs.drop_last(), m);
    }
}

/// The findings of `detect_risks_with_config` come with the highest severity
/// first, and findings of one severity in rule-id order.
pub proof fn law_findings_by_severity(
    sql: Seq<char>,
    temp_table_count: nat,
    m: Map<Seq<char>, RuleConfig>,
)
    ensures
        ordered_by_severity(risks_spec(sql, temp_table_count, m)),
{
    let d = dedup_first(apply_config(raw_findings(body_sql_spec(sql), temp_table_count), m));
    lemma_sort_findings(d);
    let r = risks_spec(sql, temp_table_count, m);
    assert forall|i: int, j: int| 0 <= i < j < r.len() implies severity_rank(#[trigger] r[i].1)
        >= severity_rank(#[trigger] r[j].1) && (severity_rank(r[i].1) == severity_rank(r[j].1)
        ==> !str_lt(r[j].0, r[i].0)) by {
        assert(!goes_before(r[j], r[i]));
    }
}

/// `detect_risks_with_config` reports each finding once.
pub proof fn law_findings_without_repeats(
    sql: Seq<char>,
    temp_table_count: nat,
    m: Map<Seq<char>, RuleConfig>,
)
    ensures
        risks_spec(sql, temp_table_count, m).no_duplicates(),
{
    let d = dedup_first(apply_config(raw_findings(body_sql_spec(sql), temp_table_count), m));
    lemma_dedup_first(apply_config(raw_findings(body_sql_spec(sql), temp_table_count), m));
    lemma_sort_findings(d);
    d.lemma_multiset_has_no_duplicates();
    let r = risks_spec(sql, temp_table_count, m);
    assert forall|x: FindingV| r.to_multiset().contains(x) implies r.to_multiset().count(x) == 1 by {
        assert(d.to_multiset().contains(x));
    }
    r.lemma_multiset_has_no_duplicates_conv();
}

/// Ordering and de-duplication lose no finding: what is reported is exactly
/// what the rules found, after the configuration.
pub proof fn law_findings_kept(sql: Seq<char>, temp_table_count: nat, m: Map<Seq<char>, RuleConfig>)
    ensures
        forall|f: FindingV|
            risks_spec(sql, temp_table_count, m).contains(f) <==> apply_config(
                raw_findings(body_sql_spec(sql), temp_table_count),
                m,
            ).contains(f),
{
    let a = apply_config(raw_findings(body_sql_spec(sql), temp_table_count), m);
    let d = dedup_first(a);
    lemma_dedup_first(a);
    lemma_sort_findings(d);
    let r = risks_spec(sql, temp_table_count, m);
    assert forall|f: FindingV| r.contains(f) <==> a.contains(f) by {
        vstd::seq_lib::to_multiset_contains(r, f);
        vstd::seq_lib::to_multiset_contains(d, f);
    }
}

/// A rule switched off (`false`) never appears among the findings.
pub proof fn law_disabled_rule_absent(
    sql: Seq<char>,
    temp_table_count: nat,
    m: Map<Seq<char>, RuleConfig>,
    rule_id: Seq<char>,
)
    requires
        m.contains_key(rule_id),
        m[rule_id] == RuleConfig::Bool(false),
    ensures
        forall|k: int|
            0 <= k < risks_spec(sql, temp_table_count, m).len() ==> (#[trigger] risks_spec(
                sql,
                temp_table_count,
                m,
            )[k]).0 != rule_id,
{
    let a = apply_config(raw_findings(body_sql_spec(sql), temp_table_count), m);
    law_findings_kept(sql, temp_table_count, m);
    lemma_apply_config(raw_findings(body_sql_spec(sql), temp_table_count), m);
    let r = risks_spec(sql, temp_table_count, m);
    assert forall|k: int| 0 <= k < r.len() implies (#[trigger] r[k]).0 != rule_id by {
        assert(r.contains(r[k]));
        let j = choose|j: int| 0 <= j < a.len() && a[j] == r[k];
        assert(a[j].0 == r[k].0);
    }
}

/// A rule given a severity is reported with that severity.
pub proof fn law_severity_override(
    sql: Seq<char>,
    temp_table_count: nat,
    m: Map<Seq<char>, RuleConfig>,
    rule_id: Seq<char>,
    severity: Severity,
)
    requires
        m.contains_key(rule_id),
        m[rule_id] == RuleConfig::Severity(severity),
    ensures
        forall|k: int|
            0 <= k < risks_spec(sql, temp_table_count, m).len() && (#[trigger] risks_spec(
                sql,
                temp_table_count,
                m,
            )[k]).0 == rule_id ==> risks_spec(sql, temp_table_count, m)[k].1 == severity,
{
    let a = apply_config(raw_findings(body_sql_spec(sql), temp_table_count), m);
    law_findings_kept(sql, temp_table_count, m);
    lemma_apply_config(raw_findings(body_sql_spec(sql), temp_table_count), m);
    let r = risks_spec(sql, temp_table_count, m);
    assert forall|k: int| 0 <= k < r.len() && (#[trigger] r[k]).0 == rule_id implies r[k].1
        == severity by {
        assert(r.contains(r[k]));
        let j = choose|j: int| 0 <= j < a.len() && a[j] == r[k];
        assert(a[j].0 == rule_id);
    }
}

// ---------------------------------------------------------------------------
// Which findings a configuration reports
// ---------------------------------------------------------------------------

/// The rule is switched off.
pub open spec fn disabled(m: Map<Seq<char>, RuleConfig>, rule_id: Seq<char>) -> bool {
    m.contains_key(rule_id) && m[rule_id] == RuleConfig::Bool(false)
}

/// A finding as the configuration reports it: with the configured severity,
/// if one is set.
pub open spec fn configured(g: FindingV, m: Map<Seq<char>, RuleConfig>) -> FindingV {
    if m.contains_key(g.0) {
        match m[g.0] {
            RuleConfig::Severity(s) => (g.0, s, g.2, g.3),
            RuleConfig::Bool(_) => g,
        }
    } else {
        g
    }
}

/// Every item of `s` is an item of `t`.
pub open spec fn all_in(s: Seq<FindingV>, t: Seq<FindingV>) -> bool {
    forall|k: int| 0 <= k < s.len() ==> t.contains(#[trigger] s[k])
}

pub(crate) proof fn lemma_apply_config_members(fs: Seq<FindingV>, m: Map<Seq<char>, RuleConfig>)
    ensures
        forall|f: FindingV|
            #[trigger] apply_config(fs, m).contains(f) <==> exists|j: int|
                0 <= j < fs.len() && !disabled(m, fs[j].0) && f == configured(#[trigger] fs[j], m),
    decreases fs.len(),
{
    if fs.len() > 0 {
        let init = fs.drop_last();
        lemma_apply_config_members(init, m);
        let p = apply_config(init, m);
        let g = fs.last();
        let a = apply_config(fs, m);
        assert(a == if !disabled(m, g.0) {
            p.push(configured(g, m))
        } else {
            p
        });
        assert forall|f: FindingV|
            #[trigger] a.contains(f) <==> exists|j: int|
                0 <= j < fs.len() && !disabled(m, fs[j].0) && f == configured(#[trigger] fs[j], m) by {
            if a.contains(f) {
                if !disabled(m, g.0) && f == configured(g, m) {
                    assert(fs[fs.len() - 1] == g);
                } else {
                    assert(p.contains(f)) by {
                        if !disabled(m, g.0) {
                            let k = choose|k: int| 0 <= k < a.len() && a[k] == f;
                            assert(p[k] == f);
                        }
                    }
                    let j = choose|j: int|
                        0 <= j < init.len() && !disabled(m, init[j].0) && f == configured(
                            #[trigger] init[j],
                            m,
                        );
                    assert(fs[j] == init[j]);
                }
            }
            if exists|j: int|
                0 <= j < fs.len() && !disabled(m, fs[j].0) && f == configured(#[trigger] fs[j], m) {
                let j = choose|j: int|
                    0 <= j < fs.len() && !disabled(m, fs[j].0) && f == configured(#[trigger] fs[j], m);
                if j == fs.len() - 1 {
                    assert(a[p.len() as int] == f);
                } else {
                    assert(init[j] == fs[j]);
                    assert(p.contains(f));
                    let k = choose|k: int| 0 <= k < p.len() && p[k] == f;
                    if !disabled(m, g.0) {
                        assert(a[k] == f);
                    }
                }
            }
        }
    }
}

proof fn lemma_all_in_concat(a: Seq<FindingV>, b: Seq<FindingV>, t: Seq<FindingV>)
    requires
        all_in(a, t),
        all_in(b, t),
    ensures
        all_in(a + b, t),
{
    assert forall|k: int| 0 <= k < (a + b).len() implies t.contains(#[trigger] (a + b)[k]) by {
        if k < a.len() {
            assert((a + b)[k] == a[k]);
        } else {
            assert((a + b)[k] == b[k - a.len()]);
        }
    }
}

proof fn lemma_opt_in(b: bool, k: int)
    requires
        0 <= k < statement_and_pattern_findings().len(),
    ensures
        all_in(opt_finding(b, statement_and_pattern_findings()[k]), statement_and_pattern_findings()),
{
    let t = statement_and_pattern_findings();
    assert(t.contains(t[k]));
}

proof fn lemma_update_delete_in(stmts: Seq<Seq<char>>)
    ensures
        all_in(update_findings(stmts), statement_and_pattern_findings()),
        all_in(delete_findings(stmts), statement_and_pattern_findings()),
    decreases stmts.len(),
{
    if stmts.len() > 0 {
        lemma_update_delete_in(stmts.drop_last());
        let t = statement_and_pattern_findings();
        assert(t[4] == update_finding());
        assert(t[5] == delete_finding());
        lemma_opt_in(is_update_without_where(stmts.last()), 4);
        lemma_opt_in(is_delete_without_where(stmts.last()), 5);
        lemma_all_in_concat(
            update_findings(stmts.drop_last()),
            opt_finding(is_update_without_where(stmts.last()), update_finding()),
            t,
        );
        lemma_all_in_concat(
            delete_findings(stmts.drop_last()),
            opt_finding(is_delete_without_where(stmts.last()), delete_finding()),
            t,
        );
    }
}

spec fn leading_part(body: Seq<char>) -> Seq<FindingV> {
    leading_findings(hits_of(body))
}

spec fn trailing_part(body: Seq<char>) -> Seq<FindingV> {
    let h = hits_of(body);
    opt_finding(multi_join_aggregation(body, h), multi_join_finding()) + opt_finding(
        h.cursor,
        cursor_finding(),
    ) + opt_finding(transaction_without_trycatch(body), transaction_finding()) + opt_finding(
        trycatch_without_rollback(body),
        rollback_finding(),
    ) + opt_finding(h.date_literal, hardcoded_date_finding()) + opt_finding(
        h.status_number,
        status_finding(),
    )
}

proof fn lemma_leading_in(body: Seq<char>)
    ensures
        all_in(leading_part(body), statement_and_pattern_findings()),
{
    let h = hits_of(body);
    let t = statement_and_pattern_findings();
    assert(t[0] == select_star_finding());
    assert(t[1] == nolock_finding());
    assert(t[2] == dynamic_sql_finding());
    assert(t[3] == linked_server_finding());
    lemma_opt_in(h.select_star, 0);
    lemma_opt_in(h.nolock, 1);
    lemma_opt_in(h.exec_dynamic || h.sp_executesql, 2);
    lemma_opt_in(h.linked_server, 3);
    let o0 = opt_finding(h.select_star, select_star_finding());
    let o1 = opt_finding(h.nolock, nolock_finding());
    let o2 = opt_finding(h.exec_dynamic || h.sp_executesql, dynamic_sql_finding());
    let o3 = opt_finding(h.linked_server, linked_server_finding());
    lemma_all_in_concat(o0, o1, t);
    lemma_all_in_concat(o0 + o1, o2, t);
    lemma_all_in_concat(o0 + o1 + o2, o3, t);
}

proof fn lemma_statements_in(body: Seq<char>)
    ensures
        all_in(statement_findings(split_statements_spec(body)), statement_and_pattern_findings()),
{
    let t = statement_and_pattern_findings();
    let stmts = split_statements_spec(body);
    assert(t[6] == insert_select_finding());
    lemma_opt_in(any_insert_select(stmts), 6);
    lemma_update_delete_in(stmts);
    let u = update_findings(stmts);
    let d = delete_findings(stmts);
    let o6 = opt_finding(any_insert_select(stmts), insert_select_finding());
    lemma_all_in_concat(u, d, t);
    lemma_all_in_concat(u + d, o6, t);
}

proof fn lemma_trailing_in(body: Seq<char>)
    ensures
        all_in(trailing_part(body), statement_and_pattern_findings()),
{
    let h = hits_of(body);
    let t = statement_and_pattern_findings();
    assert(t[7] == multi_join_finding());
    assert(t[8] == cursor_finding());
    assert(t[9] == transaction_finding());
    assert(t[10] == rollback_finding());
    assert(t[11] == hardcoded_date_finding());
    assert(t[12] == status_finding());
    lemma_opt_in(multi_join_aggregation(body, h), 7);
    lemma_opt_in(h.cursor, 8);
    lemma_opt_in(transaction_without_trycatch(body), 9);
    lemma_opt_in(trycatch_without_rollback(body), 10);
    lemma_opt_in(h.date_literal, 11);
    lemma_opt_in(h.status_number, 12);
    let o7 = opt_finding(multi_join_aggregation(body, h), multi_join_finding());
    let o8 = opt_finding(h.cursor, cursor_finding());
    let o9 = opt_finding(transaction_without_trycatch(body), transaction_finding());
    let o10 = opt_finding(trycatch_without_rollback(body), rollback_finding());
    let o11 = opt_finding(h.date_literal, hardcoded_date_finding());
    let o12 = opt_finding(h.status_number, status_finding());
    lemma_all_in_concat(o7, o8, t);
    lemma_all_in_concat(o7 + o8, o9, t);
    lemma_all_in_concat(o7 + o8 + o9, o10, t);
    lemma_all_in_concat(o7 + o8 + o9 + o10, o11, t);
    lemma_all_in_concat(o7 + o8 + o9 + o10 + o11, o12, t);
}

/// The findings of every rule but the temp-table rule.
spec fn core_findings(body: Seq<char>) -> Seq<FindingV> {
    leading_part(body) + statement_findings(split_statements_spec(body)) + trailing_part(body)
}

proof fn lemma_raw_split(body: Seq<char>, n: nat)
    ensures
        raw_findings(body, n) == core_findings(body) + opt_finding(n >= 3, temp_chain_finding()),
        all_in(core_findings(body), statement_and_pattern_findings()),
{
    let t = statement_and_pattern_findings();
    assert(raw_findings(body, n) =~= core_findings(body) + opt_finding(n >= 3, temp_chain_finding()));
    lemma_leading_in(body);
    lemma_statements_in(body);
    lemma_trailing_in(body);
    lemma_all_in_concat(leading_part(body), statement_findings(split_statements_spec(body)), t);
    lemma_all_in_concat(
        leading_part(body) + statement_findings(split_statements_spec(body)),
        trailing_part(body),
        t,
    );
}

/// Every raw finding is a row of the rule table, and the temp-table finding
/// is among them exactly when there are at least three temp tables.
proof fn lemma_raw_members(body: Seq<char>, n: nat)
    ensures
        forall|k: int|
            0 <= k < raw_findings(body, n).len() ==> rule_table().contains(
                #[trigger] raw_findings(body, n)[k],
            ),
        raw_findings(body, n).contains(temp_chain_finding()) <==> n >= 3,
{
    lemma_raw_split(body, n);
    lemma_rule_ids_distinct();
    let c = core_findings(body);
    let s = statement_and_pattern_findings();
    let t = rule_table();
    let raw = raw_findings(body, n);
    assert forall|i: int| 0 <= i < s.len() implies #[trigger] s[i] == t[i] by {}
    assert(t[13] == temp_chain_finding());
    assert forall|k: int| 0 <= k < raw.len() implies t.contains(#[trigger] raw[k]) by {
        if k < c.len() {
            assert(raw[k] == c[k]);
            assert(s.contains(c[k]));
            let i = choose|i: int| 0 <= i < s.len() && s[i] == c[k];
            assert(t[i] == c[k]);
        } else {
            assert(raw[k] == temp_chain_finding());
        }
    }
    if raw.contains(temp_chain_finding()) && n < 3 {
        let k = choose|k: int| 0 <= k < raw.len() && raw[k] == temp_chain_finding();
        assert(raw[k] == c[k]);
        assert(s.contains(c[k]));
        let i = choose|i: int| 0 <= i < s.len() && s[i] == c[k];
        assert(t[i] == t[13]);
    }
    if n >= 3 {
        assert(raw[c.len() as int] == temp_chain_finding());
    }
}

/// Two findings reported under one configuration with the same rule id are
/// the same finding.
proof fn lemma_same_id_same_finding(
    sql: Seq<char>,
    temp_table_count: nat,
    m: Map<Seq<char>, RuleConfig>,
    f: FindingV,
    g: FindingV,
)
    requires
        apply_config(raw_findings(body_sql_spec(sql), temp_table_count), m).contains(f),
        apply_config(raw_findings(body_sql_spec(sql), temp_table_count), m).contains(g),
        f.0 == g.0,
    ensures
        f == g,
{
    let raw = raw_findings(body_sql_spec(sql), temp_table_count);
    lemma_apply_config_members(raw, m);
    lemma_raw_members(body_sql_spec(sql), temp_table_count);
    lemma_rule_ids_distinct();
    let t = rule_table();
    let a = choose|j: int| 0 <= j < raw.len() && !disabled(m, raw[j].0) && f == configured(#[trigger] raw[j], m);
    let b = choose|j: int| 0 <= j < raw.len() && !disabled(m, raw[j].0) && g == configured(#[trigger] raw[j], m);
    assert(t.contains(raw[a]));
    assert(t.contains(raw[b]));
    let p = choose|p: int| 0 <= p < t.len() && t[p] == raw[a];
    let q = choose|q: int| 0 <= q < t.len() && t[q] == raw[b];
    assert(t[p].0 == t[q].0);
}

/// Each rule id occurs at most once among the findings.
pub proof fn law_rule_ids_once(sql: Seq<char>, temp_table_count: nat, m: Map<Seq<char>, RuleConfig>)
    ensures
        forall|i: int, j: int|
            0 <= i < j < risks_spec(sql, temp_table_count, m).len() ==> (#[trigger] risks_spec(
                sql,
                temp_table_count,
                m,
            )[i]).0 != (#[trigger] risks_spec(sql, temp_table_count, m)[j]).0,
{
    let r = risks_spec(sql, temp_table_count, m);
    law_findings_without_repeats(sql, temp_table_count, m);
    law_findings_kept(sql, temp_table_count, m);
    assert forall|i: int, j: int| 0 <= i < j < r.len() implies (#[trigger] r[i]).0 != (
    #[trigger] r[j]).0 by {
        if r[i].0 == r[j].0 {
            assert(r.contains(r[i]));
            assert(r.contains(r[j]));
            lemma_same_id_same_finding(sql, temp_table_count, m, r[i], r[j]);
        }
    }
}

/// The findings come strictly ordered: a higher severity first, and within
/// one severity, rule ids in increasing order.
pub proof fn law_findings_strictly_ordered(
    sql: Seq<char>,
    temp_table_count: nat,
    m: Map<Seq<char>, RuleConfig>,
)
    ensures
        forall|i: int, j: int|
            0 <= i < j < risks_spec(sql, temp_table_count, m).len() ==> severity_rank(
                (#[trigger] risks_spec(sql, temp_table_count, m)[i]).1,
            ) > severity_rank((#[trigger] risks_spec(sql, temp_table_count, m)[j]).1) || (
            severity_rank(risks_spec(sql, temp_table_count, m)[i].1) == severity_rank(
                risks_spec(sql, temp_table_count, m)[j].1,
            ) && str_lt(
                risks_spec(sql, temp_table_count, m)[i].0,
                risks_spec(sql, temp_table_count, m)[j].0,
            )),
{
    let r = risks_spec(sql, temp_table_count, m);
    law_findings_by_severity(sql, temp_table_count, m);
    law_rule_ids_once(sql, temp_table_count, m);
    assert forall|i: int, j: int| 0 <= i < j < r.len() implies severity_rank(
        (#[trigger] r[i]).1,
    ) > severity_rank((#[trigger] r[j]).1) || (severity_rank(r[i].1) == severity_rank(r[j].1)
        && str_lt(r[i].0, r[j].0)) by {
        lemma_str_lt_total(r[i].0, r[j].0);
    }
}

/// With no rule configured, every finding is a row of the rule table: its
/// rule's id, default severity, message and suggestion.
pub proof fn law_default_findings_from_table(sql: Seq<char>, temp_table_count: nat)
    ensures
        forall|k: int|
            0 <= k < risks_spec(sql, temp_table_count, Map::empty()).len() ==> rule_table().contains(
                #[trigger] risks_spec(sql, temp_table_count, Map::empty())[k],
            ),
{
    let m = Map::<Seq<char>, RuleConfig>::empty();
    let r = risks_spec(sql, temp_table_count, m);
    let raw = raw_findings(body_sql_spec(sql), temp_table_count);
    law_findings_kept(sql, temp_table_count, m);
    lemma_apply_config_members(raw, m);
    lemma_raw_members(body_sql_spec(sql), temp_table_count);
    assert forall|k: int| 0 <= k < r.len() implies rule_table().contains(#[trigger] r[k]) by {
        assert(r.contains(r[k]));
        let j = choose|j: int| 0 <= j < raw.len() && !disabled(m, raw[j].0) && r[k] == configured(#[trigger] raw[j], m);
    }
}

/// The temp-table finding is reported exactly when there are at least three
/// temp tables and the rule is not switched off.
pub proof fn law_temp_table_chain(sql: Seq<char>, temp_table_count: nat, m: Map<Seq<char>, RuleConfig>)
    ensures
        (exists|k: int|
            0 <= k < risks_spec(sql, temp_table_count, m).len() && (#[trigger] risks_spec(
                sql,
                temp_table_count,
                m,
            )[k]).0 == temp_chain_finding().0) <==> (temp_table_count >= 3 && !disabled(
            m,
            temp_chain_finding().0,
        )),
{
    let r = risks_spec(sql, temp_table_count, m);
    let raw = raw_findings(body_sql_spec(sql), temp_table_count);
    let a = apply_config(raw, m);
    let tc = temp_chain_finding();
    law_findings_kept(sql, temp_table_count, m);
    lemma_apply_config_members(raw, m);
    lemma_raw_members(body_sql_spec(sql), temp_table_count);
    lemma_rule_ids_distinct();
    let t = rule_table();
    assert(t[13] == tc);
    if exists|k: int| 0 <= k < r.len() && (#[trigger] r[k]).0 == tc.0 {
        let k = choose|k: int| 0 <= k < r.len() && (#[trigger] r[k]).0 == tc.0;
        assert(r.contains(r[k]));
        let j = choose|j: int| 0 <= j < raw.len() && !disabled(m, raw[j].0) && r[k] == configured(#[trigger] raw[j], m);
        assert(t.contains(raw[j]));
        let p = choose|p: int| 0 <= p < t.len() && t[p] == raw[j];
        assert(t[p].0 == t[13].0);
        assert(raw.contains(tc));
    }
    if temp_table_count >= 3 && !disabled(m, tc.0) {
        let j = choose|j: int| 0 <= j < raw.len() && raw[j] == tc;
        assert(a.contains(configured(raw[j], m)));
        assert(r.contains(configured(tc, m)));
        let k = choose|k: int| 0 <= k < r.len() && r[k] == configured(tc, m);
        assert(r[k].0 == tc.0);
    }
}

/// The trace enters the findings only through whether it has at least three
/// temp tables.
pub proof fn law_findings_depend_on_temp_threshold(
    sql: Seq<char>,
    n1: nat,
    n2: nat,
    m: Map<Seq<char>, RuleConfig>,
)
    requires
        (n1 >= 3) == (n2 >= 3),
    ensures
        risks_spec(sql, n1, m) == risks_spec(sql, n2, m),
{
    assert(raw_findings(body_sql_spec(sql), n1) == raw_findings(body_sql_spec(sql), n2));
}

/// A configured analysis against the default one: the same rules apart from
/// those switched off, and each finding as the default reports it with the
/// configured severity, if one is set.
pub proof fn law_configured_against_default(
    sql: Seq<char>,
    temp_table_count: nat,
    m: Map<Seq<char>, RuleConfig>,
    rule_id: Seq<char>,
)
    ensures
        (exists|k: int|
            0 <= k < risks_spec(sql, temp_table_count, m).len() && (#[trigger] risks_spec(
                sql,
                temp_table_count,
                m,
            )[k]).0 == rule_id) <==> ((exists|k: int|
            0 <= k < risks_spec(sql, temp_table_count, Map::empty()).len() && (
            #[trigger] risks_spec(sql, temp_table_count, Map::empty())[k]).0 == rule_id) && !disabled(
            m,
            rule_id,
        )),
        forall|i: int, j: int|
            0 <= i < risks_spec(sql, temp_table_count, m).len() && 0 <= j < risks_spec(
                sql,
                temp_table_count,
                Map::empty(),
            ).len() && (#[trigger] risks_spec(sql, temp_table_count, m)[i]).0 == (
            #[trigger] risks_spec(sql, temp_table_count, Map::empty())[j]).0 ==> risks_spec(
                sql,
                temp_table_count,
                m,
            )[i] == configured(risks_spec(sql, temp_table_count, Map::empty())[j], m),
{
    let e = Map::<Seq<char>, RuleConfig>::empty();
    let r = risks_spec(sql, temp_table_count, m);
    let d = risks_spec(sql, temp_table_count, e);
    let raw = raw_findings(body_sql_spec(sql), temp_table_count);
    law_findings_kept(sql, temp_table_count, m);
    law_findings_kept(sql, temp_table_count, e);
    lemma_apply_config_members(raw, m);
    lemma_apply_config_members(raw, e);
    lemma_raw_members(body_sql_spec(sql), temp_table_count);
    lemma_rule_ids_distinct();
    let t = rule_table();
    assert forall|i: int, j: int|
        0 <= i < r.len() && 0 <= j < d.len() && (#[trigger] r[i]).0 == (#[trigger] d[j]).0 implies r[i]
        == configured(d[j], m) by {
        assert(r.contains(r[i]));
        assert(d.contains(d[j]));
        let a = choose|a: int| 0 <= a < raw.len() && !disabled(m, raw[a].0) && r[i] == configured(#[trigger] raw[a], m);
        let b = choose|b: int| 0 <= b < raw.len() && !disabled(e, raw[b].0) && d[j] == configured(#[trigger] raw[b], e);
        assert(t.contains(raw[a]));
        assert(t.contains(raw[b]));
        let p = choose|p: int| 0 <= p < t.len() && t[p] == raw[a];
        let q = choose|q: int| 0 <= q < t.len() && t[q] == raw[b];
        assert(t[p].0 == t[q].0);
    }
    if exists|k: int| 0 <= k < r.len() && (#[trigger] r[k]).0 == rule_id {
        let k = choose|k: int| 0 <= k < r.len() && (#[trigger] r[k]).0 == rule_id;
        assert(r.contains(r[k]));
        let a = choose|a: int| 0 <= a < raw.len() && !disabled(m, raw[a].0) && r[k] == configured(#[trigger] raw[a], m);
        assert(d.contains(configured(raw[a], e)));
        let k2 = choose|k2: int| 0 <= k2 < d.len() && d[k2] == configured(raw[a], e);
        assert(d[k2].0 == rule_id);
    }
    if (exists|k: int| 0 <= k < d.len() && (#[trigger] d[k]).0 == rule_id) && !disabled(m, rule_id) {
        let k = choose|k: int| 0 <= k < d.len() && (#[trigger] d[k]).0 == rule_id;
        assert(d.contains(d[k]));
        let b = choose|b: int| 0 <= b < raw.len() && !disabled(e, raw[b].0) && d[k] == configured(#[trigger] raw[b], e);
        assert(r.contains(configured(raw[b], m)));
        let k2 = choose|k2: int| 0 <= k2 < r.len() && r[k2] == configured(raw[b], m);
        assert(r[k2].0 == rule_id);
    }
}

proof fn lemma_highest(s: Seq<FindingV>)
    ensures
        forall|k: int| 0 <= k < s.len() ==> severity_rank(#[trigger] s[k].1) <= severity_rank(
            highest(s),
        ),
        s.len() == 0 ==> highest(s) == Severity::Low,
        s.len() > 0 ==> exists|k: int| 0 <= k < s.len() && highest(s) == #[trigger] s[k].1,
    decreases s.len(),
{
    if s.len() > 0 {
        let init = s.drop_last();
        lemma_highest(init);
        assert forall|k: int| 0 <= k < s.len() implies severity_rank(#[trigger] s[k].1)
            <= severity_rank(highest(s)) by {
            if k < s.len() - 1 {
                assert(init[k] == s[k]);
            }
        }
        if init.len() > 0 && highest(s) == highest(init) {
            let k = choose|k: int| 0 <= k < init.len() && highest(init) == #[trigger] init[k].1;
            assert(s[k] == init[k]);
        } else {
            assert(highest(s) == s[s.len() - 1].1);
        }
    }
}

/// The risk level of an analysed procedure is the highest severity among its
/// findings, which is the severity of the first finding; `Low` when there are
/// none.
pub proof fn law_risk_level_is_highest(sql: Seq<char>, m: Map<Seq<char>, RuleConfig>, t: ProcedureTrace)
    requires
        is_trace_of(sql, m, t),
    ensures
        forall|k: int|
            0 <= k < t.risks@.len() ==> severity_rank((#[trigger] t.risks@[k]).severity)
                <= severity_rank(t.metrics.risk_level),
        t.risks@.len() == 0 ==> t.metrics.risk_level == Severity::Low,
        t.risks@.len() > 0 ==> t.metrics.risk_level == t.risks@[0].severity,
{
    let rv = risks_view(t.risks@);
    lemma_highest(rv);
    law_findings_by_severity(sql, t.temp_tables@.len(), m);
    assert forall|k: int| 0 <= k < t.risks@.len() implies severity_rank(
        (#[trigger] t.risks@[k]).severity,
    ) <= severity_rank(t.metrics.risk_level) by {
        assert(rv[k].1 == t.risks@[k].severity);
    }
    if t.risks@.len() > 0 {
        let k = choose|k: int| 0 <= k < rv.len() && highest(rv) == #[trigger] rv[k].1;
        assert(rv[0].1 == t.risks@[0].severity);
        if k > 0 {
            assert(severity_rank(rv[0].1) >= severity_rank(rv[k].1));
        }
        assert(severity_rank(rv[0].1) <= severity_rank(highest(rv)));
    }
}

// ---------------------------------------------------------------------------
// Comments
// ---------------------------------------------------------------------------

proof fn lemma_count_char_concat(a: Seq<char>, b: Seq<char>, c: char)
    ensures
        count_char(a + b, c) == count_char(a, c) + count_char(b, c),
    decreases b.len(),
{
    if b.len() > 0 {
        lemma_count_char_concat(a, b.drop_last(), c);
        assert((a + b).drop_last() =~= a + b.drop_last());
    } else {
        assert(a + b =~= a);
    }
}

proof fn lemma_count_char_single(x: char, c: char)
    ensures
        count_char(seq![x], c) == (if x == c { 1nat } else { 0nat }),
{
    assert(seq![x].drop_last() =~= Seq::<char>::empty());
    reveal_with_fuel(count_char, 2);
}

/// The text from position `i` on.
spec fn rest(s: Seq<char>, i: int) -> Seq<char> {
    if 0 <= i <= s.len() {
        s.subrange(i, s.len() as int)
    } else {
        seq![]
    }
}

proof fn lemma_rest_step(s: Seq<char>, i: int)
    requires
        0 <= i < s.len(),
    ensures
        rest(s, i) == seq![s[i]] + rest(s, i + 1),
{
    assert(rest(s, i) =~= seq![s[i]] + rest(s, i + 1));
}

proof fn lemma_strip_from(s: Seq<char>, i: int, m: Lex)
    ensures
        strip_from(s, i, m).len() <= rest(s, i).len(),
        count_char(strip_from(s, i, m), '\n') == count_char(rest(s, i), '\n'),
    decreases s.len() - i,
{
    if 0 <= i < s.len() {
        let c = s[i];
        lemma_rest_step(s, i);
        lemma_count_char_concat(seq![c], rest(s, i + 1), '\n');
        lemma_count_char_single(c, '\n');
        lemma_strip_from(s, i + 1, m);
        lemma_strip_from(s, i + 1, Lex::Code);
        lemma_strip_from(s, i + 1, Lex::SingleQuoted);
        lemma_strip_from(s, i + 1, Lex::DoubleQuoted);
        lemma_strip_from(s, i + 1, Lex::Bracketed);
        lemma_strip_from(s, i + 1, Lex::LineComment);
        lemma_strip_from(s, i + 1, Lex::BlockComment);
        if i + 1 < s.len() {
            lemma_rest_step(s, i + 1);
            let d = s[i + 1];
            lemma_count_char_concat(seq![d], rest(s, i + 2), '\n');
            lemma_count_char_single(d, '\n');
            lemma_strip_from(s, i + 2, m);
            lemma_strip_from(s, i + 2, Lex::Code);
            lemma_strip_from(s, i + 2, Lex::LineComment);
            lemma_strip_from(s, i + 2, Lex::BlockComment);
            let q = closer(m);
            lemma_count_char_concat(seq![c, q], strip_from(s, i + 2, m), '\n');
            assert(count_char(seq![c, q], '\n') == count_char(seq![c], '\n') + count_char(
                seq![q],
                '\n',
            )) by {
                lemma_count_char_concat(seq![c], seq![q], '\n');
                assert(seq![c] + seq![q] =~= seq![c, q]);
                lemma_count_char_single(q, '\n');
            }
        }
        lemma_count_char_concat(seq![c], strip_from(s, i + 1, m), '\n');
        lemma_count_char_concat(seq![c], strip_from(s, i + 1, Lex::Code), '\n');
        lemma_count_char_concat(seq![c], strip_from(s, i + 1, Lex::SingleQuoted), '\n');
        lemma_count_char_concat(seq![c], strip_from(s, i + 1, Lex::DoubleQuoted), '\n');
        lemma_count_char_concat(seq![c], strip_from(s, i + 1, Lex::Bracketed), '\n');
        lemma_count_char_concat(seq!['\n'], strip_from(s, i + 1, Lex::Code), '\n');
        lemma_count_char_concat(seq!['\n'], strip_from(s, i + 1, Lex::BlockComment), '\n');
        lemma_count_char_single('\n', '\n');
    }
}

/// Removing comments never makes a text longer.
pub proof fn law_strip_comments_never_longer(s: Seq<char>)
    ensures
        strip_comments_spec(s).len() <= s.len(),
{
    lemma_strip_from(s, 0, Lex::Code);
    assert(rest(s, 0) =~= s);
}

/// Removing comments keeps every line break, so line numbers stay as they were.
pub proof fn law_strip_comments_keeps_lines(s: Seq<char>)
    ensures
        count_char(strip_comments_spec(s), '\n') == count_char(s, '\n'),
{
    lemma_strip_from(s, 0, Lex::Code);
    assert(rest(s, 0) =~= s);
}

proof fn lemma_strip_identity(s: Seq<char>, i: int, m: Lex)
    requires
        !contains(s, "--"@),
        !contains(s, "/*"@),
        m != Lex::LineComment,
        m != Lex::BlockComment,
    ensures
        strip_from(s, i, m) == rest(s, i),
    decreases s.len() - i,
{
    if 0 <= i < s.len() {
        reveal_strlit("--");
        reveal_strlit("/*");
        lemma_rest_step(s, i);
        let c = s[i];
        if i + 1 < s.len() {
            if c == '-' && s[i + 1] == '-' {
                assert(occurs_at(s, "--"@, i)) by {
                    assert(s.subrange(i, i + 2) =~= "--"@);
                }
            }
            if c == '/' && s[i + 1] == '*' {
                assert(occurs_at(s, "/*"@, i)) by {
                    assert(s.subrange(i, i + 2) =~= "/*"@);
                }
            }
            lemma_rest_step(s, i + 1);
            lemma_strip_identity(s, i + 2, m);
            if c == closer(m) && s[i + 1] == closer(m) {
                assert(seq![c, closer(m)] + rest(s, i + 2) =~= seq![c] + (seq![s[i + 1]] + rest(
                    s,
                    i + 2,
                )));
            }
        }
        lemma_strip_identity(s, i + 1, m);
        lemma_strip_identity(s, i + 1, Lex::Code);
        lemma_strip_identity(s, i + 1, Lex::SingleQuoted);
        lemma_strip_identity(s, i + 1, Lex::DoubleQuoted);
        lemma_strip_identity(s, i + 1, Lex::Bracketed);
    }
}

/// A text without `--` and `/*` has no comment: removing comments leaves it
/// as it is.
pub proof fn law_strip_comments_identity(s: Seq<char>)
    requires
        !contains(s, "--"@),
        !contains(s, "/*"@),
    ensures
        strip_comments_spec(s) == s,
{
    lemma_strip_identity(s, 0, Lex::Code);
    assert(rest(s, 0) =~= s);
}

// ---------------------------------------------------------------------------
// File names
// ---------------------------------------------------------------------------

/// A character that can stand in a report's file name.
pub open spec fn is_name_char(c: char) -> bool {
    ('0' <= c <= '9') || ('a' <= c <= 'z') || c == '_' || c == '-' || c == '.'
}

/// No `_` directly follows another.
pub open spec fn no_double_underscore(s: Seq<char>) -> bool {
    forall|k: int| 0 <= k < s.len() - 1 ==> !(#[trigger] s[k] == '_' && s[k + 1] == '_')
}

proof fn lemma_safe_char(c: char)
    ensures
        is_name_char(safe_char(c)),
        is_name_char(c) ==> safe_char(c) == c,
{
    if 'A' <= c <= 'Z' {
        assert((c as u8) as int == c as int);
        assert('a' <= ascii_lower(c) <= 'z');
    }
}

proof fn lemma_collapse(s: Seq<char>)
    ensures
        no_double_underscore(collapse_underscores(s)),
        (forall|k: int| 0 <= k < s.len() ==> is_name_char(#[trigger] s[k])) ==> forall|k: int|
            0 <= k < collapse_underscores(s).len() ==> is_name_char(
                #[trigger] collapse_underscores(s)[k],
            ),
        no_double_underscore(s) ==> collapse_underscores(s) == s,
    decreases s.len(),
{
    if s.len() > 0 {
        let init = s.drop_last();
        lemma_collapse(init);
        let p = collapse_underscores(init);
        if forall|k: int| 0 <= k < s.len() ==> is_name_char(#[trigger] s[k]) {
            assert forall|k: int| 0 <= k < init.len() implies is_name_char(#[trigger] init[k]) by {
                assert(init[k] == s[k]);
            }
        }
        if no_double_underscore(s) {
            assert forall|k: int| 0 <= k < init.len() - 1 implies !(#[trigger] init[k] == '_'
                && init[k + 1] == '_') by {
                assert(init[k] == s[k] && init[k + 1] == s[k + 1]);
            }
            if init.len() > 0 {
                assert(!(s[s.len() - 2] == '_' && s[s.len() - 1] == '_'));
            }
            assert(s =~= init.push(s.last()));
        }
        if !(s.last() == '_' && p.len() > 0 && p.last() == '_') {
            let q = p.push(s.last());
            assert forall|k: int| 0 <= k < q.len() - 1 implies !(#[trigger] q[k] == '_' && q[k + 1]
                == '_') by {
                if k < p.len() - 1 {
                    assert(q[k] == p[k] && q[k + 1] == p[k + 1]);
                }
            }
        }
    }
}

proof fn lemma_trim_start_in(s: Seq<char>, set: Seq<char>)
    ensures
        exists|a: int| 0 <= a <= s.len() && trim_start_in(s, set) == s.subrange(a, s.len() as int),
        trim_start_in(s, set).len() > 0 ==> !set.contains(trim_start_in(s, set)[0]),
    decreases s.len(),
{
    if s.len() > 0 && set.contains(s[0]) {
        lemma_trim_start_in(s.drop_first(), set);
        let a = choose|a: int|
            0 <= a <= s.drop_first().len() && trim_start_in(s.drop_first(), set)
                == s.drop_first().subrange(a, s.drop_first().len() as int);
        assert(s.drop_first().subrange(a, s.drop_first().len() as int) =~= s.subrange(
            a + 1,
            s.len() as int,
        ));
    } else {
        assert(s.subrange(0, s.len() as int) =~= s);
    }
}

pub(crate) proof fn lemma_trim_end_in(s: Seq<char>, set: Seq<char>)
    ensures
        exists|b: int| 0 <= b <= s.len() && trim_end_in(s, set) == s.subrange(0, b),
        trim_end_in(s, set).len() > 0 ==> !set.contains(trim_end_in(s, set).last()),
    decreases s.len(),
{
    if s.len() > 0 && set.contains(s.last()) {
        lemma_trim_end_in(s.drop_last(), set);
        let b = choose|b: int|
            0 <= b <= s.drop_last().len() && trim_end_in(s.drop_last(), set)
                == s.drop_last().subrange(0, b);
        assert(s.drop_last().subrange(0, b) =~= s.subrange(0, b));
    } else {
        assert(s.subrange(0, s.len() as int) =~= s);
    }
}

/// A sanitized file name holds only lower-case letters, digits, `_`, `-` and
/// `.`, never two `_` in a row, and neither starts nor ends with `_`.
pub proof fn law_sanitized_name_shape(v: Seq<char>)
    ensures
        forall|k: int| 0 <= k < sanitize_spec(v).len() ==> is_name_char(#[trigger] sanitize_spec(v)[k]),
        no_double_underscore(sanitize_spec(v)),
        sanitize_spec(v).len() > 0 ==> sanitize_spec(v)[0] != '_' && sanitize_spec(v).last() != '_',
{
    reveal_strlit("_");
    let m = v.map_values(|c: char| safe_char(c));
    assert forall|k: int| 0 <= k < m.len() implies is_name_char(#[trigger] m[k]) by {
        lemma_safe_char(v[k]);
    }
    lemma_collapse(m);
    let c = collapse_underscores(m);
    lemma_trim_start_in(c, "_"@);
    let t = trim_start_in(c, "_"@);
    let a = choose|a: int| 0 <= a <= c.len() && t == c.subrange(a, c.len() as int);
    lemma_trim_end_in(t, "_"@);
    let r = trim_end_in(t, "_"@);
    let b = choose|b: int| 0 <= b <= t.len() && r == t.subrange(0, b);
    assert(r == sanitize_spec(v));
    assert forall|k: int| 0 <= k < r.len() implies is_name_char(#[trigger] r[k]) by {
        assert(r[k] == c[a + k]);
    }
    assert forall|k: int| 0 <= k < r.len() - 1 implies !(#[trigger] r[k] == '_' && r[k + 1] == '_') by {
        assert(r[k] == c[a + k] && r[k + 1] == c[a + k + 1]);
    }
    if r.len() > 0 {
        assert(r[0] == t[0]);
        assert(!"_"@.contains(r.last()));
        if r.last() == '_' {
            assert("_"@[0] == '_');
        }
        if t[0] == '_' {
            assert("_"@[0] == '_');
        }
    }
}

/// Sanitizing a sanitized file name changes nothing.
pub proof fn law_sanitize_idempotent(v: Seq<char>)
    ensures
        sanitize_spec(sanitize_spec(v)) == sanitize_spec(v),
{
    reveal_strlit("_");
    let r = sanitize_spec(v);
    law_sanitized_name_shape(v);
    let m = r.map_values(|c: char| safe_char(c));
    assert forall|k: int| 0 <= k < r.len() implies #[trigger] m[k] == r[k] by {
        lemma_safe_char(r[k]);
    }
    assert(m =~= r);
    lemma_collapse(r);
    if r.len() > 0 {
        assert(!"_"@.contains(r[0])) by {
            if "_"@.contains(r[0]) {
                let j = choose|j: int| 0 <= j < "_"@.len() && "_"@[j] == r[0];
            }
        }
        assert(!"_"@.contains(r.last())) by {
            if "_"@.contains(r.last()) {
                let j = choose|j: int| 0 <= j < "_"@.len() && "_"@[j] == r.last();
            }
        }
    }
    assert(trim_start_in(r, "_"@) == r);
    assert(trim_end_in(r, "_"@) == r);
}

// ---------------------------------------------------------------------------
// Dependencies, temp tables, groups, differences
// ---------------------------------------------------------------------------

/// `extract_dependencies` reports each (object, operation, clause) once.
pub proof fn law_dependencies_without_repeats(sql: Seq<char>)
    ensures
        dependencies_spec(sql).no_duplicates(),
{
    lemma_dedup_first(seconds_of_candidates(sql));
}

spec fn seconds_of_candidates(sql: Seq<char>) -> Seq<DepV> {
    crate::parser::seconds(
        crate::parser::sort_by_pos(
            crate::parser::all_candidates(
                crate::normalizer::split_statements_spec(body_sql_spec(sql)),
            ),
        ),
    )
}

/// `extract_temp_tables` lists the temp tables found in strictly increasing
/// order: sorted, each once, and every one that was found.
pub proof fn law_temp_tables_sorted(sql: Seq<char>)
    ensures
        sorted_strict(sorted_set(temp_tables_found(sql))),
        same_items(sorted_set(temp_tables_found(sql)), temp_tables_found(sql)),
{
    lemma_sorted_set(temp_tables_found(sql));
}

proof fn lemma_minus(a: Seq<Seq<char>>, b: Seq<Seq<char>>)
    ensures
        forall|x: Seq<char>| #[trigger] minus(a, b).contains(x) <==> a.contains(x) && !b.contains(x),
    decreases a.len(),
{
    if a.len() > 0 {
        let init = a.drop_last();
        lemma_minus(init, b);
        let p = minus(init, b);
        assert forall|x: Seq<char>| minus(a, b).contains(x) <==> a.contains(x) && !b.contains(x) by {
            if a.contains(x) {
                let k = choose|k: int| 0 <= k < a.len() && a[k] == x;
                if k < a.len() - 1 {
                    assert(init[k] == x);
                }
            }
            if init.contains(x) {
                let k = choose|k: int| 0 <= k < init.len() && init[k] == x;
                assert(a[k] == x);
            }
            if !b.contains(a.last()) {
                if p.push(a.last()).contains(x) {
                    let k = choose|k: int| 0 <= k < p.len() + 1 && p.push(a.last())[k] == x;
                    if k < p.len() {
                        assert(p[k] == x);
                    }
                }
                if p.contains(x) {
                    let k = choose|k: int| 0 <= k < p.len() && p[k] == x;
                    assert(p.push(a.last())[k] == x);
                }
                assert(p.push(a.last())[p.len() as int] == a.last());
            }
            assert(a[a.len() - 1] == a.last());
        }
    }
}

/// `set_diff` lists, in strictly increasing order, exactly the items of the
/// first list that the second lacks.
pub proof fn law_set_diff(a: Seq<Seq<char>>, b: Seq<Seq<char>>)
    ensures
        sorted_strict(set_diff_spec(a, b)),
        forall|x: Seq<char>| #[trigger] set_diff_spec(a, b).contains(x) <==> a.contains(x) && !b.contains(x),
{
    lemma_minus(a, b);
    lemma_sorted_set(minus(a, b));
}

/// A list differs from itself in nothing.
pub proof fn law_set_diff_of_itself(a: Seq<Seq<char>>)
    ensures
        set_diff_spec(a, a) == Seq::<Seq<char>>::empty(),
{
    lemma_minus(a, a);
    lemma_sorted_set(minus(a, a));
    let d = sorted_set(minus(a, a));
    if d.len() > 0 {
        let x = d[0];
        assert(d.contains(x));
        assert(minus(a, a).contains(x));
        assert(!minus(a, a).contains(x));
    }
    assert(d =~= Seq::<Seq<char>>::empty());
}

/// Each group of dependency objects names each object once, and names exactly
/// the objects of the dependencies that belong to the group.
pub proof fn law_group_objects(ds: Seq<DepV>, k: GroupKind)
    ensures
        group(ds, k).no_duplicates(),
        forall|x: Seq<char>|
            group(ds, k).contains(x) <==> exists|i: int|
                0 <= i < ds.len() && in_group(#[trigger] ds[i], k) && ds[i].0 == x,
    decreases ds.len(),
{
    if ds.len() > 0 {
        let init = ds.drop_last();
        law_group_objects(init, k);
        let p = group(init, k);
        let d = ds.last();
        assert forall|x: Seq<char>|
            group(ds, k).contains(x) <==> exists|i: int|
                0 <= i < ds.len() && in_group(#[trigger] ds[i], k) && ds[i].0 == x by {
            if exists|i: int| 0 <= i < ds.len() && in_group(#[trigger] ds[i], k) && ds[i].0 == x {
                let i = choose|i: int| 0 <= i < ds.len() && in_group(#[trigger] ds[i], k) && ds[i].0 == x;
                if i < ds.len() - 1 {
                    assert(init[i] == ds[i]);
                    assert(p.contains(x));
                    if in_group(d, k) && !p.contains(d.0) {
                        let j = choose|j: int| 0 <= j < p.len() && p[j] == x;
                        assert(p.push(d.0)[j] == x);
                    }
                } else {
                    assert(ds[i] == d);
                    if !p.contains(d.0) {
                        assert(p.push(d.0)[p.len() as int] == x);
                    }
                }
            }
            if group(ds, k).contains(x) {
                if in_group(d, k) && !p.contains(d.0) {
                    let j = choose|j: int| 0 <= j < p.len() + 1 && p.push(d.0)[j] == x;
                    if j < p.len() {
                        assert(p[j] == x);
                        assert(p.contains(x));
                        let i = choose|i: int| 0 <= i < init.len() && in_group(#[trigger] init[i], k) && init[i].0 == x;
                        assert(ds[i] == init[i]);
                    } else {
                        assert(ds[ds.len() - 1] == d);
                    }
                } else {
                    let i = choose|i: int| 0 <= i < init.len() && in_group(#[trigger] init[i], k) && init[i].0 == x;
                    assert(ds[i] == init[i]);
                }
            }
        }
        if in_group(d, k) && !p.contains(d.0) {
            let q = p.push(d.0);
            assert forall|i: int, j: int| 0 <= i < q.len() && 0 <= j < q.len() && i != j implies q[i]
                != q[j] by {
                if i == p.len() {
                    assert(q[j] == p[j]);
                } else if j == p.len() {
                    assert(q[i] == p[i]);
                } else {
                    assert(q[i] == p[i] && q[j] == p[j]);
                }
            }
        }
    }
}

/// The diff text of a trace against itself after its overview: every
/// section lists nothing, and the risk counts agree.
pub open spec fn unchanged_sections(risk_count: nat) -> Seq<char> {
    let none = Seq::<Seq<char>>::empty();
    "## Parameter Changes\n"@ + section("Added"@, none) + section("Removed"@, none) + "\n"@
        + ("## Dependency Changes\n"@ + section("New Tables Read"@, none) + section(
        "Removed Tables Read"@,
        none,
    ) + section("New Tables Written"@, none) + section("Removed Tables Written"@, none) + section(
        "New Procedures Executed"@,
        none,
    ) + section("Removed Procedures Executed"@, none) + "\n"@) + ("## Temp Table Changes\n"@
        + section("New Temp Tables"@, none) + section("Removed Temp Tables"@, none) + "\n"@
        + "## Risk Changes\n"@ + section("Added Risks"@, none) + section("Removed Risks"@, none)
        + "- Before Count: "@ + decimal(risk_count) + "\n- After Count: "@ + decimal(risk_count)
        + "\n\n"@)
}

/// A trace compared with itself shows no change in any section.
pub proof fn law_diff_of_itself(t: ProcedureTrace, before_label: Seq<char>, after_label: Seq<char>)
    ensures
        diff_spec(t, t, before_label, after_label) == diff_overview(t, t, before_label, after_label)
            + unchanged_sections(t.risks@.len()),
{
    let ds = deps_view(t.dependencies@);
    law_set_diff_of_itself(parameter_set_spec(t));
    law_set_diff_of_itself(group(ds, GroupKind::Reads));
    law_set_diff_of_itself(group(ds, GroupKind::Writes));
    law_set_diff_of_itself(group(ds, GroupKind::Executes));
    law_set_diff_of_itself(sviews(t.temp_tables@));
    law_set_diff_of_itself(risk_rule_set_spec(t));
    assert(diff_spec(t, t, before_label, after_label) =~= diff_overview(
        t,
        t,
        before_label,
        after_label,
    ) + unchanged_sections(t.risks@.len()));
}

// ---------------------------------------------------------------------------
// Statements
// ---------------------------------------------------------------------------

proof fn lemma_tidy(xs: Seq<Seq<char>>)
    ensures
        forall|k: int|
            0 <= k < tidy(xs).len() ==> (#[trigger] tidy(xs)[k]).len() > 0 && trim(tidy(xs)[k])
                == tidy(xs)[k],
    decreases xs.len(),
{
    if xs.len() > 0 {
        lemma_tidy(xs.drop_last());
        lemma_trim_idempotent(xs.last());
        let p = tidy(xs.drop_last());
        let t = trim(xs.last());
        if t.len() > 0 {
            assert forall|k: int| 0 <= k < p.push(t).len() implies (#[trigger] p.push(t)[k]).len() > 0
                && trim(p.push(t)[k]) == p.push(t)[k] by {
                if k < p.len() {
                    assert(p.push(t)[k] == p[k]);
                }
            }
        }
    }
}

/// Every statement of `split_statements` is non-empty and has no white space
/// at either end.
pub proof fn law_statements_trimmed(sql: Seq<char>)
    ensures
        forall|k: int|
            0 <= k < split_statements_spec(sql).len() ==> (#[trigger] split_statements_spec(
                sql,
            )[k]).len() > 0 && trim(split_statements_spec(sql)[k]) == split_statements_spec(sql)[k],
{
    lemma_tidy(
        crate::normalizer::batches_from(
            crate::normalizer::lines(strip_comments_spec(sql)),
            0,
            seq![],
            false,
        ),
    );
}

// ---------------------------------------------------------------------------
// Shapes of the extracted parts
// ---------------------------------------------------------------------------

/// The body is trimmed; without a procedure header, or without an `AS` after
/// it, it is the whole comment-free text, trimmed.
pub proof fn law_body_shape(sql: Seq<char>)
    ensures
        trim(body_sql_spec(sql)) == body_sql_spec(sql),
        decl_end(strip_comments_spec(sql)) is None ==> body_sql_spec(sql) == trim(
            strip_comments_spec(sql),
        ),
        decl_end(strip_comments_spec(sql)) matches Some(e) && body_start(strip_comments_spec(sql), e)
            is None ==> body_sql_spec(sql) == trim(strip_comments_spec(sql)),
{
    let st = strip_comments_spec(sql);
    lemma_trim_idempotent(st);
    match decl_end(st) {
        Some(e) => match body_start(st, e) {
            Some(b) => lemma_trim_idempotent(st.skip(b)),
            None => {},
        },
        None => {},
    }
}

proof fn lemma_cleaned_len(stmts: Seq<Seq<char>>)
    ensures
        cleaned_statements(stmts).len() <= stmts.len(),
    decreases stmts.len(),
{
    if stmts.len() > 0 {
        lemma_cleaned_len(stmts.drop_last());
    }
}

/// There are at most as many statement summaries as split statements of the
/// body, and they are numbered from 1.
pub proof fn law_summary_count(sql: Seq<char>)
    ensures
        summaries_spec(sql).len() <= split_statements_spec(body_sql_spec(sql)).len(),
        forall|k: int| 0 <= k < summaries_spec(sql).len() ==> (#[trigger] summaries_spec(sql)[k]).0
            == (k + 1) as usize,
{
    lemma_cleaned_len(split_statements_spec(body_sql_spec(sql)));
}

/// The operation and clause pairs a dependency can have.
pub open spec fn allowed_dependency_kind(op: Operation, source: Seq<char>) -> bool {
    ||| op == Operation::Read && (source == "FROM"@ || source == "JOIN"@ || source == "USING"@)
    ||| op == Operation::Write && (source == "SELECT INTO"@ || source == "INSERT INTO"@ || source
        == "UPDATE"@ || source == "DELETE FROM"@ || source == "MERGE INTO"@)
    ||| op == Operation::Execute && source == "EXEC"@
}

/// A non-empty object with an allowed operation and clause.
pub open spec fn dependency_shape(d: DepV) -> bool {
    d.0.len() > 0 && allowed_dependency_kind(d.1, d.2)
}

pub open spec fn candidates_shaped(s: Seq<(usize, DepV)>) -> bool {
    forall|k: int| 0 <= k < s.len() ==> dependency_shape((#[trigger] s[k]).1)
}

proof fn lemma_shaped_concat(a: Seq<(usize, DepV)>, b: Seq<(usize, DepV)>)
    requires
        candidates_shaped(a),
        candidates_shaped(b),
    ensures
        candidates_shaped(a + b),
{
    assert forall|k: int| 0 <= k < (a + b).len() implies dependency_shape((#[trigger] (a + b)[k]).1) by {
        if k < a.len() {
            assert((a + b)[k] == a[k]);
        } else {
            assert((a + b)[k] == b[k - a.len()]);
        }
    }
}

proof fn lemma_candidates_of_shaped(
    body: Seq<char>,
    caps: Seq<Option<(usize, usize)>>,
    op: Operation,
    source: Seq<char>,
    skip: Option<Seq<Seq<char>>>,
)
    requires
        allowed_dependency_kind(op, source),
    ensures
        candidates_shaped(candidates_of(body, caps, op, source, skip)),
    decreases caps.len(),
{
    if caps.len() > 0 {
        lemma_candidates_of_shaped(body, caps.drop_last(), op, source, skip);
        let p = candidates_of(body, caps.drop_last(), op, source, skip);
        match candidate(body, caps.last(), op, source, skip) {
            Some(c) => {
                assert forall|k: int| 0 <= k < p.push(c).len() implies dependency_shape(
                    (#[trigger] p.push(c)[k]).1,
                ) by {
                    if k < p.len() {
                        assert(p.push(c)[k] == p[k]);
                    }
                }
            },
            None => {},
        }
    }
}

proof fn lemma_collect_shaped(
    body: Seq<char>,
    pattern: Seq<char>,
    op: Operation,
    source: Seq<char>,
    skip: Option<Seq<Seq<char>>>,
)
    requires
        allowed_dependency_kind(op, source),
    ensures
        candidates_shaped(collect_spec(body, pattern, op, source, skip)),
{
    match regex_captures_iter(pattern, body) {
        Some(caps) => if crate::parser::captures_ok(body, caps) {
            lemma_candidates_of_shaped(body, caps, op, source, skip)
        },
        None => {},
    }
}

proof fn lemma_stmt_candidates_shaped(stmt: Seq<char>)
    ensures
        candidates_shaped(stmt_candidates(stmt)),
{
    let w1 = collect_spec(stmt, SELECT_INTO_PATTERN@, Operation::Write, "SELECT INTO"@, None);
    let w2 = collect_spec(stmt, INSERT_INTO_PATTERN@, Operation::Write, "INSERT INTO"@, None);
    let w3 = collect_spec(stmt, UPDATE_PATTERN@, Operation::Write, "UPDATE"@, None);
    let w4 = collect_spec(stmt, DELETE_PATTERN@, Operation::Write, "DELETE FROM"@, None);
    let w5 = collect_spec(stmt, MERGE_INTO_PATTERN@, Operation::Write, "MERGE INTO"@, None);
    lemma_collect_shaped(stmt, SELECT_INTO_PATTERN@, Operation::Write, "SELECT INTO"@, None);
    lemma_collect_shaped(stmt, INSERT_INTO_PATTERN@, Operation::Write, "INSERT INTO"@, None);
    lemma_collect_shaped(stmt, UPDATE_PATTERN@, Operation::Write, "UPDATE"@, None);
    lemma_collect_shaped(stmt, DELETE_PATTERN@, Operation::Write, "DELETE FROM"@, None);
    lemma_collect_shaped(stmt, MERGE_INTO_PATTERN@, Operation::Write, "MERGE INTO"@, None);
    lemma_shaped_concat(w1, w2);
    lemma_shaped_concat(w1 + w2, w3);
    lemma_shaped_concat(w1 + w2 + w3, w4);
    lemma_shaped_concat(w1 + w2 + w3 + w4, w5);
    let w = write_candidates(stmt);
    assert(w == w1 + w2 + w3 + w4 + w5);
    let t = Some(objects_of(w));
    let r1 = collect_spec(stmt, FROM_PATTERN@, Operation::Read, "FROM"@, t);
    let r2 = collect_spec(stmt, JOIN_PATTERN@, Operation::Read, "JOIN"@, t);
    let r3 = collect_spec(stmt, USING_PATTERN@, Operation::Read, "USING"@, t);
    let x = collect_spec(stmt, EXEC_PATTERN@, Operation::Execute, "EXEC"@, None);
    lemma_collect_shaped(stmt, FROM_PATTERN@, Operation::Read, "FROM"@, t);
    lemma_collect_shaped(stmt, JOIN_PATTERN@, Operation::Read, "JOIN"@, t);
    lemma_collect_shaped(stmt, USING_PATTERN@, Operation::Read, "USING"@, t);
    lemma_collect_shaped(stmt, EXEC_PATTERN@, Operation::Execute, "EXEC"@, None);
    lemma_shaped_concat(w, r1);
    lemma_shaped_concat(w + r1, r2);
    lemma_shaped_concat(w + r1 + r2, r3);
    lemma_shaped_concat(w + r1 + r2 + r3, x);
}

proof fn lemma_all_candidates_shaped(stmts: Seq<Seq<char>>)
    ensures
        candidates_shaped(all_candidates(stmts)),
    decreases stmts.len(),
{
    if stmts.len() > 0 {
        lemma_all_candidates_shaped(stmts.drop_last());
        let t = trim(stmts.last());
        if t.len() > 0 {
            lemma_stmt_candidates_shaped(t);
            lemma_shaped_concat(all_candidates(stmts.drop_last()), stmt_candidates(t));
        } else {
            assert(all_candidates(stmts) =~= all_candidates(stmts.drop_last()));
        }
    }
}

proof fn lemma_sort_by_pos_shaped(s: Seq<(usize, DepV)>)
    requires
        candidates_shaped(s),
    ensures
        candidates_shaped(sort_by_pos(s)),
    decreases s.len(),
{
    if s.len() > 0 {
        assert forall|k: int| 0 <= k < s.drop_last().len() implies dependency_shape(
            (#[trigger] s.drop_last()[k]).1,
        ) by {
            assert(s.drop_last()[k] == s[k]);
        }
        lemma_sort_by_pos_shaped(s.drop_last());
        let p = sort_by_pos(s.drop_last());
        let x = s.last();
        assert(dependency_shape(s[s.len() - 1].1));
        let i = first_greater(p, x.0, 0);
        lemma_first_greater_bounds(p, x.0, 0);
        let q = p.insert(i, x);
        assert forall|k: int| 0 <= k < q.len() implies dependency_shape((#[trigger] q[k]).1) by {
            if k < i {
                assert(q[k] == p[k]);
            } else if k > i {
                assert(q[k] == p[k - 1]);
            }
        }
    }
}

proof fn lemma_first_greater_bounds(s: Seq<(usize, DepV)>, key: usize, i: int)
    requires
        0 <= i <= s.len(),
    ensures
        i <= first_greater(s, key, i) <= s.len(),
    decreases s.len() - i,
{
    if i < s.len() && !(s[i].0 > key) {
        lemma_first_greater_bounds(s, key, i + 1);
    }
}

/// Every dependency names a non-empty object, with one of the operation and
/// clause pairs the extractor knows: reads from `FROM`, `JOIN`, `USING`;
/// writes from `SELECT INTO`, `INSERT INTO`, `UPDATE`, `DELETE FROM`,
/// `MERGE INTO`; calls from `EXEC`.
pub proof fn law_dependency_shape(sql: Seq<char>)
    ensures
        forall|k: int|
            0 <= k < dependencies_spec(sql).len() ==> dependency_shape(
                #[trigger] dependencies_spec(sql)[k],
            ),
{
    let c = all_candidates(split_statements_spec(body_sql_spec(sql)));
    lemma_all_candidates_shaped(split_statements_spec(body_sql_spec(sql)));
    lemma_sort_by_pos_shaped(c);
    let s = crate::parser::seconds(sort_by_pos(c));
    lemma_dedup_first(s);
    let d = dependencies_spec(sql);
    assert forall|k: int| 0 <= k < d.len() implies dependency_shape(#[trigger] d[k]) by {
        assert(d.contains(d[k]));
        assert(s.contains(d[k]));
        let j = choose|j: int| 0 <= j < s.len() && s[j] == d[k];
        assert(s[j] == sort_by_pos(c)[j].1);
    }
}

/// The characters of a word are not white space.
pub open spec fn no_white_space(w: Seq<char>) -> bool {
    forall|j: int| 0 <= j < w.len() ==> !is_ws(#[trigger] w[j])
}

proof fn lemma_words_from(s: Seq<char>, i: int, cur: Seq<char>)
    requires
        no_white_space(cur),
    ensures
        forall|k: int|
            0 <= k < words_from(s, i, cur).len() ==> (#[trigger] words_from(s, i, cur)[k]).len() > 0
                && no_white_space(words_from(s, i, cur)[k]),
    decreases s.len() - i,
{
    if i >= s.len() || i < 0 {
        if cur.len() > 0 {
            let w = words_from(s, i, cur);
            assert(w =~= seq![cur]);
            assert forall|k: int| 0 <= k < w.len() implies (#[trigger] w[k]).len() > 0
                && no_white_space(w[k]) by {
                assert(w[k] == cur);
            }
        } else {
            assert(words_from(s, i, cur) =~= Seq::<Seq<char>>::empty());
        }
    } else if is_ws(s[i]) {
        assert(no_white_space(Seq::<char>::empty()));
        lemma_words_from(s, i + 1, seq![]);
        let head: Seq<Seq<char>> = if cur.len() > 0 {
            seq![cur]
        } else {
            seq![]
        };
        let tail = words_from(s, i + 1, seq![]);
        assert(words_from(s, i, cur) == head + tail);
        assert forall|k: int| 0 <= k < (head + tail).len() implies (#[trigger] (head + tail)[k]).len()
            > 0 && no_white_space((head + tail)[k]) by {
            if k < head.len() {
                assert((head + tail)[k] == cur);
            } else {
                assert((head + tail)[k] == tail[k - head.len()]);
            }
        }
    } else {
        assert forall|j: int| 0 <= j < cur.push(s[i]).len() implies !is_ws(
            #[trigger] cur.push(s[i])[j],
        ) by {
            if j < cur.len() {
                assert(cur.push(s[i])[j] == cur[j]);
            }
        }
        lemma_words_from(s, i + 1, cur.push(s[i]));
        assert(words_from(s, i, cur) == words_from(s, i + 1, cur.push(s[i])));
    }
}

proof fn lemma_words_from_first(s: Seq<char>, i: int, cur: Seq<char>)
    requires
        cur.len() > 0,
    ensures
        words_from(s, i, cur).len() > 0,
        words_from(s, i, cur)[0].len() > 0,
        words_from(s, i, cur)[0][0] == cur[0],
    decreases s.len() - i,
{
    if i >= s.len() || i < 0 {
        assert(words_from(s, i, cur) =~= seq![cur]);
    } else if is_ws(s[i]) {
        assert(words_from(s, i, cur) == seq![cur] + words_from(s, i + 1, seq![]));
        assert((seq![cur] + words_from(s, i + 1, seq![]))[0] == cur);
    } else {
        lemma_words_from_first(s, i + 1, cur.push(s[i]));
        assert(words_from(s, i, cur) == words_from(s, i + 1, cur.push(s[i])));
    }
}

proof fn lemma_words_first(x: Seq<char>)
    requires
        x.len() > 0,
        !is_ws(x[0]),
    ensures
        words(x).len() > 0,
        words(x)[0].len() > 0,
        words(x)[0][0] == x[0],
{
    lemma_words_from_first(x, 1, seq![x[0]]);
    assert(seq![].push(x[0]) =~= seq![x[0]]);
    assert(words(x) == words_from(x, 1, seq![x[0]]));
}

proof fn lemma_trim_end_first(x: Seq<char>)
    requires
        x.len() > 0,
        !is_ws(x[0]),
    ensures
        trim_end(x).len() > 0,
        trim_end(x)[0] == x[0],
    decreases x.len(),
{
    if is_ws(x.last()) {
        lemma_trim_end_first(x.drop_last());
    }
}

proof fn lemma_lower_at(w: Seq<char>, k: Seq<char>)
    requires
        w.len() > 0,
        w[0] == '@',
        k.len() > 0,
        'A' <= k[0] <= 'Z',
    ensures
        !eq_ic(w, k),
{
    if eq_ic(w, k) {
        assert(crate::text::lower(w)[0] == ascii_lower(w[0]));
        assert(crate::text::lower(k)[0] == ascii_lower(k[0]));
        assert((k[0] as u8) as int == k[0] as int);
    }
}

proof fn lemma_drop_keywords_first(ts: Seq<Seq<char>>)
    requires
        ts.len() > 0,
        ts[0].len() > 0,
        ts[0][0] == '@',
    ensures
        drop_trailing_keywords(ts).len() > 0,
        drop_trailing_keywords(ts)[0] == ts[0],
    decreases ts.len(),
{
    reveal_strlit("AS");
    reveal_strlit("BEGIN");
    reveal_strlit("END");
    if is_trailing_keyword(ts.last()) {
        if ts.len() == 1 {
            lemma_lower_at(ts[0], "AS"@);
            lemma_lower_at(ts[0], "BEGIN"@);
            lemma_lower_at(ts[0], "END"@);
        } else {
            lemma_drop_keywords_first(ts.drop_last());
        }
    }
}

proof fn lemma_join_first(ts: Seq<Seq<char>>, sep: Seq<char>)
    requires
        ts.len() > 0,
        ts[0].len() > 0,
    ensures
        join(ts, sep).len() > 0,
        join(ts, sep)[0] == ts[0][0],
    decreases ts.len(),
{
    if ts.len() > 1 {
        lemma_join_first(ts.drop_last(), sep);
        let a = join(ts.drop_last(), sep);
        assert((a + sep + ts.last())[0] == a[0]);
    }
}

/// A parameter's name is a non-empty word without white space that starts
/// with `@`; its type is trimmed; a default, when there is one, is non-empty
/// and trimmed.
pub open spec fn parameter_shape(p: (Seq<char>, Seq<char>, Option<Seq<char>>)) -> bool {
    &&& p.0.len() > 0
    &&& p.0[0] == '@'
    &&& no_white_space(p.0)
    &&& trim(p.1) == p.1
    &&& p.2 matches Some(d) ==> d.len() > 0 && trim(d) == d
}

proof fn lemma_parse_param(item: Seq<char>)
    ensures
        parse_param_spec(item) matches Some(p) ==> parameter_shape(p),
{
    let d0 = param_decl(item);
    if !(d0.len() == 0 || d0[0] != '@') {
        let d2 = join(drop_trailing_keywords(words(strip_output(d0))), " "@);
        let parts = words(d2);
        assert(no_white_space(Seq::<char>::empty()));
        lemma_words_from(d2, 0, seq![]);
        let so = strip_output(d0);
        reveal_strlit(" OUTPUT");
        if d0.len() >= 7 && eq_ic(d0.skip(d0.len() - 7), " OUTPUT"@) {
            if d0.len() == 7 {
                assert(d0.skip(0) =~= d0);
                assert(crate::text::lower(d0)[0] == crate::text::lower(" OUTPUT"@)[0]);
            }
            lemma_trim_end_first(d0.take(d0.len() - 7));
        }
        assert(so.len() > 0 && so[0] == '@');
        lemma_words_first(so);
        lemma_drop_keywords_first(words(so));
        lemma_join_first(drop_trailing_keywords(words(so)), " "@);
        lemma_words_first(d2);
        if parts.len() > 0 {
            let rest = join(parts.skip(1), " "@);
            assert(trim(Seq::<char>::empty()) =~= Seq::<char>::empty());
            if rest.len() > 0 {
                let (dt, dv) = crate::parser::assignment_from(rest, 0, 0, false);
                lemma_trim_idempotent(dt);
                match dv {
                    Some(v) => {
                        let c = trim(trim_end_in(trim(v), ","@));
                        lemma_trim_idempotent(trim_end_in(trim(v), ","@));
                        assert(crate::parser::clean_default(v) == if c.len() == 0 {
                            None
                        } else {
                            Some(c)
                        });
                    },
                    None => {},
                }
            }
        }
    }
}

proof fn lemma_parse_params(items: Seq<Seq<char>>)
    ensures
        forall|k: int| 0 <= k < parse_params(items).len() ==> parameter_shape(#[trigger] parse_params(items)[k]),
    decreases items.len(),
{
    if items.len() > 0 {
        lemma_parse_params(items.drop_last());
        lemma_parse_param(items.last());
        let p = parse_params(items.drop_last());
        match parse_param_spec(items.last()) {
            Some(x) => {
                assert forall|k: int| 0 <= k < p.push(x).len() implies parameter_shape(
                    #[trigger] p.push(x)[k],
                ) by {
                    if k < p.len() {
                        assert(p.push(x)[k] == p[k]);
                    }
                }
            },
            None => {},
        }
    }
}

/// Every extracted parameter has a non-empty name without white space, a
/// trimmed type, and no empty default.
pub proof fn law_parameter_shape(sql: Seq<char>)
    ensures
        forall|k: int| 0 <= k < parameters_spec(sql).len() ==> parameter_shape(#[trigger] parameters_spec(sql)[k]),
{
    let st = strip_comments_spec(sql);
    match decl_end(st) {
        Some(e) => lemma_parse_params(
            crate::parser::items_from(crate::parser::param_block(st, e), 0, seq![], 0, false),
        ),
        None => {},
    }
}

// ---------------------------------------------------------------------------
// Report layout
// ---------------------------------------------------------------------------

/// The section headings of the Markdown report, in order.
pub open spec fn markdown_headings() -> Seq<Seq<char>> {
    seq![
        "## 1. Overview\n"@,
        "## 2. Parameters\n"@,
        "## 3. Dependencies\n"@,
        "## 4. Temp Tables\n"@,
        "## 5. Dependency Diagram\n"@,
        "## 6. Execution Flow\n"@,
        "## 7. Risk Findings\n"@,
        "## 8. Questions to Verify\n"@,
        "## 9. Suggested Next Queries\n"@,
    ]
}

/// What follows each heading of the Markdown report.
pub open spec fn markdown_bodies(t: ProcedureTrace) -> Seq<Seq<char>> {
    let name = name_or(t.name, "Unknown"@);
    let ps = params_view(t.parameters@);
    let ds = deps_view(t.dependencies@);
    let rs = risks_view(t.risks@);
    seq![
        "- Procedure: "@ + name + "\n"@ + "- Dialect: T-SQL\n"@ + "- Statements: "@ + decimal(
            t.metrics.statement_count as nat,
        ) + "\n"@ + "- Risk Level: "@ + severity_label(t.metrics.risk_level) + "\n\n"@,
        "| Parameter | Type | Default |\n|---|---|---|\n"@ + (if ps.len() == 0 {
            "| None | - | - |\n"@
        } else {
            concat(ps.map_values(|p: (Seq<char>, Seq<char>, Option<Seq<char>>)| md_param_row(p)))
        }) + "\n"@,
        "\n"@ + "### Tables Read\n"@ + md_list(group(ds, GroupKind::Reads)) + "\n### Tables Written\n"@
            + md_list(group(ds, GroupKind::Writes)) + "\n### Procedures Executed\n"@ + md_list(
            group(ds, GroupKind::Executes),
        ) + "\n### External Dependencies\n"@ + md_list(group(ds, GroupKind::External)) + "\n"@,
        md_list(sviews(t.temp_tables@)) + "\n"@,
        "\n"@ + mermaid_block(t) + "\n"@,
        flow_spec(t) + "\n\n"@,
        (if rs.len() == 0 {
            "- None detected.\n"@
        } else {
            concat(rs.map_values(|r: (Seq<char>, Severity, Seq<char>, Seq<char>)| md_risk_block(r)))
        }) + "\n"@,
        md_list(questions_spec(t)) + "\n"@,
        md_queries(queries_spec(t)),
    ]
}

/// The Mermaid diagram of a trace as a fenced block.
pub open spec fn mermaid_block(t: ProcedureTrace) -> Seq<char> {
    "```mermaid\n"@ + mermaid_spec(t) + "\n```\n"@
}

/// The Markdown report is its title, then the nine sections in order, each
/// heading followed by its body; section 5 holds the trace's Mermaid diagram
/// as a fenced block.
proof fn lemma_markdown_heads(t: ProcedureTrace)
    ensures
        crate::report::md_overview(t) == "# SPTrace Report: "@ + name_or(t.name, "Unknown"@) + "\n\n"@
            + (markdown_headings()[0] + markdown_bodies(t)[0]),
        crate::report::md_parameters(t) == markdown_headings()[1] + markdown_bodies(t)[1],
        crate::report::md_dependencies(t) == markdown_headings()[2] + markdown_bodies(t)[2],
{
    let h = markdown_headings();
    let b = markdown_bodies(t);
    reveal_strlit("## 3. Dependencies\n\n");
    reveal_strlit("## 3. Dependencies\n");
    reveal_strlit("\n");
    assert("## 3. Dependencies\n\n"@ =~= "## 3. Dependencies\n"@ + "\n"@);
    assert(crate::report::md_overview(t) =~= "# SPTrace Report: "@ + name_or(t.name, "Unknown"@)
        + "\n\n"@ + (h[0] + b[0]));
    assert(crate::report::md_parameters(t) =~= h[1] + b[1]);
    assert(crate::report::md_dependencies(t) =~= h[2] + b[2]);
}

#[verifier::spinoff_prover]
#[verifier::rlimit(40)]
proof fn lemma_markdown_tails(t: ProcedureTrace)
    ensures
        crate::report::md_middle(t) == (markdown_headings()[3] + markdown_bodies(t)[3]) + (
        markdown_headings()[4] + markdown_bodies(t)[4]) + (markdown_headings()[5]
            + markdown_bodies(t)[5]),
        crate::report::md_findings(t) == (markdown_headings()[6] + markdown_bodies(t)[6]) + (
        markdown_headings()[7] + markdown_bodies(t)[7]) + (markdown_headings()[8]
            + markdown_bodies(t)[8]),
{
    let h = markdown_headings();
    let b = markdown_bodies(t);
    reveal_strlit("## 5. Dependency Diagram\n\n");
    reveal_strlit("## 5. Dependency Diagram\n");
    reveal_strlit("\n");
    reveal_strlit("\n```\n\n");
    reveal_strlit("\n```\n");
    assert("## 5. Dependency Diagram\n\n"@ =~= "## 5. Dependency Diagram\n"@ + "\n"@);
    assert("\n```\n\n"@ =~= "\n```\n"@ + "\n"@);
    assert(crate::report::md_middle(t) =~= (h[3] + b[3]) + (h[4] + b[4]) + (h[5] + b[5]));
    assert(crate::report::md_findings(t) =~= (h[6] + b[6]) + (h[7] + b[7]) + (h[8] + b[8]));
}

/// The Markdown report is its title, then the nine sections in order, each
/// heading followed by its body; section 5 holds the trace's Mermaid diagram
/// as a fenced block.
#[verifier::rlimit(40)]
pub proof fn law_markdown_layout(t: ProcedureTrace)
    ensures
        markdown_spec(t) == "# SPTrace Report: "@ + name_or(t.name, "Unknown"@) + "\n\n"@ + (
        markdown_headings()[0] + markdown_bodies(t)[0]) + (markdown_headings()[1]
            + markdown_bodies(t)[1]) + (markdown_headings()[2] + markdown_bodies(t)[2]) + (
        markdown_headings()[3] + markdown_bodies(t)[3]) + (markdown_headings()[4]
            + markdown_bodies(t)[4]) + (markdown_headings()[5] + markdown_bodies(t)[5]) + (
        markdown_headings()[6] + markdown_bodies(t)[6]) + (markdown_headings()[7]
            + markdown_bodies(t)[7]) + (markdown_headings()[8] + markdown_bodies(t)[8]),
        markdown_bodies(t)[4] == "\n"@ + mermaid_block(t) + "\n"@,
{
    lemma_markdown_heads(t);
    lemma_markdown_tails(t);
    let h = markdown_headings();
    let b = markdown_bodies(t);
    let title = "# SPTrace Report: "@ + name_or(t.name, "Unknown"@) + "\n\n"@;
    let x0 = h[0] + b[0];
    let x1 = h[1] + b[1];
    let x2 = h[2] + b[2];
    let x3 = h[3] + b[3];
    let x4 = h[4] + b[4];
    let x5 = h[5] + b[5];
    let x6 = h[6] + b[6];
    let x7 = h[7] + b[7];
    let x8 = h[8] + b[8];
    assert(markdown_spec(t) == (title + x0) + x1 + x2 + (x3 + x4 + x5) + (x6 + x7 + x8));
    assert((title + x0) + x1 + x2 + (x3 + x4 + x5) + (x6 + x7 + x8) =~= title + x0 + x1 + x2 + x3 + x4
        + x5 + x6 + x7 + x8);
}

// ---------------------------------------------------------------------------
// Folder diagram
// ---------------------------------------------------------------------------

/// The diagram state already shows the trace: its procedure node, the node of
/// each dependency object and each of its edges.
pub open spec fn shows(st: FolderState, t: ProcedureTrace) -> bool {
    let pid = node_id_spec(name_or(t.name, "UNKNOWN_PROC"@));
    let ds = deps_view(t.dependencies@);
    &&& st.1.contains(pid)
    &&& forall|k: int| 0 <= k < ds.len() ==> st.1.contains(node_id_spec((#[trigger] ds[k]).0))
    &&& forall|k: int|
        0 <= k < ds.len() ==> (edge_of((#[trigger] ds[k]).1, node_id_spec(ds[k].0), pid) matches Some(e)
            ==> st.2.contains(e))
}

/// Nothing shown is lost: nodes and edges only grow, and the lines only
/// gain lines at the end.
pub open spec fn grows(a: FolderState, b: FolderState) -> bool {
    &&& forall|x: Seq<char>| a.1.contains(x) ==> #[trigger] b.1.contains(x)
    &&& forall|x: Seq<char>| a.2.contains(x) ==> #[trigger] b.2.contains(x)
    &&& a.0.len() <= b.0.len()
    &&& forall|k: int| 0 <= k < a.0.len() ==> #[trigger] b.0[k] == a.0[k]
}

proof fn lemma_grows_trans(a: FolderState, b: FolderState, c: FolderState)
    requires
        grows(a, b),
        grows(b, c),
    ensures
        grows(a, c),
{
}

proof fn lemma_emit_grows(st: FolderState, id: Seq<char>, label: Seq<char>, e: Option<Seq<char>>)
    ensures
        grows(st, emit_node(st, id, label)),
        emit_node(st, id, label).1.contains(id),
        grows(emit_node(st, id, label), emit_edge(emit_node(st, id, label), e)),
        e matches Some(l) ==> emit_edge(emit_node(st, id, label), e).2.contains(l),
{
    let s1 = emit_node(st, id, label);
    if !st.1.contains(id) {
        assert(s1.1[st.1.len() as int] == id);
        lemma_push_keeps(st.1, id);
        lemma_push_keeps(st.0, node_line(id, label));
    }
    match e {
        Some(l) => {
            if !s1.2.contains(l) {
                assert(emit_edge(s1, e).2[s1.2.len() as int] == l);
                lemma_push_keeps(s1.2, l);
                lemma_push_keeps(s1.0, l);
            }
        },
        None => {},
    }
}

proof fn lemma_push_keeps(s: Seq<Seq<char>>, y: Seq<char>)
    ensures
        forall|x: Seq<char>| s.contains(x) ==> #[trigger] s.push(y).contains(x),
        forall|k: int| 0 <= k < s.len() ==> #[trigger] s.push(y)[k] == s[k],
{
    assert forall|x: Seq<char>| s.contains(x) implies #[trigger] s.push(y).contains(x) by {
        let k = choose|k: int| 0 <= k < s.len() && s[k] == x;
        assert(s.push(y)[k] == x);
    }
}

proof fn lemma_folder_deps(st: FolderState, pid: Seq<char>, ds: Seq<DepV>)
    ensures
        grows(st, folder_deps(st, pid, ds)),
        forall|k: int|
            0 <= k < ds.len() ==> folder_deps(st, pid, ds).1.contains(node_id_spec((#[trigger] ds[k]).0)),
        forall|k: int|
            0 <= k < ds.len() ==> (edge_of((#[trigger] ds[k]).1, node_id_spec(ds[k].0), pid) matches Some(e)
                ==> folder_deps(st, pid, ds).2.contains(e)),
    decreases ds.len(),
{
    if ds.len() > 0 {
        let init = ds.drop_last();
        lemma_folder_deps(st, pid, init);
        let s0 = folder_deps(st, pid, init);
        let d = ds.last();
        let id = node_id_spec(d.0);
        lemma_emit_grows(s0, id, d.0, edge_of(d.1, id, pid));
        let s1 = emit_node(s0, id, d.0);
        let s2 = emit_edge(s1, edge_of(d.1, id, pid));
        lemma_grows_trans(s0, s1, s2);
        lemma_grows_trans(st, s0, s2);
        assert forall|k: int| 0 <= k < ds.len() implies s2.1.contains(node_id_spec((#[trigger] ds[k]).0))
            && (edge_of(ds[k].1, node_id_spec(ds[k].0), pid) matches Some(e) ==> s2.2.contains(e)) by {
            if k < init.len() {
                assert(init[k] == ds[k]);
            }
        }
    }
}

proof fn lemma_folder_deps_shown(st: FolderState, pid: Seq<char>, ds: Seq<DepV>)
    requires
        forall|k: int| 0 <= k < ds.len() ==> st.1.contains(node_id_spec((#[trigger] ds[k]).0)),
        forall|k: int|
            0 <= k < ds.len() ==> (edge_of((#[trigger] ds[k]).1, node_id_spec(ds[k].0), pid) matches Some(e)
                ==> st.2.contains(e)),
    ensures
        folder_deps(st, pid, ds) == st,
    decreases ds.len(),
{
    if ds.len() > 0 {
        let init = ds.drop_last();
        assert forall|k: int| 0 <= k < init.len() implies st.1.contains(node_id_spec((#[trigger] init[k]).0))
            && (edge_of(init[k].1, node_id_spec(init[k].0), pid) matches Some(e) ==> st.2.contains(e)) by {
            assert(init[k] == ds[k]);
        }
        lemma_folder_deps_shown(st, pid, init);
        let d = ds.last();
        assert(d == ds[ds.len() - 1]);
    }
}

proof fn lemma_folder_trace(st: FolderState, t: ProcedureTrace)
    ensures
        grows(st, folder_trace(st, t)),
        shows(folder_trace(st, t), t),
        shows(st, t) ==> folder_trace(st, t) == st,
{
    let name = name_or(t.name, "UNKNOWN_PROC"@);
    let pid = node_id_spec(name);
    let ds = deps_view(t.dependencies@);
    lemma_emit_grows(st, pid, name, None);
    let s1 = emit_node(st, pid, name);
    lemma_folder_deps(s1, pid, ds);
    lemma_grows_trans(st, s1, folder_deps(s1, pid, ds));
    if shows(st, t) {
        assert(s1 == st);
        lemma_folder_deps_shown(st, pid, ds);
    }
}

proof fn lemma_shows_grows(a: FolderState, b: FolderState, t: ProcedureTrace)
    requires
        shows(a, t),
        grows(a, b),
    ensures
        shows(b, t),
{
    let pid = node_id_spec(name_or(t.name, "UNKNOWN_PROC"@));
    let ds = deps_view(t.dependencies@);
    assert forall|k: int| 0 <= k < ds.len() implies (edge_of((#[trigger] ds[k]).1, node_id_spec(ds[k].0), pid) matches Some(e)
        ==> b.2.contains(e)) by {
        match edge_of(ds[k].1, node_id_spec(ds[k].0), pid) {
            Some(e) => {
                assert(a.2.contains(e));
            },
            None => {},
        }
    }
}

/// The diagram of a folder shows every trace in it.
proof fn lemma_folder_fold(ts: Seq<ProcedureTrace>)
    ensures
        forall|k: int| 0 <= k < ts.len() ==> shows(folder_fold(ts), #[trigger] ts[k]),
        folder_fold(ts).0.len() >= 1,
        folder_fold(ts).0[0] == "flowchart LR"@,
    decreases ts.len(),
{
    if ts.len() > 0 {
        let init = ts.drop_last();
        lemma_folder_fold(init);
        let s0 = folder_fold(init);
        lemma_folder_trace(s0, ts.last());
        assert forall|k: int| 0 <= k < ts.len() implies shows(folder_fold(ts), #[trigger] ts[k]) by {
            if k < init.len() {
                assert(init[k] == ts[k]);
                lemma_shows_grows(s0, folder_fold(ts), ts[k]);
            }
        }
    }
}

/// Folding further traces into a state, one after the other.
pub open spec fn fold_from(st: FolderState, us: Seq<ProcedureTrace>) -> FolderState
    decreases us.len(),
{
    if us.len() == 0 {
        st
    } else {
        folder_trace(fold_from(st, us.drop_last()), us.last())
    }
}

proof fn lemma_fold_concat(ts: Seq<ProcedureTrace>, us: Seq<ProcedureTrace>)
    ensures
        folder_fold(ts + us) == fold_from(folder_fold(ts), us),
    decreases us.len(),
{
    if us.len() == 0 {
        assert(ts + us =~= ts);
    } else {
        lemma_fold_concat(ts, us.drop_last());
        assert((ts + us).drop_last() =~= ts + us.drop_last());
        assert((ts + us).last() == us.last());
    }
}

proof fn lemma_fold_from_shown(st: FolderState, us: Seq<ProcedureTrace>)
    requires
        forall|k: int| 0 <= k < us.len() ==> shows(st, #[trigger] us[k]),
    ensures
        fold_from(st, us) == st,
    decreases us.len(),
{
    if us.len() > 0 {
        assert forall|k: int| 0 <= k < us.drop_last().len() implies shows(st, #[trigger] us.drop_last()[k]) by {
            assert(us.drop_last()[k] == us[k]);
        }
        lemma_fold_from_shown(st, us.drop_last());
        assert(shows(st, us[us.len() - 1]));
        lemma_folder_trace(st, us.last());
    }
}

/// The folder diagram starts with `flowchart LR`; with no procedure it is the
/// header and a note; and scanning each procedure twice draws the same
/// diagram as scanning it once.
pub proof fn law_folder_diagram(ts: Seq<ProcedureTrace>)
    ensures
        folder_mermaid_spec(seq![]) == "flowchart LR"@ + "\n"@ + "    %% No dependencies detected"@,
        folder_fold(ts).0[0] == "flowchart LR"@,
        folder_mermaid_spec(ts + ts) == folder_mermaid_spec(ts),
{
    lemma_folder_fold(ts);
    lemma_fold_concat(ts, ts);
    lemma_fold_from_shown(folder_fold(ts), ts);
    let e = folder_fold(Seq::<ProcedureTrace>::empty()).0;
    assert(e.push("    %% No dependencies detected"@) =~= seq![
        "flowchart LR"@,
        "    %% No dependencies detected"@,
    ]);
    reveal_with_fuel(join, 3);
    assert(seq!["flowchart LR"@, "    %% No dependencies detected"@].drop_last() =~= seq![
        "flowchart LR"@,
    ]);
}

/// Characters of a Mermaid node id: ASCII letters, digits and `_`.
pub open spec fn id_chars_ok(x: Seq<char>) -> bool {
    forall|j: int| 0 <= j < x.len() ==> is_ascii_alnum(#[trigger] x[j]) || x[j] == '_'
}

pub open spec fn has_bracket(s: Seq<char>) -> bool {
    exists|j: int| 0 <= j < s.len() && s[j] == '['
}

/// Position of the first `[` from `i` on, or the length.
pub open spec fn first_bracket(s: Seq<char>, i: int) -> int
    decreases s.len() - i,
{
    if i < 0 || i >= s.len() {
        s.len() as int
    } else if s[i] == '[' {
        i
    } else {
        first_bracket(s, i + 1)
    }
}

/// The node id of a node line: the text between the indent and the first `[`.
pub open spec fn node_key(s: Seq<char>) -> Seq<char> {
    s.subrange(4, first_bracket(s, 0))
}

proof fn lemma_first_bracket(s: Seq<char>, i: int, p: int)
    requires
        0 <= i <= p < s.len(),
        s[p] == '[',
        forall|j: int| i <= j < p ==> s[j] != '[',
    ensures
        first_bracket(s, i) == p,
    decreases p - i,
{
    if i < p {
        lemma_first_bracket(s, i + 1, p);
    }
}

proof fn lemma_node_line(id: Seq<char>, label: Seq<char>)
    requires
        id_chars_ok(id),
    ensures
        has_bracket(node_line(id, label)),
        node_key(node_line(id, label)) == id,
        node_line(id, label)[0] == ' ',
{
    reveal_strlit("    ");
    reveal_strlit("[\"");
    let l = node_line(id, label);
    let p = (id.len() + 4) as int;
    assert(l[p] == '[');
    assert forall|j: int| 0 <= j < p implies l[j] != '[' by {
        if j >= 4 {
            assert(l[j] == id[j - 4]);
        }
    }
    lemma_first_bracket(l, 0, p);
    assert(node_key(l) =~= id);
}

proof fn lemma_edge_line(op: Operation, a: Seq<char>, b: Seq<char>)
    requires
        id_chars_ok(a),
        id_chars_ok(b),
    ensures
        edge_of(op, a, b) matches Some(e) ==> !has_bracket(e) && e[0] == ' ',
{
    reveal_strlit("    ");
    reveal_strlit(" --> ");
    reveal_strlit(" -. executes .-> ");
    match edge_of(op, a, b) {
        Some(e) => {
            let (x, mid, y) = match op {
                Operation::Read => (a, " --> "@, b),
                Operation::Write => (b, " --> "@, a),
                _ => (b, " -. executes .-> "@, a),
            };
            assert(e == "    "@ + x + mid + y);
            assert forall|j: int| 0 <= j < e.len() implies e[j] != '[' by {
                if j < 4 {
                } else if j < 4 + x.len() {
                    assert(e[j] == x[j - 4]);
                } else if j < 4 + x.len() + mid.len() {
                    assert(e[j] == mid[j - 4 - x.len()]);
                } else {
                    assert(e[j] == y[j - 4 - x.len() - mid.len()]);
                }
            }
        },
        None => {},
    }
}

proof fn lemma_node_id_ok(label: Seq<char>)
    ensures
        id_chars_ok(node_id_spec(label)),
{
    reveal_strlit("N_");
    reveal_strlit("_");
    reveal_strlit("N_UNKNOWN");
    let full = "N_"@ + label.map_values(|c: char| id_char(c));
    assert forall|j: int| 0 <= j < full.len() implies is_ascii_alnum(#[trigger] full[j]) || full[j]
        == '_' by {
        if j >= 2 {
            assert(full[j] == id_char(label[j - 2]));
        }
    }
    lemma_trim_end_in(full, "_"@);
    let s = trim_end_in(full, "_"@);
    let b = choose|b: int| 0 <= b <= full.len() && s == full.subrange(0, b);
    assert forall|j: int| 0 <= j < s.len() implies is_ascii_alnum(#[trigger] s[j]) || s[j] == '_' by {
        assert(s[j] == full[j]);
    }
    let u = "N_UNKNOWN"@;
    assert forall|j: int| 0 <= j < u.len() implies is_ascii_alnum(#[trigger] u[j]) || u[j] == '_' by {}
}

/// The diagram state's lines are distinct: the header first; a line with a
/// `[` draws the node of an emitted id; any other line is an emitted edge.
pub open spec fn lines_sound(st: FolderState) -> bool {
    &&& st.0.len() >= 1
    &&& st.0[0] == "flowchart LR"@
    &&& st.0.no_duplicates()
    &&& forall|k: int|
        1 <= k < st.0.len() ==> (has_bracket(#[trigger] st.0[k]) ==> st.1.contains(node_key(st.0[k])))
            && (!has_bracket(st.0[k]) ==> st.2.contains(st.0[k])) && st.0[k][0] == ' '
}

proof fn lemma_emit_node_sound(st: FolderState, id: Seq<char>, label: Seq<char>)
    requires
        lines_sound(st),
        id_chars_ok(id),
    ensures
        lines_sound(emit_node(st, id, label)),
{
    reveal_strlit("flowchart LR");
    if !st.1.contains(id) {
        let l = node_line(id, label);
        lemma_node_line(id, label);
        lemma_push_keeps(st.1, id);
        let s1 = emit_node(st, id, label);
        assert(s1.1[st.1.len() as int] == id);
        assert forall|k: int| 0 <= k < st.0.len() implies #[trigger] st.0[k] != l by {
            if k == 0 {
                assert(st.0[0][0] == 'f');
            } else if has_bracket(st.0[k]) {
                assert(st.1.contains(node_key(st.0[k])));
            }
        }
        assert forall|i: int, j: int|
            0 <= i < s1.0.len() && 0 <= j < s1.0.len() && i != j implies s1.0[i] != s1.0[j] by {
            if i < st.0.len() && j < st.0.len() {
                assert(s1.0[i] == st.0[i] && s1.0[j] == st.0[j]);
            } else if i < st.0.len() {
                assert(s1.0[i] == st.0[i]);
            } else {
                assert(s1.0[j] == st.0[j]);
            }
        }
        assert forall|k: int| 1 <= k < s1.0.len() implies (has_bracket(#[trigger] s1.0[k])
            ==> s1.1.contains(node_key(s1.0[k]))) && (!has_bracket(s1.0[k]) ==> s1.2.contains(
            s1.0[k],
        )) && s1.0[k][0] == ' ' by {
            if k < st.0.len() {
                assert(s1.0[k] == st.0[k]);
            }
        }
        assert(s1.0[0] == st.0[0]);
    }
}

proof fn lemma_emit_edge_sound(st: FolderState, e: Option<Seq<char>>)
    requires
        lines_sound(st),
        e matches Some(l) ==> !has_bracket(l) && l[0] == ' ',
    ensures
        lines_sound(emit_edge(st, e)),
{
    reveal_strlit("flowchart LR");
    match e {
        Some(l) => {
            if !st.2.contains(l) {
                lemma_push_keeps(st.2, l);
                let s1 = emit_edge(st, e);
                assert(s1.2[st.2.len() as int] == l);
                assert forall|k: int| 0 <= k < st.0.len() implies #[trigger] st.0[k] != l by {
                    if k == 0 {
                        assert(st.0[0][0] == 'f');
                    }
                }
                assert forall|i: int, j: int|
                    0 <= i < s1.0.len() && 0 <= j < s1.0.len() && i != j implies s1.0[i] != s1.0[j] by {
                    if i < st.0.len() && j < st.0.len() {
                        assert(s1.0[i] == st.0[i] && s1.0[j] == st.0[j]);
                    } else if i < st.0.len() {
                        assert(s1.0[i] == st.0[i]);
                    } else {
                        assert(s1.0[j] == st.0[j]);
                    }
                }
                assert forall|k: int| 1 <= k < s1.0.len() implies (has_bracket(#[trigger] s1.0[k])
                    ==> s1.1.contains(node_key(s1.0[k]))) && (!has_bracket(s1.0[k])
                    ==> s1.2.contains(s1.0[k])) && s1.0[k][0] == ' ' by {
                    if k < st.0.len() {
                        assert(s1.0[k] == st.0[k]);
                    }
                }
                assert(s1.0[0] == st.0[0]);
            }
        },
        None => {},
    }
}

proof fn lemma_folder_deps_sound(st: FolderState, pid: Seq<char>, ds: Seq<DepV>)
    requires
        lines_sound(st),
        id_chars_ok(pid),
    ensures
        lines_sound(folder_deps(st, pid, ds)),
    decreases ds.len(),
{
    if ds.len() > 0 {
        lemma_folder_deps_sound(st, pid, ds.drop_last());
        let s0 = folder_deps(st, pid, ds.drop_last());
        let d = ds.last();
        let id = node_id_spec(d.0);
        lemma_node_id_ok(d.0);
        lemma_emit_node_sound(s0, id, d.0);
        lemma_edge_line(d.1, id, pid);
        lemma_emit_edge_sound(emit_node(s0, id, d.0), edge_of(d.1, id, pid));
    }
}

proof fn lemma_folder_fold_sound(ts: Seq<ProcedureTrace>)
    ensures
        lines_sound(folder_fold(ts)),
    decreases ts.len(),
{
    if ts.len() == 0 {
        reveal_strlit("flowchart LR");
        let st = folder_fold(ts);
        assert(st.0 =~= seq!["flowchart LR"@]);
    } else {
        lemma_folder_fold_sound(ts.drop_last());
        let t = ts.last();
        let name = name_or(t.name, "UNKNOWN_PROC"@);
        let pid = node_id_spec(name);
        lemma_node_id_ok(name);
        let s0 = folder_fold(ts.drop_last());
        lemma_emit_node_sound(s0, pid, name);
        lemma_folder_deps_sound(emit_node(s0, pid, name), pid, deps_view(t.dependencies@));
    }
}

/// No line of a folder diagram is drawn twice: each node and each edge once.
pub proof fn law_folder_lines_distinct(ts: Seq<ProcedureTrace>)
    ensures
        folder_fold(ts).0.no_duplicates(),
{
    lemma_folder_fold_sound(ts);
}

// ---------------------------------------------------------------------------
// Ordering of dependency candidates
// ---------------------------------------------------------------------------

/// The items with the given position, in their order.
pub open spec fn at_position<T>(s: Seq<(usize, T)>, key: usize) -> Seq<(usize, T)> {
    s.filter(|c: (usize, T)| c.0 == key)
}

proof fn lemma_first_greater<T>(s: Seq<(usize, T)>, key: usize, i: int)
    requires
        0 <= i <= s.len(),
    ensures
        i <= first_greater(s, key, i) <= s.len(),
        forall|t: int| i <= t < first_greater(s, key, i) ==> (#[trigger] s[t]).0 <= key,
        first_greater(s, key, i) < s.len() ==> s[first_greater(s, key, i)].0 > key,
    decreases s.len() - i,
{
    if i < s.len() && !(s[i].0 > key) {
        lemma_first_greater(s, key, i + 1);
    }
}

proof fn lemma_no_match_filter<T>(s: Seq<(usize, T)>, key: usize)
    requires
        forall|t: int| 0 <= t < s.len() ==> (#[trigger] s[t]).0 != key,
    ensures
        at_position(s, key) == Seq::<(usize, T)>::empty(),
    decreases s.len(),
{
    reveal(Seq::filter);
    if s.len() > 0 {
        assert forall|t: int| 0 <= t < s.drop_last().len() implies (#[trigger] s.drop_last()[t]).0
            != key by {
            assert(s.drop_last()[t] == s[t]);
        }
        lemma_no_match_filter(s.drop_last(), key);
        assert(s.last() == s[s.len() - 1]);
    } else {
        assert(at_position(s, key) =~= Seq::<(usize, T)>::empty());
    }
}

/// The stable sort of dependency candidates by position: ordered by
/// position, holding each candidate as often as given, and keeping the order
/// of candidates that share a position.
pub proof fn law_sort_by_pos<T>(s: Seq<(usize, T)>)
    ensures
        forall|i: int, j: int|
            0 <= i < j < sort_by_pos(s).len() ==> (#[trigger] sort_by_pos(s)[i]).0 <= (
            #[trigger] sort_by_pos(s)[j]).0,
        sort_by_pos(s).to_multiset() == s.to_multiset(),
        forall|key: usize| #[trigger] at_position(sort_by_pos(s), key) == at_position(s, key),
    decreases s.len(),
{
    if s.len() > 0 {
        let init = s.drop_last();
        law_sort_by_pos(init);
        let p = sort_by_pos(init);
        let x = s.last();
        lemma_first_greater(p, x.0, 0);
        let k = first_greater(p, x.0, 0);
        let q = p.insert(k, x);
        assert(q == sort_by_pos(s));
        assert forall|t: int| k <= t < p.len() implies (#[trigger] p[t]).0 > x.0 by {
            if t > k {
                assert(p[k].0 <= p[t].0);
            }
        }
        assert forall|i: int, j: int| 0 <= i < j < q.len() implies (#[trigger] q[i]).0 <= (
        #[trigger] q[j]).0 by {
            if j < k {
                assert(q[i] == p[i] && q[j] == p[j]);
            } else if j == k {
                assert(q[i] == p[i]);
            } else if i == k {
                assert(q[j] == p[j - 1]);
            } else if i < k {
                assert(q[i] == p[i] && q[j] == p[j - 1]);
            } else {
                assert(q[i] == p[i - 1] && q[j] == p[j - 1]);
            }
        }
        vstd::seq_lib::to_multiset_insert(p, k, x);
        assert(s =~= init.push(x));
        vstd::seq_lib::to_multiset_build(init, x);
        let lo = p.subrange(0, k);
        let hi = p.subrange(k, p.len() as int);
        assert(q =~= lo + seq![x] + hi);
        assert(p =~= lo + hi);
        assert forall|key: usize| #[trigger] at_position(q, key) == at_position(s, key) by {
            let pred = |c: (usize, T)| c.0 == key;
            Seq::filter_distributes_over_add(lo + seq![x], hi, pred);
            Seq::filter_distributes_over_add(lo, seq![x], pred);
            Seq::filter_distributes_over_add(lo, hi, pred);
            init.lemma_filter_push(x, pred);
            assert(at_position(init, key) == at_position(p, key));
            Seq::<(usize, T)>::empty().lemma_filter_push(x, pred);
            assert(seq![x] =~= Seq::<(usize, T)>::empty().push(x));
            reveal(Seq::filter);
            assert(Seq::<(usize, T)>::empty().filter(pred) =~= Seq::<(usize, T)>::empty());
            if x.0 == key {
                assert forall|t: int| 0 <= t < hi.len() implies (#[trigger] hi[t]).0 != key by {
                    assert(hi[t] == p[k + t]);
                }
                lemma_no_match_filter(hi, key);
                assert(hi.filter(pred) =~= Seq::<(usize, T)>::empty());
                assert(at_position(q, key) =~= at_position(lo, key).push(x));
                assert(at_position(p, key) =~= at_position(lo, key));
            } else {
                assert(seq![x].filter(pred) =~= Seq::<(usize, T)>::empty());
                assert(at_position(q, key) =~= at_position(p, key));
            }
        }
    }
}

// ---------------------------------------------------------------------------
// Dependency objects are not variables
// ---------------------------------------------------------------------------

/// The quoting characters that identifier cleaning strips.
pub open spec fn quote_chars() -> Seq<char> {
    "[]\"'`"@
}

/// Position `i` holds a quoting character directly followed by `@`.
pub open spec fn marked_at(s: Seq<char>, i: int) -> bool {
    0 <= i && i + 1 < s.len() && quote_chars().contains(s[i]) && s[i + 1] == '@'
}

/// No quoting character stands directly before an `@`.
pub open spec fn no_marked_variable(s: Seq<char>) -> bool {
    forall|i: int| !#[trigger] marked_at(s, i)
}

proof fn lemma_no_marked_subrange(s: Seq<char>, a: int, b: int)
    requires
        no_marked_variable(s),
        0 <= a <= b <= s.len(),
    ensures
        no_marked_variable(s.subrange(a, b)),
{
    let u = s.subrange(a, b);
    assert forall|i: int| !#[trigger] marked_at(u, i) by {
        if marked_at(u, i) {
            assert(u[i] == s[a + i] && u[i + 1] == s[a + i + 1]);
            assert(marked_at(s, a + i));
        }
    }
}

proof fn lemma_trim_start_in_exact(s: Seq<char>, set: Seq<char>)
    ensures
        exists|c: int|
            0 <= c <= s.len() && trim_start_in(s, set) == s.skip(c) && (forall|j: int|
                0 <= j < c ==> set.contains(#[trigger] s[j])) && (c < s.len() ==> !set.contains(s[c])),
    decreases s.len(),
{
    if s.len() > 0 && set.contains(s[0]) {
        let t = s.drop_first();
        lemma_trim_start_in_exact(t, set);
        let c = choose|c: int|
            0 <= c <= t.len() && trim_start_in(t, set) == t.skip(c) && (forall|j: int|
                0 <= j < c ==> set.contains(#[trigger] t[j])) && (c < t.len() ==> !set.contains(t[c]));
        assert(t.skip(c) =~= s.skip(c + 1));
        assert forall|j: int| 0 <= j < c + 1 implies set.contains(#[trigger] s[j]) by {
            if j > 0 {
                assert(s[j] == t[j - 1]);
            }
        }
        if c + 1 < s.len() {
            assert(s[c + 1] == t[c]);
        }
    } else {
        assert(s.skip(0) =~= s);
    }
}

proof fn lemma_split_first(s: Seq<char>, c: char, i: int, cur: Seq<char>)
    requires
        0 <= i <= s.len(),
    ensures
        split_from(s, c, i, cur).len() >= 1,
        exists|j: int| i <= j <= s.len() && split_from(s, c, i, cur)[0] == cur + s.subrange(i, j),
    decreases s.len() - i,
{
    if i >= s.len() {
        assert(cur + s.subrange(i, i) =~= cur);
    } else if s[i] == c {
        assert((seq![cur] + split_from(s, c, i + 1, seq![]))[0] == cur);
        assert(cur + s.subrange(i, i) =~= cur);
    } else {
        lemma_split_first(s, c, i + 1, cur.push(s[i]));
        let i1 = i + 1;
        let j = choose|j: int|
            i1 <= j <= s.len() && split_from(s, c, i1, cur.push(s[i]))[0] == cur.push(s[i])
                + #[trigger] s.subrange(i1, j);
        assert(cur.push(s[i]) + s.subrange(i + 1, j) =~= cur + s.subrange(i, j));
    }
}

proof fn lemma_join_head(ps: Seq<Seq<char>>, sep: Seq<char>)
    requires
        ps.len() >= 1,
        sep.len() >= 1,
    ensures
        join(ps, sep).len() >= ps[0].len(),
        join(ps, sep).len() > 0 ==> join(ps, sep)[0] == (if ps[0].len() > 0 {
            ps[0][0]
        } else {
            sep[0]
        }),
    decreases ps.len(),
{
    if ps.len() > 1 {
        let init = ps.drop_last();
        lemma_join_head(init, sep);
        assert(init[0] == ps[0]);
        let j = join(init, sep);
        assert(join(ps, sep) == j + sep + ps.last());
        if j.len() == 0 {
            assert((j + sep + ps.last())[0] == sep[0]);
        } else {
            assert((j + sep + ps.last())[0] == j[0]);
        }
    }
}

proof fn lemma_clean_first(raw: Seq<char>, j: int)
    requires
        raw.len() > 0,
        !is_ws(raw[0]),
        raw[0] != '@',
        no_marked_variable(raw),
        0 <= j <= raw.len(),
    ensures
        clean_identifier_part(raw.subrange(0, j)).len() > 0 ==> clean_identifier_part(
            raw.subrange(0, j),
        )[0] != '@',
{
    reveal_strlit("[]\"'`");
    let p0 = raw.subrange(0, j);
    let c0 = clean_identifier_part(p0);
    if c0.len() > 0 {
        lemma_trim_range(p0);
        let (a2, e2) = choose|a2: int, e2: int|
            0 <= a2 <= e2 <= p0.len() && trim(p0) == p0.subrange(a2, e2) && (forall|jj: int|
                0 <= jj < a2 ==> is_ws(#[trigger] p0[jj])) && (forall|jj: int|
                e2 <= jj < p0.len() ==> is_ws(#[trigger] p0[jj])) && (a2 < e2 ==> !is_ws(p0[a2])
                && !is_ws(p0[e2 - 1]));
        let x = trim(p0);
        if a2 > 0 {
            assert(is_ws(p0[0]));
            assert(p0[0] == raw[0]);
        }
        assert(x =~= raw.subrange(0, e2));
        lemma_no_marked_subrange(raw, 0, e2);
        lemma_trim_start_in_exact(x, quote_chars());
        let c = choose|c: int|
            0 <= c <= x.len() && trim_start_in(x, quote_chars()) == x.skip(c) && (forall|jj: int|
                0 <= jj < c ==> quote_chars().contains(#[trigger] x[jj])) && (c < x.len()
                ==> !quote_chars().contains(x[c]));
        let y = trim_start_in(x, quote_chars());
        lemma_trim_end_in(y, quote_chars());
        let z = trim_end_in(y, quote_chars());
        let bz = choose|bz: int| 0 <= bz <= y.len() && z == y.subrange(0, bz);
        lemma_trim_end_in(z, ";,)("@);
        let bc = choose|bc: int| 0 <= bc <= z.len() && c0 == z.subrange(0, bc);
        assert(c0[0] == x[c]);
        if c == 0 {
            assert(x[0] == raw[0]);
        } else if x[c] == '@' {
            assert(quote_chars().contains(x[c - 1]));
            assert(marked_at(x, c - 1));
        }
    }
}

proof fn lemma_normalize_first(raw: Seq<char>)
    requires
        raw.len() > 0,
        trim(raw) == raw,
        !is_ws(raw[0]),
        raw[0] != '@',
        no_marked_variable(raw),
    ensures
        normalize_identifier_spec(raw).len() > 0 ==> normalize_identifier_spec(raw)[0] != '@',
{
    reveal_strlit(".");
    lemma_trim_end_in(raw, ";,"@);
    let t = trim_end_in(trim(raw), ";,"@);
    let b0 = choose|b0: int| 0 <= b0 <= raw.len() && t == raw.subrange(0, b0);
    lemma_split_first(t, '.', 0, seq![]);
    let parts = split_on(t, '.');
    let j = choose|j: int| 0 <= j <= t.len() && parts[0] == Seq::<char>::empty() + #[trigger] t.subrange(0, j);
    assert(parts[0] =~= raw.subrange(0, j));
    let cleaned = parts.map_values(|p: Seq<char>| clean_identifier_part(p));
    assert(normalize_identifier_spec(raw) == join(cleaned, "."@));
    lemma_join_head(cleaned, "."@);
    assert(cleaned[0] == clean_identifier_part(raw.subrange(0, j)));
    lemma_clean_first(raw, j);
}

/// A candidate object is never empty and never starts with `@` when no
/// quoting character of the statement stands right before an `@`.
proof fn lemma_candidate_not_variable(
    body: Seq<char>,
    cap: Option<(usize, usize)>,
    op: Operation,
    source: Seq<char>,
    skip: Option<Seq<Seq<char>>>,
)
    requires
        cap matches Some(sp) ==> crate::pattern::valid_span(body, sp),
        no_marked_variable(body),
    ensures
        candidate(body, cap, op, source, skip) matches Some(c) ==> c.1.0.len() > 0 && c.1.0[0] != '@',
{
    match cap {
        None => {},
        Some(sp) => {
            let a = crate::pattern::char_index(body, sp.0 as int);
            let b = crate::pattern::char_index(body, sp.1 as int);
            assert(crate::pattern::is_boundary(body, sp.0 as int));
            assert(crate::pattern::is_boundary(body, sp.1 as int));
            if a > b {
                crate::pattern::lemma_utf8_len_mono(body, b, a);
            }
            let span = body.subrange(a, b);
            assert(span == crate::pattern::span_text(body, sp));
            lemma_no_marked_subrange(body, a, b);
            lemma_trim_range(span);
            let (a1, e1) = choose|a1: int, e1: int|
                0 <= a1 <= e1 <= span.len() && trim(span) == span.subrange(a1, e1) && (forall|j: int|
                    0 <= j < a1 ==> is_ws(#[trigger] span[j])) && (forall|j: int|
                    e1 <= j < span.len() ==> is_ws(#[trigger] span[j])) && (a1 < e1 ==> !is_ws(
                    span[a1],
                ) && !is_ws(span[e1 - 1]));
            let raw = trim(span);
            lemma_no_marked_subrange(span, a1, e1);
            lemma_trim_idempotent(span);
            if raw.len() > 0 && raw[0] != '@' {
                assert(raw[0] == span[a1]);
                lemma_normalize_first(raw);
            }
        },
    }
}

/// When no quoting character of a statement stands right before an `@`,
/// every dependency candidate found in it has an object that is non-empty and
/// does not start with `@`: variables are never dependencies.
pub proof fn law_candidate_objects_not_variables(
    body: Seq<char>,
    caps: Seq<Option<(usize, usize)>>,
    op: Operation,
    source: Seq<char>,
    skip: Option<Seq<Seq<char>>>,
)
    requires
        crate::parser::captures_ok(body, caps),
        no_marked_variable(body),
    ensures
        forall|k: int|
            0 <= k < candidates_of(body, caps, op, source, skip).len() ==> (#[trigger] candidates_of(
                body,
                caps,
                op,
                source,
                skip,
            )[k]).1.0.len() > 0 && candidates_of(body, caps, op, source, skip)[k].1.0[0] != '@',
    decreases caps.len(),
{
    if caps.len() > 0 {
        let init = caps.drop_last();
        assert forall|i: int| 0 <= i < init.len() implies (#[trigger] init[i] matches Some(sp)
            ==> crate::pattern::valid_span(body, sp)) by {
            assert(init[i] == caps[i]);
        }
        law_candidate_objects_not_variables(body, init, op, source, skip);
        assert(caps.last() == caps[caps.len() - 1]);
        lemma_candidate_not_variable(body, caps.last(), op, source, skip);
        let p = candidates_of(body, init, op, source, skip);
        match candidate(body, caps.last(), op, source, skip) {
            Some(c) => {
                assert forall|k: int| 0 <= k < p.push(c).len() implies (#[trigger] p.push(c)[k]).1.0.len()
                    > 0 && p.push(c)[k].1.0[0] != '@' by {
                    if k < p.len() {
                        assert(p.push(c)[k] == p[k]);
                    }
                }
            },
            None => {},
        }
    }
}

/// Every candidate has an object that is non-empty and does not start with `@`.
pub open spec fn objects_not_variables(cs: Seq<(usize, DepV)>) -> bool {
    forall|k: int| 0 <= k < cs.len() ==> (#[trigger] cs[k]).1.0.len() > 0 && cs[k].1.0[0] != '@'
}

/// Position `i` starts a comment marker, `--` or `/*`.
pub open spec fn marker_at(s: Seq<char>, i: int) -> bool {
    0 <= i && i + 1 < s.len() && ((s[i] == '-' && s[i + 1] == '-') || (s[i] == '/' && s[i + 1]
        == '*'))
}

/// The text holds neither `--` nor `/*`.
pub open spec fn no_comment_marker(s: Seq<char>) -> bool {
    forall|i: int| !#[trigger] marker_at(s, i)
}

/// Once comments are removed, the text holds no comment marker and no quoting
/// character directly before an `@`.
pub open spec fn variables_unmarked(sql: Seq<char>) -> bool {
    no_comment_marker(strip_comments_spec(sql)) && no_marked_variable(strip_comments_spec(sql))
}

/// Every piece satisfies `no_marked_variable`.
pub open spec fn all_unmarked(xs: Seq<Seq<char>>) -> bool {
    forall|k: int| 0 <= k < xs.len() ==> no_marked_variable(#[trigger] xs[k])
}

proof fn lemma_no_marker_subrange(s: Seq<char>, a: int, b: int)
    requires
        no_comment_marker(s),
        0 <= a <= b <= s.len(),
    ensures
        no_comment_marker(s.subrange(a, b)),
{
    let u = s.subrange(a, b);
    assert forall|i: int| !#[trigger] marker_at(u, i) by {
        if marker_at(u, i) {
            assert(u[i] == s[a + i] && u[i + 1] == s[a + i + 1]);
            assert(marker_at(s, a + i));
        }
    }
}

/// Without comment markers, comment removal copies the text.
proof fn lemma_strip_plain(s: Seq<char>, i: int, m: Lex)
    requires
        no_comment_marker(s),
        0 <= i <= s.len(),
        m != Lex::LineComment,
        m != Lex::BlockComment,
    ensures
        strip_from(s, i, m) == s.skip(i),
    decreases s.len() - i,
{
    if i == s.len() {
        assert(s.skip(i) =~= Seq::<char>::empty());
    } else {
        let c = s[i];
        if m == Lex::Code {
            assert(!marker_at(s, i));
            if c == '\'' {
                lemma_strip_plain(s, i + 1, Lex::SingleQuoted);
            } else if c == '"' {
                lemma_strip_plain(s, i + 1, Lex::DoubleQuoted);
            } else if c == '[' {
                lemma_strip_plain(s, i + 1, Lex::Bracketed);
            } else {
                lemma_strip_plain(s, i + 1, Lex::Code);
            }
            assert(seq![c] + s.skip(i + 1) =~= s.skip(i));
        } else {
            let q = closer(m);
            if c == q {
                if i + 1 < s.len() && s[i + 1] == q {
                    lemma_strip_plain(s, i + 2, m);
                    assert(seq![c, q] + s.skip(i + 2) =~= s.skip(i));
                } else {
                    lemma_strip_plain(s, i + 1, Lex::Code);
                    assert(seq![c] + s.skip(i + 1) =~= s.skip(i));
                }
            } else {
                lemma_strip_plain(s, i + 1, m);
                assert(seq![c] + s.skip(i + 1) =~= s.skip(i));
            }
        }
    }
}

proof fn lemma_unmarked_join(a: Seq<char>, b: Seq<char>)
    requires
        no_marked_variable(a),
        no_marked_variable(b),
        a.len() == 0 || b.len() == 0 || !quote_chars().contains(a.last()) || b[0] != '@',
    ensures
        no_marked_variable(a + b),
{
    let u = a + b;
    assert forall|i: int| !#[trigger] marked_at(u, i) by {
        if marked_at(u, i) {
            if i + 1 < a.len() {
                assert(u[i] == a[i] && u[i + 1] == a[i + 1]);
                assert(marked_at(a, i));
            } else if i >= a.len() {
                assert(u[i] == b[i - a.len()] && u[i + 1] == b[i - a.len() + 1]);
                assert(marked_at(b, i - a.len()));
            } else {
                assert(u[i] == a.last() && u[i + 1] == b[0]);
            }
        }
    }
}

proof fn lemma_all_unmarked_concat(a: Seq<Seq<char>>, b: Seq<Seq<char>>)
    requires
        all_unmarked(a),
        all_unmarked(b),
    ensures
        all_unmarked(a + b),
{
    assert forall|k: int| 0 <= k < (a + b).len() implies no_marked_variable(#[trigger] (a + b)[k]) by {
        if k < a.len() {
            assert((a + b)[k] == a[k]);
        } else {
            assert((a + b)[k] == b[k - a.len()]);
        }
    }
}

/// Trimming keeps `no_marked_variable`.
proof fn lemma_trim_unmarked(x: Seq<char>)
    requires
        no_marked_variable(x),
    ensures
        no_marked_variable(trim(x)),
{
    lemma_trim_range(x);
    let (a, e) = choose|a: int, e: int|
        0 <= a <= e <= x.len() && trim(x) == x.subrange(a, e) && (forall|j: int|
            0 <= j < a ==> is_ws(#[trigger] x[j])) && (forall|j: int|
            e <= j < x.len() ==> is_ws(#[trigger] x[j])) && (a < e ==> !is_ws(x[a]) && !is_ws(
            x[e - 1],
        ));
    lemma_no_marked_subrange(x, a, e);
}

proof fn lemma_lines_unmarked(s: Seq<char>, i: int, start: int)
    requires
        no_marked_variable(s),
        0 <= start <= i <= s.len(),
    ensures
        all_unmarked(lines_from(s, i, s.subrange(start, i))),
    decreases s.len() - i,
{
    let cur = s.subrange(start, i);
    lemma_no_marked_subrange(s, start, i);
    if i == s.len() {
    } else if s[i] == '\n' {
        if cur.len() > 0 && cur.last() == '\r' {
            assert(cur.drop_last() =~= s.subrange(start, i - 1));
            lemma_no_marked_subrange(s, start, i - 1);
        }
        lemma_lines_unmarked(s, i + 1, i + 1);
        assert(s.subrange(i + 1, i + 1) =~= Seq::<char>::empty());
        lemma_all_unmarked_concat(seq![drop_cr(cur)], lines_from(s, i + 1, seq![]));
    } else {
        assert(cur.push(s[i]) =~= s.subrange(start, i + 1));
        lemma_lines_unmarked(s, i + 1, start);
    }
}

proof fn lemma_semi_unmarked(s: Seq<char>, i: int, start: int, q: bool)
    requires
        no_marked_variable(s),
        0 <= start <= i <= s.len(),
    ensures
        all_unmarked(semi_from(s, i, s.subrange(start, i), q)),
    decreases s.len() - i,
{
    let cur = s.subrange(start, i);
    lemma_no_marked_subrange(s, start, i);
    lemma_trim_unmarked(cur);
    if i < s.len() {
        let c = s[i];
        if c == '\'' {
            if q && i + 1 < s.len() && s[i + 1] == '\'' {
                assert(cur.push(c).push('\'') =~= s.subrange(start, i + 2));
                lemma_semi_unmarked(s, i + 2, start, q);
            } else {
                assert(cur.push(c) =~= s.subrange(start, i + 1));
                lemma_semi_unmarked(s, i + 1, start, !q);
            }
        } else if c == ';' && !q {
            lemma_semi_unmarked(s, i + 1, i + 1, q);
            assert(s.subrange(i + 1, i + 1) =~= Seq::<char>::empty());
            lemma_all_unmarked_concat(emit(cur), semi_from(s, i + 1, seq![], q));
        } else {
            assert(cur.push(c) =~= s.subrange(start, i + 1));
            lemma_semi_unmarked(s, i + 1, start, q);
        }
    }
}

proof fn lemma_batches_unmarked(ls: Seq<Seq<char>>, j: int, batch: Seq<char>, q: bool)
    requires
        all_unmarked(ls),
        no_marked_variable(batch),
        batch.len() == 0 || batch.last() == '\n',
        0 <= j <= ls.len(),
    ensures
        all_unmarked(batches_from(ls, j, batch, q)),
    decreases ls.len() - j,
{
    reveal_strlit("[]\"'`");
    lemma_semi_unmarked(batch, 0, 0, false);
    assert(batch.subrange(0, 0) =~= Seq::<char>::empty());
    if j < ls.len() {
        if !q && eq_ic(trim(ls[j]), "GO"@) {
            lemma_batches_unmarked(ls, j + 1, seq![], q);
            lemma_all_unmarked_concat(
                split_by_semicolon_spec(batch),
                batches_from(ls, j + 1, seq![], q),
            );
        } else {
            let l = ls[j];
            lemma_unmarked_join(l, seq!['\n']);
            assert(l + seq!['\n'] =~= l.push('\n'));
            assert(!quote_chars().contains('\n'));
            lemma_unmarked_join(batch, l.push('\n'));
            assert(batch + l.push('\n') == batch + ls[j].push('\n'));
            lemma_batches_unmarked(ls, j + 1, batch + l.push('\n'), quote_state_from(l, 0, q));
        }
    }
}

proof fn lemma_tidy_unmarked(xs: Seq<Seq<char>>)
    requires
        all_unmarked(xs),
    ensures
        all_unmarked(tidy(xs)),
    decreases xs.len(),
{
    if xs.len() > 0 {
        let init = xs.drop_last();
        assert forall|k: int| 0 <= k < init.len() implies no_marked_variable(#[trigger] init[k]) by {
            assert(init[k] == xs[k]);
        }
        lemma_tidy_unmarked(init);
        lemma_trim_unmarked(xs.last());
    }
}

/// The statements of a body free of comment markers keep its unmarked `@`s.
proof fn lemma_statements_unmarked(body: Seq<char>)
    requires
        no_comment_marker(body),
        no_marked_variable(body),
    ensures
        all_unmarked(split_statements_spec(body)),
{
    lemma_strip_plain(body, 0, Lex::Code);
    assert(body.skip(0) =~= body);
    lemma_lines_unmarked(body, 0, 0);
    assert(body.subrange(0, 0) =~= Seq::<char>::empty());
    lemma_batches_unmarked(lines(body), 0, seq![], false);
    lemma_tidy_unmarked(batches_from(lines(body), 0, seq![], false));
}

/// The body is a piece of the comment-free text, so it inherits what
/// `variables_unmarked` says of that text.
pub proof fn lemma_body_unmarked(sql: Seq<char>, body: Seq<char>)
    requires
        variables_unmarked(sql),
        body.len() <= trim(strip_comments_spec(sql)).len(),
        trim(strip_comments_spec(sql)).skip(trim(strip_comments_spec(sql)).len() - body.len())
            == body,
    ensures
        no_comment_marker(body),
        no_marked_variable(body),
{
    let c = strip_comments_spec(sql);
    lemma_trim_range(c);
    let (a, e) = choose|a: int, e: int|
        0 <= a <= e <= c.len() && trim(c) == c.subrange(a, e) && (forall|j: int|
            0 <= j < a ==> is_ws(#[trigger] c[j])) && (forall|j: int|
            e <= j < c.len() ==> is_ws(#[trigger] c[j])) && (a < e ==> !is_ws(c[a]) && !is_ws(
            c[e - 1],
        ));
    assert(body =~= c.subrange(e - body.len(), e));
    lemma_no_marked_subrange(c, e - body.len(), e);
    lemma_no_marker_subrange(c, e - body.len(), e);
}

proof fn lemma_objects_concat(a: Seq<(usize, DepV)>, b: Seq<(usize, DepV)>)
    requires
        objects_not_variables(a),
        objects_not_variables(b),
    ensures
        objects_not_variables(a + b),
{
    assert forall|k: int| 0 <= k < (a + b).len() implies (#[trigger] (a + b)[k]).1.0.len() > 0
        && (a + b)[k].1.0[0] != '@' by {
        if k < a.len() {
            assert((a + b)[k] == a[k]);
        } else {
            assert((a + b)[k] == b[k - a.len()]);
        }
    }
}

proof fn lemma_collect_not_variables(
    body: Seq<char>,
    pattern: Seq<char>,
    op: Operation,
    source: Seq<char>,
    skip: Option<Seq<Seq<char>>>,
)
    requires
        no_marked_variable(body),
    ensures
        objects_not_variables(collect_spec(body, pattern, op, source, skip)),
{
    match regex_captures_iter(pattern, body) {
        Some(caps) => if crate::parser::captures_ok(body, caps) {
            law_candidate_objects_not_variables(body, caps, op, source, skip);
        },
        None => {},
    }
}

proof fn lemma_stmt_not_variables(stmt: Seq<char>)
    requires
        no_marked_variable(stmt),
    ensures
        objects_not_variables(stmt_candidates(stmt)),
{
    let w1 = collect_spec(stmt, SELECT_INTO_PATTERN@, Operation::Write, "SELECT INTO"@, None);
    let w2 = collect_spec(stmt, INSERT_INTO_PATTERN@, Operation::Write, "INSERT INTO"@, None);
    let w3 = collect_spec(stmt, UPDATE_PATTERN@, Operation::Write, "UPDATE"@, None);
    let w4 = collect_spec(stmt, DELETE_PATTERN@, Operation::Write, "DELETE FROM"@, None);
    let w5 = collect_spec(stmt, MERGE_INTO_PATTERN@, Operation::Write, "MERGE INTO"@, None);
    lemma_collect_not_variables(stmt, SELECT_INTO_PATTERN@, Operation::Write, "SELECT INTO"@, None);
    lemma_collect_not_variables(stmt, INSERT_INTO_PATTERN@, Operation::Write, "INSERT INTO"@, None);
    lemma_collect_not_variables(stmt, UPDATE_PATTERN@, Operation::Write, "UPDATE"@, None);
    lemma_collect_not_variables(stmt, DELETE_PATTERN@, Operation::Write, "DELETE FROM"@, None);
    lemma_collect_not_variables(stmt, MERGE_INTO_PATTERN@, Operation::Write, "MERGE INTO"@, None);
    lemma_objects_concat(w1, w2);
    lemma_objects_concat(w1 + w2, w3);
    lemma_objects_concat(w1 + w2 + w3, w4);
    lemma_objects_concat(w1 + w2 + w3 + w4, w5);
    let w = write_candidates(stmt);
    assert(w == w1 + w2 + w3 + w4 + w5);
    let t = Some(objects_of(w));
    let r1 = collect_spec(stmt, FROM_PATTERN@, Operation::Read, "FROM"@, t);
    let r2 = collect_spec(stmt, JOIN_PATTERN@, Operation::Read, "JOIN"@, t);
    let r3 = collect_spec(stmt, USING_PATTERN@, Operation::Read, "USING"@, t);
    let x = collect_spec(stmt, EXEC_PATTERN@, Operation::Execute, "EXEC"@, None);
    lemma_collect_not_variables(stmt, FROM_PATTERN@, Operation::Read, "FROM"@, t);
    lemma_collect_not_variables(stmt, JOIN_PATTERN@, Operation::Read, "JOIN"@, t);
    lemma_collect_not_variables(stmt, USING_PATTERN@, Operation::Read, "USING"@, t);
    lemma_collect_not_variables(stmt, EXEC_PATTERN@, Operation::Execute, "EXEC"@, None);
    lemma_objects_concat(w, r1);
    lemma_objects_concat(w + r1, r2);
    lemma_objects_concat(w + r1 + r2, r3);
    lemma_objects_concat(w + r1 + r2 + r3, x);
    assert(stmt_candidates(stmt) == w + r1 + r2 + r3 + x);
}

proof fn lemma_all_candidates_not_variables(stmts: Seq<Seq<char>>)
    requires
        all_unmarked(stmts),
    ensures
        objects_not_variables(all_candidates(stmts)),
    decreases stmts.len(),
{
    if stmts.len() > 0 {
        let init = stmts.drop_last();
        assert forall|k: int| 0 <= k < init.len() implies no_marked_variable(#[trigger] init[k]) by {
            assert(init[k] == stmts[k]);
        }
        lemma_all_candidates_not_variables(init);
        let t = trim(stmts.last());
        assert(no_marked_variable(stmts[stmts.len() - 1]));
        lemma_trim_unmarked(stmts.last());
        let more: Seq<(usize, DepV)> = if t.len() == 0 {
            seq![]
        } else {
            stmt_candidates(t)
        };
        if t.len() > 0 {
            lemma_stmt_not_variables(t);
        }
        lemma_objects_concat(all_candidates(init), more);
    }
}

/// Variables are never dependencies: when the procedure's body holds no
/// comment marker and no quoting character directly before an `@`, every
/// dependency object is non-empty and does not start with `@`.
pub proof fn law_dependency_objects_not_variables(sql: Seq<char>)
    requires
        no_comment_marker(body_sql_spec(sql)),
        no_marked_variable(body_sql_spec(sql)),
    ensures
        forall|k: int|
            0 <= k < dependencies_spec(sql).len() ==> (#[trigger] dependencies_spec(sql)[k]).0.len() > 0
                && dependencies_spec(sql)[k].0[0] != '@',
{
    let body = body_sql_spec(sql);
    lemma_statements_unmarked(body);
    let cs = all_candidates(split_statements_spec(body));
    lemma_all_candidates_not_variables(split_statements_spec(body));
    lemma_objects_sorted(cs);
    lemma_objects_dedup(sort_by_pos(cs));
}

/// Reordering keeps the property.
proof fn lemma_objects_sorted(cs: Seq<(usize, DepV)>)
    requires
        objects_not_variables(cs),
    ensures
        objects_not_variables(sort_by_pos(cs)),
{
    law_sort_by_pos(cs);
    let s = sort_by_pos(cs);
    assert forall|k: int| 0 <= k < s.len() implies (#[trigger] s[k]).1.0.len() > 0 && s[k].1.0[0]
        != '@' by {
        assert(s.contains(s[k]));
        assert(s.to_multiset().count(s[k]) > 0);
        assert(cs.contains(s[k]));
        let j = choose|j: int| 0 <= j < cs.len() && cs[j] == s[k];
    }
}

/// Dropping repeats keeps the property, stated over the dependencies.
proof fn lemma_objects_dedup(cs: Seq<(usize, DepV)>)
    requires
        objects_not_variables(cs),
    ensures
        forall|k: int|
            0 <= k < dedup_first(seconds(cs)).len() ==> (#[trigger] dedup_first(seconds(cs))[k]).0.len()
                > 0 && dedup_first(seconds(cs))[k].0[0] != '@',
{
    let sc = seconds(cs);
    lemma_dedup_first(sc);
    let d = dedup_first(sc);
    assert forall|k: int| 0 <= k < d.len() implies (#[trigger] d[k]).0.len() > 0 && d[k].0[0] != '@' by {
        assert(d.contains(d[k]));
        assert(sc.contains(d[k]));
        let j = choose|j: int| 0 <= j < sc.len() && sc[j] == d[k];
        assert(sc[j] == cs[j].1);
    }
}

// ---------------------------------------------------------------------------
// Folder index
// ---------------------------------------------------------------------------

/// No entry goes before one that comes earlier.
pub open spec fn entries_ordered(s: Seq<ScanIndexEntry>) -> bool {
    forall|i: int, j: int| 0 <= i < j < s.len() ==> !entry_before(#[trigger] s[j], #[trigger] s[i])
}

proof fn lemma_entry_before_trans(a: ScanIndexEntry, b: ScanIndexEntry, c: ScanIndexEntry)
    requires
        entry_before(a, b),
        entry_before(b, c),
    ensures
        entry_before(a, c),
{
    if str_lt(a.procedure@, b.procedure@) && str_lt(b.procedure@, c.procedure@) {
        lemma_str_lt_trans(a.procedure@, b.procedure@, c.procedure@);
    }
    if a.procedure@ == b.procedure@ && b.procedure@ == c.procedure@ {
        crate::text::lemma_str_lt_irrefl(a.procedure@);
        lemma_str_lt_trans(a.source_file@, b.source_file@, c.source_file@);
    }
}

proof fn lemma_entry_before_asym(a: ScanIndexEntry, b: ScanIndexEntry)
    ensures
        !(entry_before(a, b) && entry_before(b, a)),
{
    lemma_str_lt_total(a.procedure@, b.procedure@);
    lemma_str_lt_total(a.source_file@, b.source_file@);
    crate::text::lemma_str_lt_irrefl(a.procedure@);
}

proof fn lemma_entry_insert_point(sorted: Seq<ScanIndexEntry>, x: ScanIndexEntry, i: int)
    requires
        0 <= i <= sorted.len(),
    ensures
        i <= entry_insert_point(sorted, x, i) <= sorted.len(),
        forall|t: int|
            i <= t < entry_insert_point(sorted, x, i) ==> !entry_before(x, #[trigger] sorted[t]),
        entry_insert_point(sorted, x, i) < sorted.len() ==> entry_before(
            x,
            sorted[entry_insert_point(sorted, x, i)],
        ),
    decreases sorted.len() - i,
{
    if i < sorted.len() && !entry_before(x, sorted[i]) {
        lemma_entry_insert_point(sorted, x, i + 1);
    }
}

/// The folder index is ordered by procedure name, then source file, and
/// holds every entry it was given, each as often as it was given.
pub proof fn law_index_entries_sorted(s: Seq<ScanIndexEntry>)
    ensures
        entries_ordered(sort_entries_spec(s)),
        sort_entries_spec(s).to_multiset() == s.to_multiset(),
    decreases s.len(),
{
    if s.len() > 0 {
        let p = sort_entries_spec(s.drop_last());
        law_index_entries_sorted(s.drop_last());
        let x = s.last();
        lemma_entry_insert_point(p, x, 0);
        let k = entry_insert_point(p, x, 0);
        let q = p.insert(k, x);
        assert(q == sort_entries_spec(s));
        assert forall|i: int, j: int| 0 <= i < j < q.len() implies !entry_before(
            #[trigger] q[j],
            #[trigger] q[i],
        ) by {
            if j < k {
                assert(q[i] == p[i] && q[j] == p[j]);
            } else if j == k {
                assert(q[i] == p[i]);
                assert(!entry_before(x, p[i]));
            } else if i == k {
                assert(q[j] == p[j - 1]);
                if entry_before(p[j - 1], x) {
                    if j - 1 == k {
                        lemma_entry_before_asym(x, p[k]);
                    } else {
                        lemma_entry_before_trans(p[j - 1], x, p[k]);
                        assert(!entry_before(p[j - 1], p[k]));
                    }
                }
            } else if i < k {
                assert(q[i] == p[i] && q[j] == p[j - 1]);
                assert(!entry_before(p[j - 1], p[i]));
            } else {
                assert(q[i] == p[i - 1] && q[j] == p[j - 1]);
                assert(!entry_before(p[j - 1], p[i - 1]));
            }
        }
        vstd::seq_lib::to_multiset_insert(p, k, x);
        assert(s =~= s.drop_last().push(x));
        vstd::seq_lib::to_multiset_build(s.drop_last(), x);
    }
}

/// The statement summaries of an analysed procedure are numbered 1, 2, 3, ...
/// in order.
pub proof fn law_statements_numbered_from_one(
    sql: Seq<char>,
    m: Map<Seq<char>, RuleConfig>,
    t: ProcedureTrace,
)
    requires
        is_trace_of(sql, m, t),
    ensures
        forall|k: int| 0 <= k < t.statements@.len() ==> (#[trigger] t.statements@[k]).index == k + 1,
{
    assert forall|k: int| 0 <= k < t.statements@.len() implies (#[trigger] t.statements@[k]).index
        == k + 1 by {
        let sv = crate::parser::summaries_view(t.statements@);
        let ss = crate::parser::summaries_spec(sql);
        assert(sv.len() == t.statements@.len());
        assert(sv[k].0 == t.statements@[k].index);
        assert(t.statements@.len() == t.statements.len());
        assert(k + 1 <= usize::MAX);
        assert(ss[k] == crate::parser::summary_of(
            k + 1,
            crate::parser::cleaned_statements(
                split_statements_spec(body_sql_spec(sql)),
            )[k],
        ));
    }
}

} // verus!
