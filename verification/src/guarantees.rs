//! What the operations are for, stated over all inputs: which statements a
//! rule reports, which parameters a diff lists as added or removed, which
//! commas separate parameters, which statements are transactions and which
//! `EXEC` targets are built-ins.
use vstd::prelude::*;
use crate::laws::{
    configured, disabled, law_findings_kept, law_group_objects, law_set_diff,
    lemma_apply_config_members,
};
use crate::model::{deps_view, dep_view, param_view, risk_view, Operation, ProcedureTrace, RuleConfig, StatementKind};
use crate::normalizer::{emit, split_statements_spec};
use crate::parser::{body_sql_spec, builtin_exec, candidate, classify_spec, items_from};
use crate::pattern::span_text;
use crate::report::{
    diff_dependencies, diff_parameters, diff_temps_and_risks, group, param_entry,
    parameter_set_spec, risk_entry, risk_rule_set_spec, section, set_diff_spec, GroupKind,
};
use crate::rules::{
    any_insert_select, apply_config, clean_rule, cursor_finding, delete_finding, delete_findings,
    dynamic_sql_finding, hardcoded_date_finding, hits_of, insert_select_finding,
    is_delete_without_where, is_insert_select_no_distinct, is_update_without_where, leading_findings, lemma_rule_ids_distinct,
    linked_server_finding, multi_join_aggregation, multi_join_finding, nolock_finding,
    opt_finding, raw_findings, risks_spec, rollback_finding, rule_table, select_star_finding,
    statement_findings, status_finding, trailing_findings, temp_chain_finding, transaction_finding,
    transaction_without_trycatch, trycatch_without_rollback, update_finding, update_findings,
    FindingV,
};
use crate::text::{
    contains, decimal, eq_ic, sviews, lemma_sorted_set, lower, occurs_at, sorted_strict, starts_with, trim,
    trim_start, upper,
};

verus! {

broadcast use vstd::seq_lib::group_to_multiset_ensures;

// ---------------------------------------------------------------------------
// DELETE without WHERE
// ---------------------------------------------------------------------------

/// A statement that, cleaned as the rules clean statements and upper-cased,
/// starts with `DELETE` and has no ` WHERE `.
pub open spec fn unguarded_delete(stmt: Seq<char>) -> bool {
    match clean_rule(stmt) {
        Some(c) => starts_with(upper(trim_start(c)), "DELETE"@) && !contains(
            upper(trim_start(c)),
            " WHERE "@,
        ),
        None => false,
    }
}

/// No finding of the list has the rule id `id`.
pub open spec fn avoids(s: Seq<FindingV>, id: Seq<char>) -> bool {
    forall|k: int| 0 <= k < s.len() ==> (#[trigger] s[k]).0 != id
}

proof fn lemma_avoids_concat(a: Seq<FindingV>, b: Seq<FindingV>, id: Seq<char>)
    requires
        avoids(a, id),
        avoids(b, id),
    ensures
        avoids(a + b, id),
{
    assert forall|k: int| 0 <= k < (a + b).len() implies (#[trigger] (a + b)[k]).0 != id by {
        if k < a.len() {
            assert((a + b)[k] == a[k]);
        } else {
            assert((a + b)[k] == b[k - a.len()]);
        }
    }
}

proof fn lemma_avoids_opt(b: bool, x: FindingV, id: Seq<char>)
    requires
        x.0 != id,
    ensures
        avoids(opt_finding(b, x), id),
{
}

proof fn lemma_from_right(a: Seq<FindingV>, b: Seq<FindingV>, f: FindingV)
    requires
        (a + b).contains(f),
        avoids(a, f.0),
    ensures
        b.contains(f),
{
    let k = choose|k: int| 0 <= k < (a + b).len() && (a + b)[k] == f;
    if k < a.len() {
        assert((a + b)[k] == a[k]);
    } else {
        assert((a + b)[k] == b[k - a.len()]);
    }
}

proof fn lemma_from_left(a: Seq<FindingV>, b: Seq<FindingV>, f: FindingV)
    requires
        (a + b).contains(f),
        avoids(b, f.0),
    ensures
        a.contains(f),
{
    let k = choose|k: int| 0 <= k < (a + b).len() && (a + b)[k] == f;
    if k < a.len() {
        assert((a + b)[k] == a[k]);
    } else {
        assert((a + b)[k] == b[k - a.len()]);
    }
}

proof fn lemma_into_left(a: Seq<FindingV>, b: Seq<FindingV>, f: FindingV)
    requires
        a.contains(f),
    ensures
        (a + b).contains(f),
{
    let k = choose|k: int| 0 <= k < a.len() && a[k] == f;
    assert((a + b)[k] == f);
}

proof fn lemma_into_right(a: Seq<FindingV>, b: Seq<FindingV>, f: FindingV)
    requires
        b.contains(f),
    ensures
        (a + b).contains(f),
{
    let k = choose|k: int| 0 <= k < b.len() && b[k] == f;
    assert((a + b)[a.len() + k] == f);
}

/// The rule ids of the table, against the id of the DELETE rule.
proof fn lemma_other_ids()
    ensures
        select_star_finding().0 != delete_finding().0,
        nolock_finding().0 != delete_finding().0,
        dynamic_sql_finding().0 != delete_finding().0,
        linked_server_finding().0 != delete_finding().0,
        update_finding().0 != delete_finding().0,
        insert_select_finding().0 != delete_finding().0,
        multi_join_finding().0 != delete_finding().0,
        cursor_finding().0 != delete_finding().0,
        transaction_finding().0 != delete_finding().0,
        rollback_finding().0 != delete_finding().0,
        hardcoded_date_finding().0 != delete_finding().0,
        status_finding().0 != delete_finding().0,
        temp_chain_finding().0 != delete_finding().0,
{
    lemma_rule_ids_distinct();
    let t = rule_table();
    assert(t[0] == select_star_finding() && t[1] == nolock_finding() && t[2] == dynamic_sql_finding()
        && t[3] == linked_server_finding() && t[4] == update_finding() && t[5] == delete_finding()
        && t[6] == insert_select_finding() && t[7] == multi_join_finding() && t[8] == cursor_finding()
        && t[9] == transaction_finding() && t[10] == rollback_finding() && t[11]
        == hardcoded_date_finding() && t[12] == status_finding() && t[13] == temp_chain_finding());
    assert(t[0].0 != t[5].0);
    assert(t[1].0 != t[5].0);
    assert(t[2].0 != t[5].0);
    assert(t[3].0 != t[5].0);
    assert(t[4].0 != t[5].0);
    assert(t[6].0 != t[5].0);
    assert(t[7].0 != t[5].0);
    assert(t[8].0 != t[5].0);
    assert(t[9].0 != t[5].0);
    assert(t[10].0 != t[5].0);
    assert(t[11].0 != t[5].0);
    assert(t[12].0 != t[5].0);
    assert(t[13].0 != t[5].0);
}

proof fn lemma_update_avoids(stmts: Seq<Seq<char>>)
    ensures
        avoids(update_findings(stmts), delete_finding().0),
    decreases stmts.len(),
{
    lemma_other_ids();
    if stmts.len() > 0 {
        lemma_update_avoids(stmts.drop_last());
        lemma_avoids_opt(is_update_without_where(stmts.last()), update_finding(), delete_finding().0);
        lemma_avoids_concat(
            update_findings(stmts.drop_last()),
            opt_finding(is_update_without_where(stmts.last()), update_finding()),
            delete_finding().0,
        );
    }
}

proof fn lemma_delete_findings_origin(stmts: Seq<Seq<char>>, f: FindingV)
    requires
        delete_findings(stmts).contains(f),
    ensures
        exists|i: int| 0 <= i < stmts.len() && is_delete_without_where(#[trigger] stmts[i]),
    decreases stmts.len(),
{
    let init = stmts.drop_last();
    let o = opt_finding(is_delete_without_where(stmts.last()), delete_finding());
    if is_delete_without_where(stmts.last()) {
        assert(is_delete_without_where(stmts[stmts.len() - 1]));
    } else {
        assert(o =~= Seq::<FindingV>::empty());
        assert(delete_findings(stmts) =~= delete_findings(init));
        lemma_delete_findings_origin(init, f);
        let i = choose|i: int| 0 <= i < init.len() && is_delete_without_where(#[trigger] init[i]);
        assert(stmts[i] == init[i]);
    }
}

proof fn lemma_delete_findings_found(stmts: Seq<Seq<char>>, i: int)
    requires
        0 <= i < stmts.len(),
        is_delete_without_where(stmts[i]),
    ensures
        delete_findings(stmts).contains(delete_finding()),
    decreases stmts.len(),
{
    let init = stmts.drop_last();
    let o = opt_finding(is_delete_without_where(stmts.last()), delete_finding());
    if i == stmts.len() - 1 {
        assert(o[0] == delete_finding());
        lemma_into_right(delete_findings(init), o, delete_finding());
    } else {
        assert(init[i] == stmts[i]);
        lemma_delete_findings_found(init, i);
        lemma_into_left(delete_findings(init), o, delete_finding());
    }
}

proof fn lemma_leading_avoids(body: Seq<char>)
    ensures
        avoids(leading_findings(hits_of(body)), delete_finding().0),
{
    let id = delete_finding().0;
    lemma_other_ids();
    let h = hits_of(body);
    let l0 = opt_finding(h.select_star, select_star_finding());
    let l1 = opt_finding(h.nolock, nolock_finding());
    let l2 = opt_finding(h.exec_dynamic || h.sp_executesql, dynamic_sql_finding());
    let l3 = opt_finding(h.linked_server, linked_server_finding());
    lemma_avoids_opt(h.select_star, select_star_finding(), id);
    lemma_avoids_opt(h.nolock, nolock_finding(), id);
    lemma_avoids_opt(h.exec_dynamic || h.sp_executesql, dynamic_sql_finding(), id);
    lemma_avoids_opt(h.linked_server, linked_server_finding(), id);
    lemma_avoids_concat(l0, l1, id);
    lemma_avoids_concat(l0 + l1, l2, id);
    lemma_avoids_concat(l0 + l1 + l2, l3, id);
}

proof fn lemma_trailing_avoids(body: Seq<char>, n: nat)
    ensures
        avoids(trailing_findings(body, hits_of(body), n), delete_finding().0),
{
    let id = delete_finding().0;
    lemma_other_ids();
    let h = hits_of(body);
    let t0 = opt_finding(multi_join_aggregation(body, h), multi_join_finding());
    let t1 = opt_finding(h.cursor, cursor_finding());
    let t2 = opt_finding(transaction_without_trycatch(body), transaction_finding());
    let t3 = opt_finding(trycatch_without_rollback(body), rollback_finding());
    let t4 = opt_finding(h.date_literal, hardcoded_date_finding());
    let t5 = opt_finding(h.status_number, status_finding());
    let t6 = opt_finding(n >= 3, temp_chain_finding());
    lemma_avoids_opt(multi_join_aggregation(body, h), multi_join_finding(), id);
    lemma_avoids_opt(h.cursor, cursor_finding(), id);
    lemma_avoids_opt(transaction_without_trycatch(body), transaction_finding(), id);
    lemma_avoids_opt(trycatch_without_rollback(body), rollback_finding(), id);
    lemma_avoids_opt(h.date_literal, hardcoded_date_finding(), id);
    lemma_avoids_opt(h.status_number, status_finding(), id);
    lemma_avoids_opt(n >= 3, temp_chain_finding(), id);
    lemma_avoids_concat(t0, t1, id);
    lemma_avoids_concat(t0 + t1, t2, id);
    lemma_avoids_concat(t0 + t1 + t2, t3, id);
    lemma_avoids_concat(t0 + t1 + t2 + t3, t4, id);
    lemma_avoids_concat(t0 + t1 + t2 + t3 + t4, t5, id);
    lemma_avoids_concat(t0 + t1 + t2 + t3 + t4 + t5, t6, id);
}

/// The raw findings split into what comes before the DELETE rule's findings,
/// those findings, and what comes after; neither outer part has its id.
proof fn lemma_raw_around_delete(body: Seq<char>, n: nat) -> (pp: (Seq<FindingV>, Seq<FindingV>))
    ensures
        raw_findings(body, n) == pp.0 + delete_findings(split_statements_spec(body)) + pp.1,
        avoids(pp.0, delete_finding().0),
        avoids(pp.1, delete_finding().0),
{
    let id = delete_finding().0;
    lemma_other_ids();
    let h = hits_of(body);
    let stmts = split_statements_spec(body);
    lemma_leading_avoids(body);
    lemma_trailing_avoids(body, n);
    lemma_update_avoids(stmts);
    let l = leading_findings(h);
    let u = update_findings(stmts);
    let d = delete_findings(stmts);
    let i6 = opt_finding(any_insert_select(stmts), insert_select_finding());
    lemma_avoids_opt(any_insert_select(stmts), insert_select_finding(), id);
    let tr = trailing_findings(body, h, n);
    lemma_avoids_concat(l, u, id);
    lemma_avoids_concat(i6, tr, id);
    assert(statement_findings(stmts) == u + d + i6);
    assert(raw_findings(body, n) == l + statement_findings(stmts) + tr);
    vstd::seq_lib::lemma_concat_associative(l, u + d, i6);
    vstd::seq_lib::lemma_concat_associative(l, u, d);
    vstd::seq_lib::lemma_concat_associative(l + u + d, i6, tr);
    (l + u, i6 + tr)
}

/// `delete_without_where` is reported exactly for statements that start with
/// `DELETE` and have no ` WHERE `: the finding never comes from a statement
/// with a ` WHERE `, and, unless the configuration names the rule, every such
/// statement brings it.
pub proof fn law_delete_without_where(sql: Seq<char>, temp_table_count: nat, m: Map<Seq<char>, RuleConfig>)
    ensures
        forall|k: int|
            0 <= k < risks_spec(sql, temp_table_count, m).len() && (#[trigger] risks_spec(
                sql,
                temp_table_count,
                m,
            )[k]).0 == "delete_without_where"@ ==> exists|i: int|
                0 <= i < split_statements_spec(body_sql_spec(sql)).len() && unguarded_delete(
                    #[trigger] split_statements_spec(body_sql_spec(sql))[i],
                ),
        !m.contains_key("delete_without_where"@) && (exists|i: int|
            0 <= i < split_statements_spec(body_sql_spec(sql)).len() && unguarded_delete(
                #[trigger] split_statements_spec(body_sql_spec(sql))[i],
            )) ==> exists|k: int|
            0 <= k < risks_spec(sql, temp_table_count, m).len() && (#[trigger] risks_spec(
                sql,
                temp_table_count,
                m,
            )[k]).0 == "delete_without_where"@,
{
    let body = body_sql_spec(sql);
    let stmts = split_statements_spec(body);
    let raw = raw_findings(body, temp_table_count);
    let r = risks_spec(sql, temp_table_count, m);
    let id = delete_finding().0;
    assert(id == "delete_without_where"@);
    law_findings_kept(sql, temp_table_count, m);
    lemma_apply_config_members(raw, m);
    let (pre, post) = lemma_raw_around_delete(body, temp_table_count);
    let d = delete_findings(stmts);
    assert forall|k: int|
        0 <= k < r.len() && (#[trigger] r[k]).0 == "delete_without_where"@ implies exists|i: int|
        0 <= i < stmts.len() && unguarded_delete(#[trigger] stmts[i]) by {
        assert(r.contains(r[k]));
        let j = choose|j: int| 0 <= j < raw.len() && !disabled(m, raw[j].0) && r[k] == configured(#[trigger] raw[j], m);
        let f = raw[j];
        assert(f.0 == id);
        assert(raw.contains(f));
        lemma_from_left(pre + d, post, f);
        lemma_from_right(pre, d, f);
        lemma_delete_findings_origin(stmts, f);
        let i = choose|i: int| 0 <= i < stmts.len() && is_delete_without_where(#[trigger] stmts[i]);
        assert(unguarded_delete(stmts[i]));
    }
    if !m.contains_key("delete_without_where"@) && (exists|i: int|
        0 <= i < stmts.len() && unguarded_delete(#[trigger] stmts[i])) {
        let i = choose|i: int| 0 <= i < stmts.len() && unguarded_delete(#[trigger] stmts[i]);
        assert(is_delete_without_where(stmts[i]));
        lemma_delete_findings_found(stmts, i);
        lemma_into_right(pre, d, delete_finding());
        lemma_into_left(pre + d, post, delete_finding());
        let j = choose|j: int| 0 <= j < raw.len() && raw[j] == delete_finding();
        assert(!disabled(m, raw[j].0) && delete_finding() == configured(raw[j], m));
        assert(apply_config(raw, m).contains(delete_finding()));
        assert(r.contains(delete_finding()));
        let k = choose|k: int| 0 <= k < r.len() && r[k] == delete_finding();
        assert(r[k].0 == "delete_without_where"@);
    }
}

// ---------------------------------------------------------------------------
// Parameter changes in the diff
// ---------------------------------------------------------------------------

/// The trace declares a parameter whose entry (`@name TYPE` or
/// `@name TYPE = default`) is `x`.
pub open spec fn declares(t: ProcedureTrace, x: Seq<char>) -> bool {
    exists|k: int| 0 <= k < t.parameters@.len() && param_entry(param_view(#[trigger] t.parameters@[k])) == x
}

proof fn lemma_parameter_set_members(t: ProcedureTrace)
    ensures
        forall|x: Seq<char>| #[trigger] parameter_set_spec(t).contains(x) <==> declares(t, x),
{
    let ps = crate::model::params_view(t.parameters@);
    let es = ps.map_values(|p: (Seq<char>, Seq<char>, Option<Seq<char>>)| param_entry(p));
    lemma_sorted_set(es);
    assert forall|x: Seq<char>| #[trigger] parameter_set_spec(t).contains(x) <==> declares(t, x) by {
        if es.contains(x) {
            let k = choose|k: int| 0 <= k < es.len() && es[k] == x;
            assert(es[k] == param_entry(param_view(t.parameters@[k])));
        }
        if declares(t, x) {
            let k = choose|k: int| 0 <= k < t.parameters@.len() && param_entry(param_view(#[trigger] t.parameters@[k])) == x;
            assert(es[k] == x);
        }
    }
}

/// The parameter section `text` lists `added` under "Added" and `removed`
/// under "Removed": exactly the parameter entries of `after` that `before`
/// lacks, and those of `before` that `after` lacks, each list in strictly
/// increasing order.
pub open spec fn shows_parameter_changes(
    text: Seq<char>,
    added: Seq<Seq<char>>,
    removed: Seq<Seq<char>>,
    before: ProcedureTrace,
    after: ProcedureTrace,
) -> bool {
    &&& text == "## Parameter Changes\n"@ + section("Added"@, added) + section("Removed"@, removed)
        + "\n"@
    &&& sorted_strict(added)
    &&& sorted_strict(removed)
    &&& forall|x: Seq<char>| #[trigger] added.contains(x) <==> declares(after, x) && !declares(before, x)
    &&& forall|x: Seq<char>| #[trigger] removed.contains(x) <==> declares(before, x) && !declares(after, x)
}

/// The parameter section of the diff report lists under "Added" exactly the
/// parameters that only the after version declares, and under "Removed"
/// exactly those that only the before version declares.
pub proof fn law_diff_parameter_changes(before: ProcedureTrace, after: ProcedureTrace)
    ensures
        exists|added: Seq<Seq<char>>, removed: Seq<Seq<char>>|
            #[trigger] shows_parameter_changes(diff_parameters(before, after), added, removed, before, after),
{
    let bp = parameter_set_spec(before);
    let ap = parameter_set_spec(after);
    lemma_parameter_set_members(before);
    lemma_parameter_set_members(after);
    law_set_diff(ap, bp);
    law_set_diff(bp, ap);
    let added = set_diff_spec(ap, bp);
    let removed = set_diff_spec(bp, ap);
    assert forall|x: Seq<char>| #[trigger] added.contains(x) <==> declares(after, x) && !declares(before, x) by {
        assert(ap.contains(x) <==> declares(after, x));
        assert(bp.contains(x) <==> declares(before, x));
    }
    assert forall|x: Seq<char>| #[trigger] removed.contains(x) <==> declares(before, x) && !declares(after, x) by {
        assert(ap.contains(x) <==> declares(after, x));
        assert(bp.contains(x) <==> declares(before, x));
    }
    assert(shows_parameter_changes(diff_parameters(before, after), added, removed, before, after));
}

// ---------------------------------------------------------------------------
// Parameter items
// ---------------------------------------------------------------------------

/// After reading `s`: the parentheses left open outside `'..'` literals (a
/// `)` with none open is ignored), and whether a literal is open (every `'`
/// opens or closes one, so a doubled `''` inside a literal keeps it open).
pub open spec fn item_state(s: Seq<char>) -> (nat, bool)
    decreases s.len(),
{
    if s.len() == 0 {
        (0, false)
    } else {
        let (d, q) = item_state(s.drop_last());
        let c = s.last();
        if c == '\'' {
            (d, !q)
        } else if !q && c == '(' {
            (d + 1, q)
        } else if !q && c == ')' {
            (if d > 0 {
                (d - 1) as nat
            } else {
                0
            }, q)
        } else {
            (d, q)
        }
    }
}

/// Every comma of `s` stands inside parentheses or inside a literal.
pub open spec fn commas_enclosed(s: Seq<char>) -> bool {
    forall|i: int|
        0 <= i < s.len() && #[trigger] s[i] == ',' ==> item_state(s.take(i)).0 > 0 || item_state(
            s.take(i),
        ).1
}

proof fn lemma_take_step(s: Seq<char>, i: int)
    requires
        0 <= i < s.len(),
    ensures
        s.take(i + 1).drop_last() == s.take(i),
        s.take(i + 1).last() == s[i],
        s.take(i).push(s[i]) == s.take(i + 1),
{
    assert(s.take(i + 1).drop_last() =~= s.take(i));
    assert(s.take(i).push(s[i]) =~= s.take(i + 1));
}

proof fn lemma_items_enclosed(s: Seq<char>, rest: Seq<char>, i: int)
    requires
        0 <= i <= s.len(),
        commas_enclosed(s),
        rest.len() == 0 || (rest[0] == ',' && item_state(s) == (0nat, false)),
    ensures
        items_from(s + rest, i, s.take(i), item_state(s.take(i)).0, item_state(s.take(i)).1) == emit(s)
            + (if rest.len() == 0 {
            Seq::<Seq<char>>::empty()
        } else {
            items_from(s + rest, s.len() + 1int, seq![], 0, false)
        }),
    decreases s.len() - i,
{
    let t = s + rest;
    if i == s.len() {
        assert(s.take(i) =~= s);
        if rest.len() == 0 {
            assert(t =~= s);
            assert(emit(s) + Seq::<Seq<char>>::empty() =~= emit(s));
        } else {
            assert(t[i] == ',');
        }
    } else {
        let c = s[i];
        assert(t[i] == c);
        lemma_take_step(s, i);
        let (d, q) = item_state(s.take(i));
        if c == '\'' && q && i + 1 < s.len() && s[i + 1] == '\'' {
            assert(t[i + 1] == '\'');
            lemma_take_step(s, i + 1);
            assert(s.take(i).push(c).push('\'') == s.take(i + 2));
            lemma_items_enclosed(s, rest, i + 2);
        } else {
            if c == '\'' && q && i + 1 == s.len() && rest.len() > 0 {
                assert(item_state(s) == (d, false));
                assert(t[i + 1] == ',');
            }
            if c == ',' {
                assert(d > 0 || q);
            }
            lemma_items_enclosed(s, rest, i + 1);
        }
    }
}

/// A comma inside parentheses or inside a `'..'` literal never separates
/// parameter items: a block whose every comma is so enclosed is one item
/// (none when blank), e.g. `@A DECIMAL(18, 2) = 0` or `@N VARCHAR(9) = 'A, B'`.
pub proof fn law_enclosed_commas_keep_one_item(block: Seq<char>)
    requires
        commas_enclosed(block),
    ensures
        items_from(block, 0, seq![], 0, false) == emit(block),
{
    lemma_items_enclosed(block, Seq::<char>::empty(), 0);
    assert(block.take(0) =~= Seq::<char>::empty());
    assert(block + Seq::<char>::empty() =~= block);
}

proof fn lemma_items_shift(a: Seq<char>, b: Seq<char>, j: int, cur: Seq<char>, depth: nat, q: bool)
    requires
        0 <= j <= b.len(),
    ensures
        items_from(a + b, a.len() + j, cur, depth, q) == items_from(b, j, cur, depth, q),
    decreases b.len() - j,
{
    if j < b.len() {
        let s = a + b;
        assert(s[a.len() + j] == b[j]);
        if j + 1 < b.len() {
            assert(s[a.len() + j + 1] == b[j + 1]);
        }
        let c = b[j];
        if c == '\'' {
            if q {
                if j + 1 < b.len() && b[j + 1] == '\'' {
                    lemma_items_shift(a, b, j + 2, cur.push(c).push('\''), depth, q);
                } else {
                    lemma_items_shift(a, b, j + 1, cur.push(c), depth, false);
                }
            } else {
                lemma_items_shift(a, b, j + 1, cur.push(c), depth, true);
            }
        } else if !q && c == '(' {
            lemma_items_shift(a, b, j + 1, cur.push(c), depth + 1, q);
        } else if !q && c == ')' {
            lemma_items_shift(a, b, j + 1, cur.push(c), if depth > 0 { (depth - 1) as nat } else { 0 }, q);
        } else if !q && c == ',' && depth == 0 {
            lemma_items_shift(a, b, j + 1, seq![], depth, q);
        } else {
            lemma_items_shift(a, b, j + 1, cur.push(c), depth, q);
        }
    }
}

/// A comma outside parentheses and outside literals does separate items:
/// when `a` closes all its parentheses and literals and has no other such
/// comma, the items of `a , b` are the item of `a` followed by the items of
/// `b`.
pub proof fn law_top_level_comma_splits(a: Seq<char>, b: Seq<char>)
    requires
        commas_enclosed(a),
        item_state(a) == (0nat, false),
    ensures
        items_from(a + seq![','] + b, 0, seq![], 0, false) == emit(a) + items_from(b, 0, seq![], 0, false),
{
    let rest = seq![','] + b;
    assert(a + seq![','] + b =~= a + rest);
    lemma_items_enclosed(a, rest, 0);
    assert(a.take(0) =~= Seq::<char>::empty());
    lemma_items_shift(a + seq![','], b, 0, seq![], 0, false);
    assert((a + seq![',']).len() == a.len() + 1);
}

// ---------------------------------------------------------------------------
// Transaction statements
// ---------------------------------------------------------------------------

/// The statement, upper-cased, begins with a data or call keyword.
pub open spec fn starts_with_command(u: Seq<char>) -> bool {
    starts_with(u, "SELECT"@) || starts_with(u, "INSERT"@) || starts_with(u, "UPDATE"@) || starts_with(
        u,
        "DELETE"@,
    ) || starts_with(u, "MERGE"@) || starts_with(u, "EXEC"@)
}

/// The statement, upper-cased, begins with a data keyword or `EXECUTE`.
pub open spec fn starts_with_data_command(u: Seq<char>) -> bool {
    starts_with(u, "SELECT"@) || starts_with(u, "INSERT"@) || starts_with(u, "UPDATE"@) || starts_with(
        u,
        "DELETE"@,
    ) || starts_with(u, "MERGE"@) || starts_with(u, "EXECUTE"@)
}

/// The statement, upper-cased, mentions transaction control.
pub open spec fn mentions_transaction(u: Seq<char>) -> bool {
    contains(u, "BEGIN TRAN"@) || contains(u, "COMMIT"@) || contains(u, "ROLLBACK"@)
}

proof fn lemma_prefix_of_prefix(u: Seq<char>, p: Seq<char>, q: Seq<char>)
    requires
        starts_with(u, p),
        q.len() <= p.len(),
        p.take(q.len() as int) == q,
    ensures
        starts_with(u, q),
{
    assert(u.take(q.len() as int) =~= u.take(p.len() as int).take(q.len() as int));
}

/// A statement that starts with none of `SELECT`, `INSERT`, `UPDATE`,
/// `DELETE`, `MERGE`, `EXEC` is a transaction statement exactly when it
/// mentions `BEGIN TRAN`, `COMMIT` or `ROLLBACK` (upper-cased); one that
/// starts with a data keyword or `EXECUTE` never is.
pub proof fn law_transaction_statements(stmt: Seq<char>)
    ensures
        !starts_with_command(upper(trim_start(stmt))) ==> (classify_spec(stmt)
            == StatementKind::Transaction <==> mentions_transaction(upper(trim_start(stmt)))),
        starts_with_data_command(upper(trim_start(stmt))) ==> classify_spec(stmt)
            != StatementKind::Transaction,
{
    reveal_strlit("SELECT INTO");
    reveal_strlit("SELECT");
    reveal_strlit("EXECUTE");
    reveal_strlit("EXEC ");
    reveal_strlit("EXEC");
    reveal_strlit("BEGIN TRANSACTION");
    reveal_strlit("BEGIN TRAN");
    let u = upper(trim_start(stmt));
    assert("SELECT INTO"@.take(6) =~= "SELECT"@);
    assert("EXECUTE"@.take(4) =~= "EXEC"@);
    assert("EXEC "@.take(4) =~= "EXEC"@);
    if starts_with(u, "SELECT INTO"@) {
        lemma_prefix_of_prefix(u, "SELECT INTO"@, "SELECT"@);
    }
    if starts_with(u, "EXECUTE"@) {
        lemma_prefix_of_prefix(u, "EXECUTE"@, "EXEC"@);
    }
    if starts_with(u, "EXEC "@) {
        lemma_prefix_of_prefix(u, "EXEC "@, "EXEC"@);
    }
    if u == "EXEC"@ {
        assert(u.take(4) =~= "EXEC"@);
    }
    if starts_with(u, "EXEC"@) {
        assert(starts_with(u, "EXECUTE"@) || starts_with(u, "EXEC "@) || u == "EXEC"@
            || !(starts_with(u, "EXECUTE"@) || starts_with(u, "EXEC "@) || u == "EXEC"@));
    }
    if contains(u, "BEGIN TRANSACTION"@) {
        let i = choose|i: int| occurs_at(u, "BEGIN TRANSACTION"@, i);
        assert(u.subrange(i, i + 10) =~= u.subrange(i, i + 17).subrange(0, 10));
        assert("BEGIN TRANSACTION"@.subrange(0, 10) =~= "BEGIN TRAN"@);
        assert(occurs_at(u, "BEGIN TRAN"@, i));
    }
}

proof fn lemma_first_char(u: Seq<char>, p: Seq<char>)
    requires
        starts_with(u, p),
        p.len() > 0,
    ensures
        u[0] == p[0],
{
    assert(u.take(p.len() as int)[0] == u[0]);
}

/// The kind of a statement follows its first keyword (upper-cased, after
/// leading white space): `SELECT INTO` and `INSERT` are inserts, other
/// `SELECT`s selects, `UPDATE`, `DELETE`, `MERGE` their own kinds, `EXEC` /
/// `EXECUTE` calls; a statement with none of them is unknown unless it
/// mentions transaction control.
pub proof fn law_statement_kinds(stmt: Seq<char>)
    ensures
        starts_with(upper(trim_start(stmt)), "SELECT INTO"@) ==> classify_spec(stmt) == StatementKind::Insert,
        starts_with(upper(trim_start(stmt)), "SELECT"@) && !starts_with(upper(trim_start(stmt)), "SELECT INTO"@)
            ==> classify_spec(stmt) == StatementKind::Select,
        starts_with(upper(trim_start(stmt)), "INSERT"@) ==> classify_spec(stmt) == StatementKind::Insert,
        starts_with(upper(trim_start(stmt)), "UPDATE"@) ==> classify_spec(stmt) == StatementKind::Update,
        starts_with(upper(trim_start(stmt)), "DELETE"@) ==> classify_spec(stmt) == StatementKind::Delete,
        starts_with(upper(trim_start(stmt)), "MERGE"@) ==> classify_spec(stmt) == StatementKind::Merge,
        starts_with(upper(trim_start(stmt)), "EXECUTE"@) || starts_with(upper(trim_start(stmt)), "EXEC "@)
            || upper(trim_start(stmt)) == "EXEC"@ ==> classify_spec(stmt) == StatementKind::Execute,
        !starts_with_command(upper(trim_start(stmt))) && !mentions_transaction(upper(trim_start(stmt)))
            ==> classify_spec(stmt) == StatementKind::Unknown,
{
    reveal_strlit("SELECT INTO");
    reveal_strlit("SELECT");
    reveal_strlit("INSERT");
    reveal_strlit("UPDATE");
    reveal_strlit("DELETE");
    reveal_strlit("MERGE");
    reveal_strlit("EXECUTE");
    reveal_strlit("EXEC ");
    reveal_strlit("EXEC");
    let u = upper(trim_start(stmt));
    if starts_with(u, "SELECT"@) {
        lemma_first_char(u, "SELECT"@);
    }
    if starts_with(u, "SELECT INTO"@) {
        lemma_first_char(u, "SELECT INTO"@);
    }
    if starts_with(u, "INSERT"@) {
        lemma_first_char(u, "INSERT"@);
    }
    if starts_with(u, "UPDATE"@) {
        lemma_first_char(u, "UPDATE"@);
    }
    if starts_with(u, "DELETE"@) {
        lemma_first_char(u, "DELETE"@);
    }
    if starts_with(u, "MERGE"@) {
        lemma_first_char(u, "MERGE"@);
    }
    if starts_with(u, "EXECUTE"@) {
        lemma_first_char(u, "EXECUTE"@);
    }
    if starts_with(u, "EXEC "@) {
        lemma_first_char(u, "EXEC "@);
    }
    assert("SELECT INTO"@.take(6) =~= "SELECT"@);
    assert("EXECUTE"@.take(4) =~= "EXEC"@);
    assert("EXEC "@.take(4) =~= "EXEC"@);
    if starts_with(u, "SELECT INTO"@) {
        lemma_prefix_of_prefix(u, "SELECT INTO"@, "SELECT"@);
    }
    if starts_with(u, "EXECUTE"@) {
        lemma_prefix_of_prefix(u, "EXECUTE"@, "EXEC"@);
    }
    if starts_with(u, "EXEC "@) {
        lemma_prefix_of_prefix(u, "EXEC "@, "EXEC"@);
    }
    if u == "EXEC"@ {
        assert(u.take(4) =~= "EXEC"@);
    }
    law_transaction_statements(stmt);
}

// ---------------------------------------------------------------------------
// Built-in EXEC targets
// ---------------------------------------------------------------------------

/// The name is, ignoring ASCII case, one that `EXEC` takes without calling a
/// procedure of the database: `AS`, `CALLER`, `OWNER`, `SELF`, or a system
/// procedure for dynamic SQL.
pub open spec fn builtin_target(x: Seq<char>) -> bool {
    eq_ic(x, "as"@) || eq_ic(x, "caller"@) || eq_ic(x, "owner"@) || eq_ic(x, "self"@) || eq_ic(
        x,
        "sp_executesql"@,
    ) || eq_ic(x, "sp_prepare"@) || eq_ic(x, "sp_execute"@)
}

/// An `EXEC` target that is a built-in, in any letter case, yields no
/// dependency: `EXEC SP_EXECUTESQL @SQL` calls no procedure of the code.
pub proof fn law_builtin_exec_targets_skipped(
    body: Seq<char>,
    sp: (usize, usize),
    source: Seq<char>,
    skip: Option<Seq<Seq<char>>>,
)
    requires
        builtin_target(trim(span_text(body, sp))),
    ensures
        candidate(body, Some(sp), Operation::Execute, source, skip) is None,
{
    reveal_strlit("as");
    reveal_strlit("caller");
    reveal_strlit("owner");
    reveal_strlit("self");
    reveal_strlit("sp_executesql");
    reveal_strlit("sp_prepare");
    reveal_strlit("sp_execute");
    assert(lower("as"@) =~= "as"@);
    assert(lower("caller"@) =~= "caller"@);
    assert(lower("owner"@) =~= "owner"@);
    assert(lower("self"@) =~= "self"@);
    assert(lower("sp_executesql"@) =~= "sp_executesql"@);
    assert(lower("sp_prepare"@) =~= "sp_prepare"@);
    assert(lower("sp_execute"@) =~= "sp_execute"@);
    let raw = trim(span_text(body, sp));
    assert(builtin_exec(raw));
}

// ---------------------------------------------------------------------------
// Dependency, temp-table and risk changes in the diff
// ---------------------------------------------------------------------------

/// The trace has a dependency on `x` with operation `op`.
pub open spec fn uses(t: ProcedureTrace, op: Operation, x: Seq<char>) -> bool {
    exists|k: int| 0 <= k < t.dependencies@.len() && dep_view(#[trigger] t.dependencies@[k]) == (x, op, dep_view(t.dependencies@[k]).2)
}

/// The trace lists `x` among its temp tables.
pub open spec fn lists_temp(t: ProcedureTrace, x: Seq<char>) -> bool {
    exists|k: int| 0 <= k < t.temp_tables@.len() && (#[trigger] t.temp_tables@[k])@ == x
}

/// The trace reports a finding whose entry (`rule: message`) is `x`.
pub open spec fn reports(t: ProcedureTrace, x: Seq<char>) -> bool {
    exists|k: int| 0 <= k < t.risks@.len() && risk_entry(risk_view(#[trigger] t.risks@[k])) == x
}

/// Items of `first` that `second` lacks, and `items` lists exactly them, in
/// strictly increasing order.
pub open spec fn lists_difference(
    items: Seq<Seq<char>>,
    first: spec_fn(Seq<char>) -> bool,
    second: spec_fn(Seq<char>) -> bool,
) -> bool {
    sorted_strict(items) && forall|x: Seq<char>| #[trigger] items.contains(x) <==> first(x) && !second(x)
}

/// The dependency section: "New ..." lists what the before version uses
/// and the after version does not, "Removed ..." the reverse, for reads,
/// writes and calls.
pub open spec fn shows_dependency_changes(
    text: Seq<char>,
    l: Seq<Seq<Seq<char>>>,
    before: ProcedureTrace,
    after: ProcedureTrace,
) -> bool {
    let br = |x: Seq<char>| uses(before, Operation::Read, x);
    let ar = |x: Seq<char>| uses(after, Operation::Read, x);
    let bw = |x: Seq<char>| uses(before, Operation::Write, x);
    let aw = |x: Seq<char>| uses(after, Operation::Write, x);
    let be = |x: Seq<char>| uses(before, Operation::Execute, x);
    let ae = |x: Seq<char>| uses(after, Operation::Execute, x);
    &&& l.len() == 6
    &&& text == "## Dependency Changes\n"@ + section("New Tables Read"@, l[0]) + section(
        "Removed Tables Read"@,
        l[1],
    ) + section("New Tables Written"@, l[2]) + section("Removed Tables Written"@, l[3]) + section(
        "New Procedures Executed"@,
        l[4],
    ) + section("Removed Procedures Executed"@, l[5]) + "\n"@
    &&& lists_difference(l[0], br, ar)
    &&& lists_difference(l[1], ar, br)
    &&& lists_difference(l[2], bw, aw)
    &&& lists_difference(l[3], aw, bw)
    &&& lists_difference(l[4], be, ae)
    &&& lists_difference(l[5], ae, be)
}

proof fn lemma_group_uses(t: ProcedureTrace, k: GroupKind, op: Operation)
    requires
        (k == GroupKind::Reads && op == Operation::Read) || (k == GroupKind::Writes && op
            == Operation::Write) || (k == GroupKind::Executes && op == Operation::Execute),
    ensures
        forall|x: Seq<char>| #[trigger] group(deps_view(t.dependencies@), k).contains(x) <==> uses(t, op, x),
{
    let ds = deps_view(t.dependencies@);
    law_group_objects(ds, k);
    assert forall|x: Seq<char>| #[trigger] group(ds, k).contains(x) <==> uses(t, op, x) by {
        if group(ds, k).contains(x) {
            let i = choose|i: int| 0 <= i < ds.len() && crate::report::in_group(#[trigger] ds[i], k) && ds[i].0 == x;
            assert(ds[i] == dep_view(t.dependencies@[i]));
        }
        if uses(t, op, x) {
            let i = choose|i: int| 0 <= i < t.dependencies@.len() && dep_view(#[trigger] t.dependencies@[i]) == (x, op, dep_view(t.dependencies@[i]).2);
            assert(ds[i] == dep_view(t.dependencies@[i]));
        }
    }
}

/// The dependency section of the diff report: "New Tables Read" lists the
/// objects the before version reads and the after version does not,
/// "Removed Tables Read" the reverse, and likewise for writes and calls.
pub proof fn law_diff_dependency_changes(before: ProcedureTrace, after: ProcedureTrace)
    ensures
        exists|l: Seq<Seq<Seq<char>>>| #[trigger] shows_dependency_changes(diff_dependencies(before, after), l, before, after),
{
    let bd = deps_view(before.dependencies@);
    let ad = deps_view(after.dependencies@);
    lemma_group_uses(before, GroupKind::Reads, Operation::Read);
    lemma_group_uses(after, GroupKind::Reads, Operation::Read);
    lemma_group_uses(before, GroupKind::Writes, Operation::Write);
    lemma_group_uses(after, GroupKind::Writes, Operation::Write);
    lemma_group_uses(before, GroupKind::Executes, Operation::Execute);
    lemma_group_uses(after, GroupKind::Executes, Operation::Execute);
    let br = group(bd, GroupKind::Reads);
    let ar = group(ad, GroupKind::Reads);
    let bw = group(bd, GroupKind::Writes);
    let aw = group(ad, GroupKind::Writes);
    let be = group(bd, GroupKind::Executes);
    let ae = group(ad, GroupKind::Executes);
    law_set_diff(br, ar);
    law_set_diff(ar, br);
    law_set_diff(bw, aw);
    law_set_diff(aw, bw);
    law_set_diff(be, ae);
    law_set_diff(ae, be);
    let l = seq![
        set_diff_spec(br, ar),
        set_diff_spec(ar, br),
        set_diff_spec(bw, aw),
        set_diff_spec(aw, bw),
        set_diff_spec(be, ae),
        set_diff_spec(ae, be),
    ];
    assert(shows_dependency_changes(diff_dependencies(before, after), l, before, after));
}

/// The temp-table and risk sections: "New Temp Tables" lists the temp tables
/// of the before version that the after version lacks, "Removed Temp
/// Tables" the reverse; "Added Risks" the findings (`rule: message`) that
/// only the after version reports, "Removed Risks" those only the before
/// version reports; then the two finding counts, before first.
pub open spec fn shows_temp_and_risk_changes(
    text: Seq<char>,
    l: Seq<Seq<Seq<char>>>,
    before: ProcedureTrace,
    after: ProcedureTrace,
) -> bool {
    let bt = |x: Seq<char>| lists_temp(before, x);
    let at = |x: Seq<char>| lists_temp(after, x);
    let br = |x: Seq<char>| reports(before, x);
    let ar = |x: Seq<char>| reports(after, x);
    &&& l.len() == 4
    &&& text == "## Temp Table Changes\n"@ + section("New Temp Tables"@, l[0]) + section(
        "Removed Temp Tables"@,
        l[1],
    ) + "\n"@ + "## Risk Changes\n"@ + section("Added Risks"@, l[2]) + section(
        "Removed Risks"@,
        l[3],
    ) + "- Before Count: "@ + decimal(before.risks@.len()) + "\n- After Count: "@ + decimal(
        after.risks@.len(),
    ) + "\n\n"@
    &&& lists_difference(l[0], bt, at)
    &&& lists_difference(l[1], at, bt)
    &&& lists_difference(l[2], ar, br)
    &&& lists_difference(l[3], br, ar)
}

proof fn lemma_temps_listed(t: ProcedureTrace)
    ensures
        forall|x: Seq<char>| #[trigger] sviews(t.temp_tables@).contains(x) <==> lists_temp(t, x),
{
    let v = sviews(t.temp_tables@);
    assert forall|x: Seq<char>| #[trigger] v.contains(x) <==> lists_temp(t, x) by {
        if v.contains(x) {
            let k = choose|k: int| 0 <= k < v.len() && v[k] == x;
            assert(v[k] == t.temp_tables@[k]@);
        }
        if lists_temp(t, x) {
            let k = choose|k: int| 0 <= k < t.temp_tables@.len() && (#[trigger] t.temp_tables@[k])@ == x;
            assert(v[k] == x);
        }
    }
}

proof fn lemma_risks_reported(t: ProcedureTrace)
    ensures
        forall|x: Seq<char>| #[trigger] risk_rule_set_spec(t).contains(x) <==> reports(t, x),
{
    let rs = crate::model::risks_view(t.risks@);
    let es = rs.map_values(|r: (Seq<char>, crate::model::Severity, Seq<char>, Seq<char>)| risk_entry(r));
    lemma_sorted_set(es);
    assert forall|x: Seq<char>| #[trigger] risk_rule_set_spec(t).contains(x) <==> reports(t, x) by {
        if es.contains(x) {
            let k = choose|k: int| 0 <= k < es.len() && es[k] == x;
            assert(es[k] == risk_entry(risk_view(t.risks@[k])));
        }
        if reports(t, x) {
            let k = choose|k: int| 0 <= k < t.risks@.len() && risk_entry(risk_view(#[trigger] t.risks@[k])) == x;
            assert(es[k] == x);
        }
    }
}

/// The temp-table and risk sections of the diff report list what differs
/// between the versions, each side where the report puts it, and the two
/// finding counts, before first.
pub proof fn law_diff_temp_and_risk_changes(before: ProcedureTrace, after: ProcedureTrace)
    ensures
        exists|l: Seq<Seq<Seq<char>>>| #[trigger] shows_temp_and_risk_changes(diff_temps_and_risks(before, after), l, before, after),
{
    let bt = sviews(before.temp_tables@);
    let at = sviews(after.temp_tables@);
    let brs = risk_rule_set_spec(before);
    let ars = risk_rule_set_spec(after);
    lemma_temps_listed(before);
    lemma_temps_listed(after);
    lemma_risks_reported(before);
    lemma_risks_reported(after);
    law_set_diff(bt, at);
    law_set_diff(at, bt);
    law_set_diff(ars, brs);
    law_set_diff(brs, ars);
    let l = seq![set_diff_spec(bt, at), set_diff_spec(at, bt), set_diff_spec(ars, brs), set_diff_spec(brs, ars)];
    assert(shows_temp_and_risk_changes(diff_temps_and_risks(before, after), l, before, after));
}

// ---------------------------------------------------------------------------
// UPDATE without WHERE, INSERT ... SELECT without DISTINCT
// ---------------------------------------------------------------------------

/// A statement that, cleaned as the rules clean statements and upper-cased,
/// starts with `UPDATE`, has a ` SET ` and no ` WHERE `.
pub open spec fn unguarded_update(stmt: Seq<char>) -> bool {
    match clean_rule(stmt) {
        Some(c) => starts_with(upper(trim_start(c)), "UPDATE"@) && contains(upper(trim_start(c)), " SET "@)
            && !contains(upper(trim_start(c)), " WHERE "@),
        None => false,
    }
}

/// A statement that, cleaned and upper-cased, starts with `INSERT INTO`, has
/// a ` SELECT ` and neither ` DISTINCT ` nor ` GROUP BY `.
pub open spec fn undistinct_insert_select(stmt: Seq<char>) -> bool {
    match clean_rule(stmt) {
        Some(c) => starts_with(upper(trim_start(c)), "INSERT INTO"@) && contains(
            upper(trim_start(c)),
            " SELECT "@,
        ) && !contains(upper(trim_start(c)), " DISTINCT "@) && !contains(
            upper(trim_start(c)),
            " GROUP BY "@,
        ),
        None => false,
    }
}

/// The rows of the rule table, whose ids differ pairwise.
proof fn lemma_table_rows()
    ensures
        rule_table().len() == 14,
        rule_table()[0] == select_star_finding(),
        rule_table()[1] == nolock_finding(),
        rule_table()[2] == dynamic_sql_finding(),
        rule_table()[3] == linked_server_finding(),
        rule_table()[4] == update_finding(),
        rule_table()[5] == delete_finding(),
        rule_table()[6] == insert_select_finding(),
        rule_table()[7] == multi_join_finding(),
        rule_table()[8] == cursor_finding(),
        rule_table()[9] == transaction_finding(),
        rule_table()[10] == rollback_finding(),
        rule_table()[11] == hardcoded_date_finding(),
        rule_table()[12] == status_finding(),
        rule_table()[13] == temp_chain_finding(),
        forall|i: int, j: int|
            0 <= i < 14 && 0 <= j < 14 && i != j ==> (#[trigger] rule_table()[i]).0 != (#[trigger] rule_table()[j]).0,
{
    lemma_rule_ids_distinct();
}

proof fn lemma_delete_avoids(stmts: Seq<Seq<char>>, id: Seq<char>)
    requires
        delete_finding().0 != id,
    ensures
        avoids(delete_findings(stmts), id),
    decreases stmts.len(),
{
    if stmts.len() > 0 {
        lemma_delete_avoids(stmts.drop_last(), id);
        lemma_avoids_opt(is_delete_without_where(stmts.last()), delete_finding(), id);
        lemma_avoids_concat(
            delete_findings(stmts.drop_last()),
            opt_finding(is_delete_without_where(stmts.last()), delete_finding()),
            id,
        );
    }
}

proof fn lemma_update_avoids_id(stmts: Seq<Seq<char>>, id: Seq<char>)
    requires
        update_finding().0 != id,
    ensures
        avoids(update_findings(stmts), id),
    decreases stmts.len(),
{
    if stmts.len() > 0 {
        lemma_update_avoids_id(stmts.drop_last(), id);
        lemma_avoids_opt(is_update_without_where(stmts.last()), update_finding(), id);
        lemma_avoids_concat(
            update_findings(stmts.drop_last()),
            opt_finding(is_update_without_where(stmts.last()), update_finding()),
            id,
        );
    }
}

proof fn lemma_leading_avoids_id(body: Seq<char>, id: Seq<char>)
    requires
        select_star_finding().0 != id,
        nolock_finding().0 != id,
        dynamic_sql_finding().0 != id,
        linked_server_finding().0 != id,
    ensures
        avoids(leading_findings(hits_of(body)), id),
{
    let h = hits_of(body);
    let l0 = opt_finding(h.select_star, select_star_finding());
    let l1 = opt_finding(h.nolock, nolock_finding());
    let l2 = opt_finding(h.exec_dynamic || h.sp_executesql, dynamic_sql_finding());
    let l3 = opt_finding(h.linked_server, linked_server_finding());
    lemma_avoids_concat(l0, l1, id);
    lemma_avoids_concat(l0 + l1, l2, id);
    lemma_avoids_concat(l0 + l1 + l2, l3, id);
}

proof fn lemma_trailing_avoids_id(body: Seq<char>, n: nat, id: Seq<char>)
    requires
        multi_join_finding().0 != id,
        cursor_finding().0 != id,
        transaction_finding().0 != id,
        rollback_finding().0 != id,
        hardcoded_date_finding().0 != id,
        status_finding().0 != id,
        temp_chain_finding().0 != id,
    ensures
        avoids(trailing_findings(body, hits_of(body), n), id),
{
    let h = hits_of(body);
    let t0 = opt_finding(multi_join_aggregation(body, h), multi_join_finding());
    let t1 = opt_finding(h.cursor, cursor_finding());
    let t2 = opt_finding(transaction_without_trycatch(body), transaction_finding());
    let t3 = opt_finding(trycatch_without_rollback(body), rollback_finding());
    let t4 = opt_finding(h.date_literal, hardcoded_date_finding());
    let t5 = opt_finding(h.status_number, status_finding());
    let t6 = opt_finding(n >= 3, temp_chain_finding());
    lemma_avoids_concat(t0, t1, id);
    lemma_avoids_concat(t0 + t1, t2, id);
    lemma_avoids_concat(t0 + t1 + t2, t3, id);
    lemma_avoids_concat(t0 + t1 + t2 + t3, t4, id);
    lemma_avoids_concat(t0 + t1 + t2 + t3 + t4, t5, id);
    lemma_avoids_concat(t0 + t1 + t2 + t3 + t4 + t5, t6, id);
}

/// The raw findings as leading, update, delete, insert-select and trailing
/// parts.
proof fn lemma_raw_parts(body: Seq<char>, n: nat)
    ensures
        raw_findings(body, n) == leading_findings(hits_of(body)) + update_findings(
            split_statements_spec(body),
        ) + delete_findings(split_statements_spec(body)) + opt_finding(
            any_insert_select(split_statements_spec(body)),
            insert_select_finding(),
        ) + trailing_findings(body, hits_of(body), n),
{
    let stmts = split_statements_spec(body);
    let l = leading_findings(hits_of(body));
    let u = update_findings(stmts);
    let d = delete_findings(stmts);
    let i6 = opt_finding(any_insert_select(stmts), insert_select_finding());
    let tr = trailing_findings(body, hits_of(body), n);
    assert(raw_findings(body, n) == l + statement_findings(stmts) + tr);
    vstd::seq_lib::lemma_concat_associative(l, u + d, i6);
    vstd::seq_lib::lemma_concat_associative(l, u, d);
}

proof fn lemma_update_findings_origin(stmts: Seq<Seq<char>>, f: FindingV)
    requires
        update_findings(stmts).contains(f),
    ensures
        exists|i: int| 0 <= i < stmts.len() && is_update_without_where(#[trigger] stmts[i]),
    decreases stmts.len(),
{
    let init = stmts.drop_last();
    if is_update_without_where(stmts.last()) {
        assert(is_update_without_where(stmts[stmts.len() - 1]));
    } else {
        assert(update_findings(stmts) =~= update_findings(init));
        lemma_update_findings_origin(init, f);
        let i = choose|i: int| 0 <= i < init.len() && is_update_without_where(#[trigger] init[i]);
        assert(stmts[i] == init[i]);
    }
}

proof fn lemma_update_findings_found(stmts: Seq<Seq<char>>, i: int)
    requires
        0 <= i < stmts.len(),
        is_update_without_where(stmts[i]),
    ensures
        update_findings(stmts).contains(update_finding()),
    decreases stmts.len(),
{
    let init = stmts.drop_last();
    let o = opt_finding(is_update_without_where(stmts.last()), update_finding());
    if i == stmts.len() - 1 {
        assert(o[0] == update_finding());
        lemma_into_right(update_findings(init), o, update_finding());
    } else {
        assert(init[i] == stmts[i]);
        lemma_update_findings_found(init, i);
        lemma_into_left(update_findings(init), o, update_finding());
    }
}

/// The rule with this id has this finding among the raw findings exactly
/// when `found` holds, and no other part of the raw findings has the id.
proof fn lemma_reported_iff(
    sql: Seq<char>,
    n: nat,
    m: Map<Seq<char>, RuleConfig>,
    f: FindingV,
    pre: Seq<FindingV>,
    mid: Seq<FindingV>,
    post: Seq<FindingV>,
)
    requires
        raw_findings(body_sql_spec(sql), n) == pre + mid + post,
        avoids(pre, f.0),
        avoids(post, f.0),
        forall|k: int| 0 <= k < mid.len() ==> #[trigger] mid[k] == f,
    ensures
        (exists|k: int| 0 <= k < risks_spec(sql, n, m).len() && (#[trigger] risks_spec(sql, n, m)[k]).0 == f.0)
            ==> mid.contains(f),
        !m.contains_key(f.0) && mid.contains(f) ==> exists|k: int|
            0 <= k < risks_spec(sql, n, m).len() && (#[trigger] risks_spec(sql, n, m)[k]).0 == f.0,
{
    let raw = raw_findings(body_sql_spec(sql), n);
    let r = risks_spec(sql, n, m);
    law_findings_kept(sql, n, m);
    lemma_apply_config_members(raw, m);
    if exists|k: int| 0 <= k < r.len() && (#[trigger] r[k]).0 == f.0 {
        let k = choose|k: int| 0 <= k < r.len() && (#[trigger] r[k]).0 == f.0;
        assert(r.contains(r[k]));
        let j = choose|j: int| 0 <= j < raw.len() && !disabled(m, raw[j].0) && r[k] == configured(#[trigger] raw[j], m);
        let g = raw[j];
        assert(g.0 == f.0);
        assert(raw.contains(g));
        lemma_from_left(pre + mid, post, g);
        lemma_from_right(pre, mid, g);
        let q = choose|q: int| 0 <= q < mid.len() && mid[q] == g;
        assert(mid[q] == f);
    }
    if !m.contains_key(f.0) && mid.contains(f) {
        lemma_into_right(pre, mid, f);
        lemma_into_left(pre + mid, post, f);
        let j = choose|j: int| 0 <= j < raw.len() && raw[j] == f;
        assert(!disabled(m, raw[j].0) && f == configured(raw[j], m));
        assert(apply_config(raw, m).contains(f));
        assert(r.contains(f));
        let k = choose|k: int| 0 <= k < r.len() && r[k] == f;
        assert(r[k].0 == f.0);
    }
}

proof fn lemma_update_findings_all(stmts: Seq<Seq<char>>)
    ensures
        forall|k: int| 0 <= k < update_findings(stmts).len() ==> #[trigger] update_findings(stmts)[k] == update_finding(),
    decreases stmts.len(),
{
    if stmts.len() > 0 {
        let p = update_findings(stmts.drop_last());
        let o = opt_finding(is_update_without_where(stmts.last()), update_finding());
        lemma_update_findings_all(stmts.drop_last());
        assert forall|k: int| 0 <= k < (p + o).len() implies #[trigger] (p + o)[k] == update_finding() by {
            if k < p.len() {
                assert((p + o)[k] == p[k]);
            } else {
                assert((p + o)[k] == o[k - p.len()]);
            }
        }
    }
}

/// `update_without_where` is reported exactly for statements that start with
/// `UPDATE`, have a ` SET ` and no ` WHERE `: never for one with a ` WHERE `,
/// and, unless the configuration names the rule, for every such statement.
pub proof fn law_update_without_where(sql: Seq<char>, temp_table_count: nat, m: Map<Seq<char>, RuleConfig>)
    ensures
        (exists|k: int|
            0 <= k < risks_spec(sql, temp_table_count, m).len() && (#[trigger] risks_spec(
                sql,
                temp_table_count,
                m,
            )[k]).0 == "update_without_where"@) ==> exists|i: int|
            0 <= i < split_statements_spec(body_sql_spec(sql)).len() && unguarded_update(
                #[trigger] split_statements_spec(body_sql_spec(sql))[i],
            ),
        !m.contains_key("update_without_where"@) && (exists|i: int|
            0 <= i < split_statements_spec(body_sql_spec(sql)).len() && unguarded_update(
                #[trigger] split_statements_spec(body_sql_spec(sql))[i],
            )) ==> exists|k: int|
            0 <= k < risks_spec(sql, temp_table_count, m).len() && (#[trigger] risks_spec(
                sql,
                temp_table_count,
                m,
            )[k]).0 == "update_without_where"@,
{
    let body = body_sql_spec(sql);
    let stmts = split_statements_spec(body);
    let f = update_finding();
    let id = f.0;
    assert(id == "update_without_where"@);
    lemma_table_rows();
    let t = rule_table();
    assert(t[4].0 != t[0].0 && t[4].0 != t[1].0 && t[4].0 != t[2].0 && t[4].0 != t[3].0);
    assert(t[4].0 != t[5].0 && t[4].0 != t[6].0);
    assert(t[4].0 != t[7].0 && t[4].0 != t[8].0 && t[4].0 != t[9].0 && t[4].0 != t[10].0);
    assert(t[4].0 != t[11].0 && t[4].0 != t[12].0 && t[4].0 != t[13].0);
    lemma_raw_parts(body, temp_table_count);
    lemma_leading_avoids_id(body, id);
    lemma_trailing_avoids_id(body, temp_table_count, id);
    lemma_delete_avoids(stmts, id);
    let l = leading_findings(hits_of(body));
    let u = update_findings(stmts);
    let d = delete_findings(stmts);
    let i6 = opt_finding(any_insert_select(stmts), insert_select_finding());
    let tr = trailing_findings(body, hits_of(body), temp_table_count);
    lemma_avoids_concat(d, i6, id);
    lemma_avoids_concat(d + i6, tr, id);
    vstd::seq_lib::lemma_concat_associative(l + u, d + i6, tr);
    vstd::seq_lib::lemma_concat_associative(l + u, d, i6);
    lemma_update_findings_all(stmts);
    lemma_reported_iff(sql, temp_table_count, m, f, l, u, d + i6 + tr);
    if exists|k: int| 0 <= k < risks_spec(sql, temp_table_count, m).len() && (#[trigger] risks_spec(sql, temp_table_count, m)[k]).0 == id {
        lemma_update_findings_origin(stmts, f);
        let i = choose|i: int| 0 <= i < stmts.len() && is_update_without_where(#[trigger] stmts[i]);
        assert(unguarded_update(stmts[i]));
    }
    if exists|i: int| 0 <= i < stmts.len() && unguarded_update(#[trigger] stmts[i]) {
        let i = choose|i: int| 0 <= i < stmts.len() && unguarded_update(#[trigger] stmts[i]);
        assert(is_update_without_where(stmts[i]));
        lemma_update_findings_found(stmts, i);
    }
}

/// `insert_select_no_distinct` is reported exactly when some statement
/// starts with `INSERT INTO`, has a ` SELECT ` and neither ` DISTINCT ` nor
/// ` GROUP BY ` (unless the configuration names the rule).
pub proof fn law_insert_select_no_distinct(sql: Seq<char>, temp_table_count: nat, m: Map<Seq<char>, RuleConfig>)
    ensures
        (exists|k: int|
            0 <= k < risks_spec(sql, temp_table_count, m).len() && (#[trigger] risks_spec(
                sql,
                temp_table_count,
                m,
            )[k]).0 == "insert_select_no_distinct"@) ==> exists|i: int|
            0 <= i < split_statements_spec(body_sql_spec(sql)).len() && undistinct_insert_select(
                #[trigger] split_statements_spec(body_sql_spec(sql))[i],
            ),
        !m.contains_key("insert_select_no_distinct"@) && (exists|i: int|
            0 <= i < split_statements_spec(body_sql_spec(sql)).len() && undistinct_insert_select(
                #[trigger] split_statements_spec(body_sql_spec(sql))[i],
            )) ==> exists|k: int|
            0 <= k < risks_spec(sql, temp_table_count, m).len() && (#[trigger] risks_spec(
                sql,
                temp_table_count,
                m,
            )[k]).0 == "insert_select_no_distinct"@,
{
    let body = body_sql_spec(sql);
    let stmts = split_statements_spec(body);
    let f = insert_select_finding();
    let id = f.0;
    assert(id == "insert_select_no_distinct"@);
    lemma_table_rows();
    let t = rule_table();
    assert(t[6].0 != t[0].0 && t[6].0 != t[1].0 && t[6].0 != t[2].0 && t[6].0 != t[3].0);
    assert(t[6].0 != t[4].0 && t[6].0 != t[5].0);
    assert(t[6].0 != t[7].0 && t[6].0 != t[8].0 && t[6].0 != t[9].0 && t[6].0 != t[10].0);
    assert(t[6].0 != t[11].0 && t[6].0 != t[12].0 && t[6].0 != t[13].0);
    lemma_raw_parts(body, temp_table_count);
    lemma_leading_avoids_id(body, id);
    lemma_trailing_avoids_id(body, temp_table_count, id);
    lemma_delete_avoids(stmts, id);
    lemma_update_avoids_id(stmts, id);
    let l = leading_findings(hits_of(body));
    let u = update_findings(stmts);
    let d = delete_findings(stmts);
    let i6 = opt_finding(any_insert_select(stmts), f);
    let tr = trailing_findings(body, hits_of(body), temp_table_count);
    lemma_avoids_concat(l, u, id);
    lemma_avoids_concat(l + u, d, id);
    lemma_reported_iff(sql, temp_table_count, m, f, l + u + d, i6, tr);
    if exists|k: int| 0 <= k < risks_spec(sql, temp_table_count, m).len() && (#[trigger] risks_spec(sql, temp_table_count, m)[k]).0 == id {
        assert(any_insert_select(stmts));
        let i = choose|i: int| 0 <= i < stmts.len() && is_insert_select_no_distinct(#[trigger] stmts[i]);
        assert(undistinct_insert_select(stmts[i]));
    }
    if exists|i: int| 0 <= i < stmts.len() && undistinct_insert_select(#[trigger] stmts[i]) {
        let i = choose|i: int| 0 <= i < stmts.len() && undistinct_insert_select(#[trigger] stmts[i]);
        assert(is_insert_select_no_distinct(stmts[i]));
        assert(any_insert_select(stmts));
        assert(i6[0] == f);
    }
}

} // verus!
