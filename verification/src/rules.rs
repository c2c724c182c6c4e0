//! Risk rules over a procedure's body.
use vstd::prelude::*;
use crate::model::{
    risk_view, risks_view, severity_rank, Config, ProcedureTrace, RiskFinding, RuleConfig,
    Severity,
};
use crate::normalizer::{split_statements_chars, split_statements_spec};
use crate::parser::{dedup_first, extract_body_chars, body_sql_spec, is_block_word};
use crate::pattern::{regex_find_iter, regex_is_match, search_find_iter, search_is_match};
use crate::text::{
    chars_of, contains, contains_str, eq_ic, eq_ignore_case_str, join, join_chars, starts_with,
    starts_with_str, str_less, str_lt, string_of, trim, trim_chars, trim_start,
    trim_start_chars, upper, upper_chars, views, words, words_chars, chars_eq,
};

verus! {

/// A finding as plain values: rule id, severity, message, suggestion.
pub type FindingV = (Seq<char>, Severity, Seq<char>, Seq<char>);

pub const SELECT_STAR_PATTERN: &'static str = r"(?is)\bSELECT\s+\*";

pub const NOLOCK_PATTERN: &'static str = r"(?is)WITH\s*\(\s*NOLOCK\s*\)";

pub const EXEC_DYNAMIC_PATTERN: &'static str = r"(?is)\bEXEC(?:UTE)?\s*\(\s*@";

pub const SP_EXECUTESQL_PATTERN: &'static str = r"(?is)\bsp_executesql\b";

pub const LINKED_SERVER_PATTERN: &'static str = r"(?is)\b[A-Za-z0-9_\[\]]+\.[A-Za-z0-9_\[\]]+\.[A-Za-z0-9_\[\]]+\.[A-Za-z0-9_\[\]]+\b";

pub const JOIN_WORD_PATTERN: &'static str = r"(?is)\bJOIN\b";

pub const GROUP_BY_PATTERN: &'static str = r"(?is)\bGROUP\s+BY\b";

pub const CURSOR_PATTERN: &'static str = r"(?is)\bCURSOR\b";

pub const DATE_LITERAL_PATTERN: &'static str = r"'\d{4}-\d{2}-\d{2}'";

pub const STATUS_NUMBER_PATTERN: &'static str = r"(?is)\bSTATUS\s*=\s*\d+";

/// The pattern is found in the text (a pattern that does not compile finds
/// nothing).
pub open spec fn found(pattern: Seq<char>, text: Seq<char>) -> bool {
    regex_is_match(pattern, text) == Some(true)
}

fn search(pattern: &str, text: &str) -> (r: bool)
    ensures
        r == found(pattern@, text@),
{
    match search_is_match(pattern, text) {
        Some(b) => b,
        None => false,
    }
}

fn risk(rule_id: &str, severity: Severity, message: &str, suggestion: &str) -> (r: RiskFinding)
    ensures
        risk_view(r) == (rule_id@, severity, message@, suggestion@),
{
    RiskFinding {
        rule_id: string_of(&chars_of(rule_id)),
        severity,
        message: string_of(&chars_of(message)),
        suggestion: string_of(&chars_of(suggestion)),
    }
}

// ---------------------------------------------------------------------------
// The findings
// ---------------------------------------------------------------------------

pub open spec fn select_star_finding() -> FindingV {
    (
        "select_star"@,
        Severity::Low,
        "SELECT * found. This may make the procedure fragile when table schema changes."@,
        "List required columns explicitly."@,
    )
}

pub open spec fn nolock_finding() -> FindingV {
    (
        "nolock_used"@,
        Severity::Medium,
        "NOLOCK found. Query may read dirty or uncommitted data."@,
        "Verify whether dirty reads are acceptable for this procedure."@,
    )
}

pub open spec fn dynamic_sql_finding() -> FindingV {
    (
        "dynamic_sql"@,
        Severity::Medium,
        "Dynamic SQL found. Static dependency detection may be incomplete."@,
        "Review generated SQL string and validate runtime dependencies manually."@,
    )
}

pub open spec fn linked_server_finding() -> FindingV {
    (
        "linked_server"@,
        Severity::Medium,
        "Linked server or four-part object reference found. External DB dependency should be verified."@,
        "Verify linked server availability, permissions, and source data freshness."@,
    )
}

pub open spec fn update_finding() -> FindingV {
    (
        "update_without_where"@,
        Severity::High,
        "UPDATE statement may be missing WHERE condition."@,
        "Confirm this update is intended to affect all rows, or add a WHERE clause."@,
    )
}

pub open spec fn delete_finding() -> FindingV {
    (
        "delete_without_where"@,
        Severity::High,
        "DELETE statement may be missing WHERE condition."@,
        "Confirm this delete is intended to affect all rows, or add a WHERE clause."@,
    )
}

pub open spec fn insert_select_finding() -> FindingV {
    (
        "insert_select_no_distinct"@,
        Severity::Medium,
        "INSERT INTO ... SELECT without DISTINCT or GROUP BY found. Duplicate rows may be inserted if source rows are duplicated."@,
        "Verify source row uniqueness or add explicit duplicate prevention."@,
    )
}

pub open spec fn multi_join_finding() -> FindingV {
    (
        "multi_join_aggregation"@,
        Severity::High,
        "SUM/COUNT used with JOIN and GROUP BY. Aggregated values may be duplicated if join keys are not unique."@,
        "Check join key uniqueness, pre-aggregate detail rows before joins, and verify whether additional keys such as MANIFEST_NO, ORDER_NO, or PART_NO are required."@,
    )
}

pub open spec fn cursor_finding() -> FindingV {
    (
        "cursor_used"@,
        Severity::Medium,
        "CURSOR usage found. This may indicate row-by-row processing and performance risk."@,
        "Check whether cursor logic can be replaced with set-based operations."@,
    )
}

pub open spec fn transaction_finding() -> FindingV {
    (
        "transaction_without_trycatch"@,
        Severity::Medium,
        "Transaction found without TRY/CATCH error handling."@,
        "Consider adding TRY/CATCH with COMMIT/ROLLBACK handling."@,
    )
}

pub open spec fn rollback_finding() -> FindingV {
    (
        "trycatch_without_rollback"@,
        Severity::High,
        "TRY/CATCH found without ROLLBACK. Failed transactions may remain open or partially applied."@,
        "Verify transaction handling and add ROLLBACK in CATCH when appropriate."@,
    )
}

pub open spec fn hardcoded_date_finding() -> FindingV {
    (
        "hardcoded_date"@,
        Severity::Low,
        "Hardcoded date literal found."@,
        "Verify whether date should be parameterized."@,
    )
}

pub open spec fn status_finding() -> FindingV {
    (
        "status_magic_number"@,
        Severity::Low,
        "Status magic number found."@,
        "Consider documenting status meaning or replacing with named constants/reference table."@,
    )
}

pub open spec fn temp_chain_finding() -> FindingV {
    (
        "temp_table_chain"@,
        Severity::Low,
        "Multiple temp tables found. Procedure flow may be complex and order-dependent."@,
        "Review temp table lifecycle and ensure intermediate data is deduplicated where needed."@,
    )
}

// ---------------------------------------------------------------------------
// The fixed findings of the rules
// ---------------------------------------------------------------------------

/// The findings of every rule but the temp-table rule, in rule order.
pub open spec fn statement_and_pattern_findings() -> Seq<FindingV> {
    seq![
        select_star_finding(),
        nolock_finding(),
        dynamic_sql_finding(),
        linked_server_finding(),
        update_finding(),
        delete_finding(),
        insert_select_finding(),
        multi_join_finding(),
        cursor_finding(),
        transaction_finding(),
        rollback_finding(),
        hardcoded_date_finding(),
        status_finding(),
    ]
}

/// The finding of each rule: its id, default severity, message and
/// suggestion.
pub open spec fn rule_table() -> Seq<FindingV> {
    statement_and_pattern_findings().push(temp_chain_finding())
}

/// No two rules share an id.
pub proof fn lemma_rule_ids_distinct()
    ensures
        forall|i: int, j: int|
            0 <= i < rule_table().len() && 0 <= j < rule_table().len() && (#[trigger] rule_table()[i]).0
                == (#[trigger] rule_table()[j]).0 ==> i == j,
{
    reveal_strlit("select_star");
    reveal_strlit("nolock_used");
    reveal_strlit("dynamic_sql");
    reveal_strlit("linked_server");
    reveal_strlit("update_without_where");
    reveal_strlit("delete_without_where");
    reveal_strlit("insert_select_no_distinct");
    reveal_strlit("multi_join_aggregation");
    reveal_strlit("cursor_used");
    reveal_strlit("transaction_without_trycatch");
    reveal_strlit("trycatch_without_rollback");
    reveal_strlit("hardcoded_date");
    reveal_strlit("status_magic_number");
    reveal_strlit("temp_table_chain");
    let t = rule_table();
    assert(t.len() == 14);
    assert forall|i: int, j: int|
        0 <= i < t.len() && 0 <= j < t.len() && (#[trigger] t[i]).0 == (#[trigger] t[j]).0 implies i == j by {
        if i != j {
            let a = t[i].0;
            let b = t[j].0;
            assert(a.len() != b.len() || a[0] != b[0] || a[1] != b[1] || a[2] != b[2]);
        }
    }
}

pub open spec fn opt_finding(b: bool, f: FindingV) -> Seq<FindingV> {
    if b {
        seq![f]
    } else {
        seq![]
    }
}

// ---------------------------------------------------------------------------
// Statement cleaning for rules
// ---------------------------------------------------------------------------

pub open spec fn is_try_catch(w: Seq<char>) -> bool {
    let u = upper(w);
    u == "TRY"@ || u == "CATCH"@
}

/// Drops leading `BEGIN`/`END` block words; `None` when nothing else is left
/// (or when a `BEGIN`/`END` stands alone at the end).
pub open spec fn rule_tokens(ts: Seq<Seq<char>>) -> Option<Seq<Seq<char>>>
    decreases ts.len(),
{
    if ts.len() == 0 {
        None
    } else if eq_ic(ts[0], "BEGIN"@) {
        if ts.len() > 1 {
            if is_block_word(ts[1]) {
                rule_tokens(ts.skip(2))
            } else {
                rule_tokens(ts.skip(1))
            }
        } else {
            None
        }
    } else if eq_ic(ts[0], "END"@) {
        if ts.len() > 1 {
            if is_try_catch(ts[1]) {
                rule_tokens(ts.skip(2))
            } else {
                rule_tokens(ts.skip(1))
            }
        } else {
            None
        }
    } else {
        Some(ts)
    }
}

pub open spec fn clean_rule(stmt: Seq<char>) -> Option<Seq<char>> {
    match rule_tokens(words(trim(stmt))) {
        Some(ts) => Some(join(ts, " "@)),
        None => None,
    }
}

fn is_try_catch_exec(w: &Vec<char>) -> (r: bool)
    ensures
        r == is_try_catch(w@),
{
    let u = upper_chars(w);
    let a = chars_of("TRY");
    let b = chars_of("CATCH");
    chars_eq(&u, &a) || chars_eq(&u, &b)
}

fn is_block_word_rule(w: &Vec<char>) -> (r: bool)
    ensures
        r == is_block_word(w@),
{
    let u = upper_chars(w);
    let a = chars_of("TRY");
    let b = chars_of("CATCH");
    let c = chars_of("TRAN");
    let d = chars_of("TRANSACTION");
    chars_eq(&u, &a) || chars_eq(&u, &b) || chars_eq(&u, &c) || chars_eq(&u, &d)
}

fn clean_statement_for_rule(stmt: &Vec<char>) -> (r: Option<Vec<char>>)
    ensures
        match r {
            Some(v) => clean_rule(stmt@) == Some(v@),
            None => clean_rule(stmt@) is None,
        },
{
    let t = trim_chars(stmt);
    let tokens = words_chars(&t);
    let ghost tv = views(tokens@);
    let mut start: usize = 0;
    assert(tv.skip(0) =~= tv);
    while start < tokens.len()
        invariant
            start <= tokens.len(),
            tv == views(tokens@),
            tv == words(trim(stmt@)),
            rule_tokens(tv.skip(start as int)) == rule_tokens(tv),
        decreases tokens.len() - start,
    {
        let first = &tokens[start];
        assert(tv.skip(start as int)[0] == first@);
        if eq_ignore_case_str(first, "BEGIN") {
            if start + 1 < tokens.len() {
                assert(tv.skip(start as int)[1] == tokens@[start + 1]@);
                if is_block_word_rule(&tokens[start + 1]) {
                    assert(tv.skip(start as int).skip(2) =~= tv.skip(start + 2));
                    start += 2;
                } else {
                    assert(tv.skip(start as int).skip(1) =~= tv.skip(start + 1));
                    start += 1;
                }
                continue;
            }
            return None;
        }
        if eq_ignore_case_str(first, "END") {
            if start + 1 < tokens.len() {
                assert(tv.skip(start as int)[1] == tokens@[start + 1]@);
                if is_try_catch_exec(&tokens[start + 1]) {
                    assert(tv.skip(start as int).skip(2) =~= tv.skip(start + 2));
                    start += 2;
                } else {
                    assert(tv.skip(start as int).skip(1) =~= tv.skip(start + 1));
                    start += 1;
                }
                continue;
            }
            return None;
        }
        let mut rest: Vec<Vec<char>> = Vec::new();
        let mut k: usize = start;
        while k < tokens.len()
            invariant
                start <= k <= tokens.len(),
                tv == views(tokens@),
                views(rest@) == tv.subrange(start as int, k as int),
            decreases tokens.len() - k,
        {
            let ghost before = rest@;
            rest.push(tokens[k].clone());
            assert(views(rest@) =~= views(before).push(tokens@[k as int]@));
            assert(tv.subrange(start as int, k + 1) =~= tv.subrange(start as int, k as int).push(tv[k as int]));
            k += 1;
        }
        assert(tv.subrange(start as int, tokens.len() as int) =~= tv.skip(start as int));
        let sp = chars_of(" ");
        return Some(join_chars(&rest, &sp));
    }
    None
}

// ---------------------------------------------------------------------------
// Statement rules
// ---------------------------------------------------------------------------

pub open spec fn rule_upper(c: Seq<char>) -> Seq<char> {
    upper(trim_start(c))
}

pub open spec fn is_update_without_where(stmt: Seq<char>) -> bool {
    match clean_rule(stmt) {
        Some(c) => {
            let u = rule_upper(c);
            starts_with(u, "UPDATE"@) && contains(u, " SET "@) && !contains(u, " WHERE "@)
        },
        None => false,
    }
}

pub open spec fn is_delete_without_where(stmt: Seq<char>) -> bool {
    match clean_rule(stmt) {
        Some(c) => {
            let u = rule_upper(c);
            starts_with(u, "DELETE"@) && !contains(u, " WHERE "@)
        },
        None => false,
    }
}

pub open spec fn is_insert_select_no_distinct(stmt: Seq<char>) -> bool {
    match clean_rule(stmt) {
        Some(c) => {
            let u = rule_upper(c);
            starts_with(u, "INSERT INTO"@) && contains(u, " SELECT "@) && !contains(u, " DISTINCT "@)
                && !contains(u, " GROUP BY "@)
        },
        None => false,
    }
}

/// One finding per statement that satisfies `pred`.
pub open spec fn update_findings(stmts: Seq<Seq<char>>) -> Seq<FindingV>
    decreases stmts.len(),
{
    if stmts.len() == 0 {
        seq![]
    } else {
        update_findings(stmts.drop_last()) + opt_finding(is_update_without_where(stmts.last()), update_finding())
    }
}

pub open spec fn delete_findings(stmts: Seq<Seq<char>>) -> Seq<FindingV>
    decreases stmts.len(),
{
    if stmts.len() == 0 {
        seq![]
    } else {
        delete_findings(stmts.drop_last()) + opt_finding(is_delete_without_where(stmts.last()), delete_finding())
    }
}

pub open spec fn any_insert_select(stmts: Seq<Seq<char>>) -> bool {
    exists|i: int| 0 <= i < stmts.len() && is_insert_select_no_distinct(#[trigger] stmts[i])
}

fn upper_rule_text(c: &Vec<char>) -> (r: Vec<char>)
    ensures
        r@ == rule_upper(c@),
{
    let t = trim_start_chars(c);
    upper_chars(&t)
}

fn statement_flags(stmt: &Vec<char>) -> (r: (bool, bool, bool))
    ensures
        r.0 == is_update_without_where(stmt@),
        r.1 == is_delete_without_where(stmt@),
        r.2 == is_insert_select_no_distinct(stmt@),
{
    match clean_statement_for_rule(stmt) {
        Some(c) => {
            let u = upper_rule_text(&c);
            let upd = starts_with_str(&u, "UPDATE") && contains_str(&u, " SET ") && !contains_str(&u, " WHERE ");
            let del = starts_with_str(&u, "DELETE") && !contains_str(&u, " WHERE ");
            let ins = starts_with_str(&u, "INSERT INTO") && contains_str(&u, " SELECT ") && !contains_str(&u, " DISTINCT ") && !contains_str(&u, " GROUP BY ");
            (upd, del, ins)
        },
        None => (false, false, false),
    }
}

// ---------------------------------------------------------------------------
// Whole-text rules
// ---------------------------------------------------------------------------

/// What the rules' patterns found in a body: one answer per search.
#[derive(Debug, Clone, Copy, PartialEq, Eq, Structural)]
pub struct PatternHits {
    pub select_star: bool,
    pub nolock: bool,
    pub exec_dynamic: bool,
    pub sp_executesql: bool,
    pub linked_server: bool,
    pub join_count: usize,
    pub group_by: bool,
    pub cursor: bool,
    pub date_literal: bool,
    pub status_number: bool,
}

/// The answers of the searches over `body`.
pub open spec fn hits_of(body: Seq<char>) -> PatternHits {
    PatternHits {
        select_star: found(SELECT_STAR_PATTERN@, body),
        nolock: found(NOLOCK_PATTERN@, body),
        exec_dynamic: found(EXEC_DYNAMIC_PATTERN@, body),
        sp_executesql: found(SP_EXECUTESQL_PATTERN@, body),
        linked_server: found(LINKED_SERVER_PATTERN@, body),
        join_count: match regex_find_iter(JOIN_WORD_PATTERN@, body) {
            Some(m) => m.len() as usize,
            None => 0,
        },
        group_by: found(GROUP_BY_PATTERN@, body),
        cursor: found(CURSOR_PATTERN@, body),
        date_literal: found(DATE_LITERAL_PATTERN@, body),
        status_number: found(STATUS_NUMBER_PATTERN@, body),
    }
}

/// `SUM(` or `COUNT(` with at least one `JOIN` and a `GROUP BY`.
#[verifier::opaque]
pub open spec fn multi_join_aggregation(body: Seq<char>, h: PatternHits) -> bool {
    let u = upper(body);
    let has_agg = contains(u, "SUM("@) || contains(u, "COUNT("@);
    has_agg && h.join_count >= 1 && h.group_by
}

#[verifier::opaque]
pub open spec fn transaction_without_trycatch(body: Seq<char>) -> bool {
    let u = upper(body);
    let tx = contains(u, "BEGIN TRAN"@) || contains(u, "BEGIN TRANSACTION"@);
    tx && !(contains(u, "BEGIN TRY"@) && contains(u, "BEGIN CATCH"@))
}

#[verifier::opaque]
pub open spec fn trycatch_without_rollback(body: Seq<char>) -> bool {
    let u = upper(body);
    contains(u, "BEGIN TRY"@) && contains(u, "BEGIN CATCH"@) && !contains(u, "ROLLBACK"@)
}

/// All findings of all rules, in rule order, before configuration, given the
/// answers of the pattern searches.
pub open spec fn findings_from_hits(body: Seq<char>, h: PatternHits, temp_table_count: nat) -> Seq<FindingV> {
    leading_findings(h) + statement_findings(split_statements_spec(body)) + trailing_findings(
        body,
        h,
        temp_table_count,
    )
}

/// All findings of all rules, in rule order, before configuration.
pub open spec fn raw_findings(body: Seq<char>, temp_table_count: nat) -> Seq<FindingV> {
    findings_from_hits(body, hits_of(body), temp_table_count)
}

/// Configuration applied to findings: a rule switched off drops its findings,
/// a rule given a severity has its findings take it.
pub open spec fn apply_config(fs: Seq<FindingV>, m: Map<Seq<char>, RuleConfig>) -> Seq<FindingV>
    decreases fs.len(),
{
    if fs.len() == 0 {
        seq![]
    } else {
        let p = apply_config(fs.drop_last(), m);
        let f = fs.last();
        if m.contains_key(f.0) {
            match m[f.0] {
                RuleConfig::Bool(enabled) => if enabled {
                    p.push(f)
                } else {
                    p
                },
                RuleConfig::Severity(s) => p.push((f.0, s, f.2, f.3)),
            }
        } else {
            p.push(f)
        }
    }
}

/// `a` goes strictly before `b`: higher severity first, then rule id.
pub open spec fn goes_before(a: FindingV, b: FindingV) -> bool {
    severity_rank(a.1) > severity_rank(b.1) || (severity_rank(a.1) == severity_rank(b.1)
        && str_lt(a.0, b.0))
}

/// Position of the first element from `i` on that `x` goes before.
pub open spec fn insert_point(sorted: Seq<FindingV>, x: FindingV, i: int) -> int
    decreases sorted.len() - i,
{
    if i < 0 || i >= sorted.len() {
        sorted.len() as int
    } else if goes_before(x, sorted[i]) {
        i
    } else {
        insert_point(sorted, x, i + 1)
    }
}

/// Stable sort by severity (highest first), then rule id.
pub open spec fn sort_findings(s: Seq<FindingV>) -> Seq<FindingV>
    decreases s.len(),
{
    if s.len() == 0 {
        seq![]
    } else {
        let p = sort_findings(s.drop_last());
        p.insert(insert_point(p, s.last(), 0), s.last())
    }
}

/// `detect_risks_with_config`: all rules' findings, configured, without
/// repeats, ordered by severity (highest first) and then rule id.
pub open spec fn risks_spec(sql: Seq<char>, temp_table_count: nat, m: Map<Seq<char>, RuleConfig>) -> Seq<FindingV> {
    sort_findings(dedup_first(apply_config(raw_findings(body_sql_spec(sql), temp_table_count), m)))
}

fn push_if(out: &mut Vec<RiskFinding>, b: bool, f: RiskFinding)
    ensures
        risks_view(final(out)@) == risks_view(old(out)@) + opt_finding(b, risk_view(f)),
{
    if b {
        let ghost before = out@;
        out.push(f);
        assert(risks_view(out@) =~= risks_view(before) + seq![risk_view(f)]);
    } else {
        assert(risks_view(out@) =~= risks_view(out@) + seq![]);
    }
}

fn append_risks(out: &mut Vec<RiskFinding>, more: &Vec<RiskFinding>)
    ensures
        risks_view(final(out)@) == risks_view(old(out)@) + risks_view(more@),
{
    let mut k: usize = 0;
    while k < more.len()
        invariant
            k <= more.len(),
            risks_view(out@) == risks_view(old(out)@) + risks_view(more@).take(k as int),
        decreases more.len() - k,
    {
        let d = risk_copy(&more[k]);
        let ghost before = risks_view(out@);
        out.push(d);
        assert(risks_view(out@) =~= before.push(risk_view(more@[k as int])));
        assert(risks_view(more@).take(k + 1) =~= risks_view(more@).take(k as int).push(risk_view(more@[k as int])));
        k += 1;
    }
    assert(risks_view(more@).take(more.len() as int) =~= risks_view(more@));
}

pub open spec fn leading_findings(h: PatternHits) -> Seq<FindingV> {
    opt_finding(h.select_star, select_star_finding())
        + opt_finding(h.nolock, nolock_finding())
        + opt_finding(h.exec_dynamic || h.sp_executesql, dynamic_sql_finding())
        + opt_finding(h.linked_server, linked_server_finding())
}

pub open spec fn statement_findings(stmts: Seq<Seq<char>>) -> Seq<FindingV> {
    update_findings(stmts) + delete_findings(stmts) + opt_finding(any_insert_select(stmts), insert_select_finding())
}

pub open spec fn trailing_findings(body: Seq<char>, h: PatternHits, temp_table_count: nat) -> Seq<FindingV> {
    opt_finding(multi_join_aggregation(body, h), multi_join_finding())
        + opt_finding(h.cursor, cursor_finding())
        + opt_finding(transaction_without_trycatch(body), transaction_finding())
        + opt_finding(trycatch_without_rollback(body), rollback_finding())
        + opt_finding(h.date_literal, hardcoded_date_finding())
        + opt_finding(h.status_number, status_finding())
        + opt_finding(temp_table_count >= 3, temp_chain_finding())
}

/// Runs every pattern search of the rules over the body.
pub fn pattern_hits(body: &str) -> (r: PatternHits)
    ensures
        r == hits_of(body@),
{
    let join_count = match search_find_iter(JOIN_WORD_PATTERN, body) {
        Some(m) => m.len(),
        None => 0,
    };
    PatternHits {
        select_star: search(SELECT_STAR_PATTERN, body),
        nolock: search(NOLOCK_PATTERN, body),
        exec_dynamic: search(EXEC_DYNAMIC_PATTERN, body),
        sp_executesql: search(SP_EXECUTESQL_PATTERN, body),
        linked_server: search(LINKED_SERVER_PATTERN, body),
        join_count,
        group_by: search(GROUP_BY_PATTERN, body),
        cursor: search(CURSOR_PATTERN, body),
        date_literal: search(DATE_LITERAL_PATTERN, body),
        status_number: search(STATUS_NUMBER_PATTERN, body),
    }
}

fn leading_rules(h: &PatternHits, out: &mut Vec<RiskFinding>)
    ensures
        risks_view(final(out)@) == risks_view(old(out)@) + leading_findings(*h),
{
    let ghost r0 = risks_view(out@);
    push_if(out, h.select_star, risk("select_star", Severity::Low, "SELECT * found. This may make the procedure fragile when table schema changes.", "List required columns explicitly."));
    push_if(out, h.nolock, risk("nolock_used", Severity::Medium, "NOLOCK found. Query may read dirty or uncommitted data.", "Verify whether dirty reads are acceptable for this procedure."));
    push_if(out, h.exec_dynamic || h.sp_executesql, risk("dynamic_sql", Severity::Medium, "Dynamic SQL found. Static dependency detection may be incomplete.", "Review generated SQL string and validate runtime dependencies manually."));
    push_if(out, h.linked_server, risk("linked_server", Severity::Medium, "Linked server or four-part object reference found. External DB dependency should be verified.", "Verify linked server availability, permissions, and source data freshness."));
    assert(risks_view(out@) =~= r0 + leading_findings(*h));
}

fn statement_rules(body: &Vec<char>, out: &mut Vec<RiskFinding>)
    ensures
        risks_view(final(out)@) == risks_view(old(out)@) + statement_findings(split_statements_spec(body@)),
{
    let stmts = split_statements_chars(body);
    let ghost sv = views(stmts@);
    let mut upds: Vec<RiskFinding> = Vec::new();
    let mut dels: Vec<RiskFinding> = Vec::new();
    let mut any_ins = false;
    let mut i: usize = 0;
    while i < stmts.len()
        invariant
            i <= stmts.len(),
            sv == views(stmts@),
            risks_view(upds@) == update_findings(sv.take(i as int)),
            risks_view(dels@) == delete_findings(sv.take(i as int)),
            any_ins == any_insert_select(sv.take(i as int)),
        decreases stmts.len() - i,
    {
        assert(sv.take(i + 1).drop_last() =~= sv.take(i as int));
        assert(sv.take(i + 1).last() == stmts@[i as int]@);
        let (upd, del, ins) = statement_flags(&stmts[i]);
        push_if(&mut upds, upd, risk("update_without_where", Severity::High, "UPDATE statement may be missing WHERE condition.", "Confirm this update is intended to affect all rows, or add a WHERE clause."));
        push_if(&mut dels, del, risk("delete_without_where", Severity::High, "DELETE statement may be missing WHERE condition.", "Confirm this delete is intended to affect all rows, or add a WHERE clause."));
        proof {
            let t0 = sv.take(i as int);
            let t1 = sv.take(i + 1);
            if ins {
                assert(is_insert_select_no_distinct(t1[i as int]));
            }
            if any_ins {
                let k = choose|k: int| 0 <= k < t0.len() && is_insert_select_no_distinct(#[trigger] t0[k]);
                assert(t1[k] == t0[k]);
            }
            if any_insert_select(t1) {
                let k = choose|k: int| 0 <= k < t1.len() && is_insert_select_no_distinct(#[trigger] t1[k]);
                if k < i {
                    assert(t0[k] == t1[k]);
                }
            }
        }
        any_ins = any_ins || ins;
        i += 1;
    }
    assert(sv.take(stmts.len() as int) =~= sv);
    let ghost r0 = risks_view(out@);
    append_risks(out, &upds);
    append_risks(out, &dels);
    push_if(out, any_ins, risk("insert_select_no_distinct", Severity::Medium, "INSERT INTO ... SELECT without DISTINCT or GROUP BY found. Duplicate rows may be inserted if source rows are duplicated.", "Verify source row uniqueness or add explicit duplicate prevention."));
    assert(risks_view(out@) =~= r0 + statement_findings(sv));
}

fn multi_join_flag(body: &Vec<char>, h: &PatternHits) -> (r: bool)
    ensures
        r == multi_join_aggregation(body@, *h),
{
    reveal(multi_join_aggregation);
    let u = upper_chars(body);
    let has_agg = contains_str(&u, "SUM(") || contains_str(&u, "COUNT(");
    has_agg && h.join_count >= 1 && h.group_by
}

fn transaction_flags(body: &Vec<char>) -> (r: (bool, bool))
    ensures
        r.0 == transaction_without_trycatch(body@),
        r.1 == trycatch_without_rollback(body@),
{
    reveal(transaction_without_trycatch);
    reveal(trycatch_without_rollback);
    let u = upper_chars(body);
    let tx = contains_str(&u, "BEGIN TRAN") || contains_str(&u, "BEGIN TRANSACTION");
    let has_try = contains_str(&u, "BEGIN TRY");
    let has_catch = contains_str(&u, "BEGIN CATCH");
    let has_rollback = contains_str(&u, "ROLLBACK");
    (tx && !(has_try && has_catch), has_try && has_catch && !has_rollback)
}

#[verifier::rlimit(40)]
fn trailing_rules(body: &Vec<char>, h: &PatternHits, temp_table_count: usize, out: &mut Vec<RiskFinding>)
    ensures
        risks_view(final(out)@) == risks_view(old(out)@) + trailing_findings(body@, *h, temp_table_count as nat),
{
    let ghost r0 = risks_view(out@);
    let b = multi_join_flag(body, h);
    push_if(out, b, risk("multi_join_aggregation", Severity::High, "SUM/COUNT used with JOIN and GROUP BY. Aggregated values may be duplicated if join keys are not unique.", "Check join key uniqueness, pre-aggregate detail rows before joins, and verify whether additional keys such as MANIFEST_NO, ORDER_NO, or PART_NO are required."));
    push_if(out, h.cursor, risk("cursor_used", Severity::Medium, "CURSOR usage found. This may indicate row-by-row processing and performance risk.", "Check whether cursor logic can be replaced with set-based operations."));
    let (tx, rb) = transaction_flags(body);
    push_if(out, tx, risk("transaction_without_trycatch", Severity::Medium, "Transaction found without TRY/CATCH error handling.", "Consider adding TRY/CATCH with COMMIT/ROLLBACK handling."));
    push_if(out, rb, risk("trycatch_without_rollback", Severity::High, "TRY/CATCH found without ROLLBACK. Failed transactions may remain open or partially applied.", "Verify transaction handling and add ROLLBACK in CATCH when appropriate."));
    push_if(out, h.date_literal, risk("hardcoded_date", Severity::Low, "Hardcoded date literal found.", "Verify whether date should be parameterized."));
    push_if(out, h.status_number, risk("status_magic_number", Severity::Low, "Status magic number found.", "Consider documenting status meaning or replacing with named constants/reference table."));
    push_if(out, temp_table_count >= 3, risk("temp_table_chain", Severity::Low, "Multiple temp tables found. Procedure flow may be complex and order-dependent.", "Review temp table lifecycle and ensure intermediate data is deduplicated where needed."));
    assert(risks_view(out@) =~= r0 + trailing_findings(body@, *h, temp_table_count as nat));
}

/// Every rule's findings, in rule order and before configuration, given what
/// the pattern searches found in the body.
pub fn findings_for_hits(body: &Vec<char>, hits: &PatternHits, temp_table_count: usize) -> (r: Vec<RiskFinding>)
    ensures
        risks_view(r@) == findings_from_hits(body@, *hits, temp_table_count as nat),
{
    let mut out: Vec<RiskFinding> = Vec::new();
    leading_rules(hits, &mut out);
    statement_rules(body, &mut out);
    trailing_rules(body, hits, temp_table_count, &mut out);
    assert(risks_view(out@) =~= findings_from_hits(body@, *hits, temp_table_count as nat)) by {
        assert(seq![] + leading_findings(*hits) =~= leading_findings(*hits));
    }
    out
}

fn rule_findings(body: &Vec<char>, temp_table_count: usize) -> (r: Vec<RiskFinding>)
    ensures
        risks_view(r@) == raw_findings(body@, temp_table_count as nat),
{
    let bs = string_of(body);
    let hits = pattern_hits(bs.as_str());
    findings_for_hits(body, &hits, temp_table_count)
}

fn risk_copy(f: &RiskFinding) -> (r: RiskFinding)
    ensures
        risk_view(r) == risk_view(*f),
{
    RiskFinding {
        rule_id: f.rule_id.clone(),
        severity: f.severity,
        message: f.message.clone(),
        suggestion: f.suggestion.clone(),
    }
}


// ---------------------------------------------------------------------------
// Configuration, de-duplication, ordering
// ---------------------------------------------------------------------------

fn apply_rule_config(fs: &Vec<RiskFinding>, config: &Config) -> (r: Vec<RiskFinding>)
    ensures
        risks_view(r@) == apply_config(risks_view(fs@), config.rules.view_map()),
{
    let ghost fv = risks_view(fs@);
    let ghost m = config.rules.view_map();
    let mut out: Vec<RiskFinding> = Vec::new();
    let mut i: usize = 0;
    while i < fs.len()
        invariant
            i <= fs.len(),
            fv == risks_view(fs@),
            m == config.rules.view_map(),
            risks_view(out@) == apply_config(fv.take(i as int), m),
        decreases fs.len() - i,
    {
        assert(fv.take(i + 1).drop_last() =~= fv.take(i as int));
        assert(fv.take(i + 1).last() == risk_view(fs@[i as int]));
        let f = risk_copy(&fs[i]);
        let ghost before = risks_view(out@);
        match config.rules.get(&fs[i].rule_id) {
            Some(RuleConfig::Bool(enabled)) => {
                if enabled {
                    out.push(f);
                    assert(risks_view(out@) =~= before.push(risk_view(f)));
                }
            },
            Some(RuleConfig::Severity(sev)) => {
                let g = RiskFinding { rule_id: f.rule_id, severity: sev, message: f.message, suggestion: f.suggestion };
                out.push(g);
                assert(risks_view(out@) =~= before.push(risk_view(g)));
            },
            None => {
                out.push(f);
                assert(risks_view(out@) =~= before.push(risk_view(f)));
            },
        }
        i += 1;
    }
    assert(fv.take(fs.len() as int) =~= fv);
    out
}

fn same_finding(a: &RiskFinding, b: &RiskFinding) -> (r: bool)
    ensures
        r == (risk_view(*a) == risk_view(*b)),
{
    a.rule_id == b.rule_id && a.severity == b.severity && a.message == b.message && a.suggestion == b.suggestion
}

fn goes_before_exec(a: &RiskFinding, b: &RiskFinding) -> (r: bool)
    ensures
        r == goes_before(risk_view(*a), risk_view(*b)),
{
    let ra = a.severity.rank();
    let rb = b.severity.rank();
    if ra > rb {
        return true;
    }
    if ra < rb {
        return false;
    }
    let ia = chars_of(a.rule_id.as_str());
    let ib = chars_of(b.rule_id.as_str());
    str_less(&ia, &ib)
}

fn dedupe_and_sort(findings: &Vec<RiskFinding>) -> (r: Vec<RiskFinding>)
    ensures
        risks_view(r@) == sort_findings(dedup_first(risks_view(findings@))),
{
    let ghost fv = risks_view(findings@);
    let mut unique: Vec<RiskFinding> = Vec::new();
    let mut i: usize = 0;
    while i < findings.len()
        invariant
            i <= findings.len(),
            fv == risks_view(findings@),
            risks_view(unique@) == dedup_first(fv.take(i as int)),
        decreases findings.len() - i,
    {
        assert(fv.take(i + 1).drop_last() =~= fv.take(i as int));
        assert(fv.take(i + 1).last() == risk_view(findings@[i as int]));
        let mut seen = false;
        let mut k: usize = 0;
        while k < unique.len()
            invariant
                k <= unique.len(),
                i < findings.len(),
                seen ==> risks_view(unique@).contains(risk_view(findings@[i as int])),
                !seen ==> forall|j: int| 0 <= j < k ==> risks_view(unique@)[j] != risk_view(findings@[i as int]),
            decreases unique.len() - k,
        {
            if same_finding(&unique[k], &findings[i]) {
                seen = true;
                assert(risks_view(unique@)[k as int] == risk_view(findings@[i as int]));
            }
            k += 1;
        }
        if !seen {
            let ghost before = risks_view(unique@);
            let f = risk_copy(&findings[i]);
            unique.push(f);
            assert(risks_view(unique@) =~= before.push(risk_view(f)));
        }
        i += 1;
    }
    assert(fv.take(findings.len() as int) =~= fv);
    let ghost uv = risks_view(unique@);
    let mut sorted: Vec<RiskFinding> = Vec::new();
    let mut j: usize = 0;
    while j < unique.len()
        invariant
            j <= unique.len(),
            uv == risks_view(unique@),
            risks_view(sorted@) == sort_findings(uv.take(j as int)),
        decreases unique.len() - j,
    {
        assert(uv.take(j + 1).drop_last() =~= uv.take(j as int));
        assert(uv.take(j + 1).last() == risk_view(unique@[j as int]));
        let x = risk_copy(&unique[j]);
        let ghost sv = risks_view(sorted@);
        let mut p: usize = 0;
        while p < sorted.len() && !goes_before_exec(&x, &sorted[p])
            invariant
                p <= sorted.len(),
                sv == risks_view(sorted@),
                insert_point(sv, risk_view(x), p as int) == insert_point(sv, risk_view(x), 0),
            decreases sorted.len() - p,
        {
            p += 1;
        }
        sorted.insert(p, x);
        assert(risks_view(sorted@) =~= sv.insert(p as int, risk_view(x)));
        j += 1;
    }
    assert(uv.take(unique.len() as int) =~= uv);
    sorted
}

/// Runs every rule over the procedure's body, applies the configuration,
/// removes repeated findings and orders them by severity, then rule id.
pub fn detect_risks_with_config(sql: &str, trace: &ProcedureTrace, config: &Config) -> (r: Vec<RiskFinding>)
    ensures
        risks_view(r@) == risks_spec(sql@, trace.temp_tables@.len(), config.rules.view_map()),
{
    let v = chars_of(sql);
    let body = extract_body_chars(&v);
    let raw = rule_findings(&body, trace.temp_tables.len());
    let configured = apply_rule_config(&raw, config);
    dedupe_and_sort(&configured)
}

/// `detect_risks_with_config` with no rule configured.
pub fn detect_risks(sql: &str, trace: &ProcedureTrace) -> (r: Vec<RiskFinding>)
    ensures
        risks_view(r@) == risks_spec(sql@, trace.temp_tables@.len(), Map::<Seq<char>, RuleConfig>::empty()),
{
    let config = Config::new();
    detect_risks_with_config(sql, trace, &config)
}

} // verus!
