use sptrace::analyzer::{analyze_sql, analyze_sql_with_config};
use sptrace::model::{Config, ProcedureTrace, RuleConfig, Severity, TraceMetrics};
use sptrace::rules::{
    detect_risks, detect_risks_with_config, findings_for_hits, pattern_hits, PatternHits,
};

fn empty_trace() -> ProcedureTrace {
    ProcedureTrace {
        name: Some("dbo.SP_TEST".to_string()),
        parameters: Vec::new(),
        dependencies: Vec::new(),
        temp_tables: Vec::new(),
        risks: Vec::new(),
        statements: Vec::new(),
        metrics: TraceMetrics::default(),
    }
}

#[test]
fn detects_select_star() {
    let sql = "SELECT * FROM TB_A";
    let risks = detect_risks(sql, &empty_trace());
    assert!(risks.iter().any(|r| r.rule_id == "select_star"));
}

#[test]
fn detects_nolock() {
    let sql = "SELECT * FROM TB_A WITH (NOLOCK)";
    let risks = detect_risks(sql, &empty_trace());
    assert!(risks.iter().any(|r| r.rule_id == "nolock_used"));
}

#[test]
fn detects_dynamic_sql() {
    let sql = "EXEC(@SQL)";
    let risks = detect_risks(sql, &empty_trace());
    assert!(risks.iter().any(|r| r.rule_id == "dynamic_sql"));
}

#[test]
fn detects_linked_server() {
    let sql = "SELECT * FROM IPPCS_PROD.MAIN_DB.dbo.TB_A";
    let risks = detect_risks(sql, &empty_trace());
    assert!(risks.iter().any(|r| r.rule_id == "linked_server"));
}

#[test]
fn detects_update_without_where() {
    let sql = "UPDATE TB_A SET FLAG = 1;";
    let risks = detect_risks(sql, &empty_trace());
    assert!(risks.iter().any(|r| r.rule_id == "update_without_where"));
}

#[test]
fn detects_delete_without_where() {
    let sql = "DELETE FROM TB_A;";
    let risks = detect_risks(sql, &empty_trace());
    assert!(risks.iter().any(|r| r.rule_id == "delete_without_where"));
}

#[test]
fn detects_insert_select_no_distinct() {
    let sql = "INSERT INTO TB_OUT SELECT COL FROM TB_A;";
    let risks = detect_risks(sql, &empty_trace());
    assert!(risks
        .iter()
        .any(|r| r.rule_id == "insert_select_no_distinct"));
}

#[test]
fn detects_multi_join_aggregation() {
    let sql = r#"
            SELECT A.ID, SUM(B.QTY)
            FROM TB_A A
            JOIN TB_B B ON A.ID = B.ID
            GROUP BY A.ID
        "#;
    let risks = detect_risks(sql, &empty_trace());
    assert!(risks.iter().any(|r| r.rule_id == "multi_join_aggregation"));
}

#[test]
fn detects_transaction_without_trycatch() {
    let sql = "BEGIN TRAN; UPDATE TB_A SET FLAG = 1; COMMIT;";
    let risks = detect_risks(sql, &empty_trace());
    assert!(risks
        .iter()
        .any(|r| r.rule_id == "transaction_without_trycatch"));
}

#[test]
fn detects_trycatch_without_rollback() {
    let sql = r#"
            BEGIN TRY
                UPDATE TB_A SET FLAG = 1;
            END TRY
            BEGIN CATCH
                SELECT ERROR_MESSAGE();
            END CATCH
        "#;
    let risks = detect_risks(sql, &empty_trace());
    assert!(risks
        .iter()
        .any(|r| r.rule_id == "trycatch_without_rollback"));
}

#[test]
fn detects_temp_table_chain() {
    let mut trace = empty_trace();
    trace.temp_tables = vec!["#A".to_string(), "#B".to_string(), "#C".to_string()];
    let risks = detect_risks("SELECT 1", &trace);
    assert!(risks.iter().any(|r| r.rule_id == "temp_table_chain"));
}

#[test]
fn sorts_high_before_medium_before_low() {
    let sql = r#"
            SELECT * FROM TB_A WITH (NOLOCK);
            UPDATE TB_B SET FLAG = 1;
        "#;
    let risks = detect_risks(sql, &empty_trace());
    assert!(risks.first().unwrap().severity >= risks.last().unwrap().severity);
}

#[test]
fn test_config_overrides() {
    let sql = r#"
            SELECT * FROM TB_A WITH (NOLOCK);
        "#;
    let trace_default = analyze_sql(sql).unwrap();
    assert!(trace_default.risks.iter().any(|r| r.rule_id == "select_star" && r.severity == Severity::Low));
    assert!(trace_default.risks.iter().any(|r| r.rule_id == "nolock_used" && r.severity == Severity::Medium));

    let mut config = Config::default();
    config.rules.insert("select_star".to_string(), RuleConfig::Bool(false));
    config.rules.insert("nolock_used".to_string(), RuleConfig::Severity(Severity::High));

    let trace_custom = analyze_sql_with_config(sql, &config).unwrap();
    assert!(!trace_custom.risks.iter().any(|r| r.rule_id == "select_star"));
    assert!(trace_custom.risks.iter().any(|r| r.rule_id == "nolock_used" && r.severity == Severity::High));
}

#[test]
fn empty_sql_has_no_findings() {
    assert!(detect_risks("", &empty_trace()).is_empty());
}

#[test]
fn findings_ordered_by_severity_then_rule_id() {
    let sql = r#"
        DECLARE c CURSOR FOR SELECT * FROM TB_A WITH (NOLOCK) WHERE STATUS = 3 AND D = '2024-01-01';
        UPDATE TB_B SET FLAG = 1;
        DELETE FROM TB_C;
        EXEC(@SQL);
    "#;
    let risks = detect_risks(sql, &empty_trace());
    assert!(risks.len() >= 6);
    for w in risks.windows(2) {
        assert!(w[0].severity.rank() >= w[1].severity.rank());
        if w[0].severity == w[1].severity {
            assert!(w[0].rule_id <= w[1].rule_id);
        }
    }
    let ids: Vec<&str> = risks.iter().map(|r| r.rule_id.as_str()).collect();
    assert_eq!(
        ids,
        vec![
            "delete_without_where",
            "update_without_where",
            "cursor_used",
            "dynamic_sql",
            "nolock_used",
            "hardcoded_date",
            "select_star",
            "status_magic_number",
        ]
    );
}

#[test]
fn repeated_findings_reported_once() {
    let sql = "UPDATE TB_A SET X = 1; UPDATE TB_A SET X = 1;";
    let risks = detect_risks(sql, &empty_trace());
    let n = risks
        .iter()
        .filter(|r| r.rule_id == "update_without_where")
        .count();
    assert_eq!(n, 1);
}

#[test]
fn enabled_rule_is_kept_and_disabled_rule_dropped() {
    let sql = "SELECT * FROM TB_A WITH (NOLOCK)";
    let mut config = Config::new();
    config.rules.insert("select_star".to_string(), RuleConfig::Bool(true));
    config.rules.insert("nolock_used".to_string(), RuleConfig::Bool(false));
    let risks = detect_risks_with_config(sql, &empty_trace(), &config);
    assert!(risks.iter().any(|r| r.rule_id == "select_star" && r.severity == Severity::Low));
    assert!(!risks.iter().any(|r| r.rule_id == "nolock_used"));
}

#[test]
fn later_setting_replaces_earlier() {
    let mut config = Config::new();
    config.rules.insert("select_star".to_string(), RuleConfig::Bool(false));
    config.rules.insert("select_star".to_string(), RuleConfig::Severity(Severity::Medium));
    assert_eq!(
        config.rules.get(&"select_star".to_string()),
        Some(RuleConfig::Severity(Severity::Medium))
    );
    assert_eq!(config.rules.get(&"other".to_string()), None);
    let risks = detect_risks_with_config("SELECT * FROM T", &empty_trace(), &config);
    assert!(risks.iter().any(|r| r.rule_id == "select_star" && r.severity == Severity::Medium));
}

#[test]
fn where_inside_literal_still_counts_as_missing() {
    let risks = detect_risks("UPDATE TB_A SET NOTE = 'WHERE';", &empty_trace());
    assert!(risks.iter().any(|r| r.rule_id == "update_without_where"));
    let risks = detect_risks("UPDATE TB_A SET NOTE = 'x' WHERE ID = 1;", &empty_trace());
    assert!(!risks.iter().any(|r| r.rule_id == "update_without_where"));
}

#[test]
fn severity_rank_and_labels() {
    assert_eq!(Severity::High.rank(), 3);
    assert_eq!(Severity::Medium.rank(), 2);
    assert_eq!(Severity::Low.rank(), 1);
    assert_eq!(Severity::Medium.to_string(), "Medium");
}

fn no_hits() -> PatternHits {
    PatternHits {
        select_star: false,
        nolock: false,
        exec_dynamic: false,
        sp_executesql: false,
        linked_server: false,
        join_count: 0,
        group_by: false,
        cursor: false,
        date_literal: false,
        status_number: false,
    }
}

#[test]
fn findings_from_given_search_answers() {
    let body: Vec<char> = "SELECT SUM(X) FROM A".chars().collect();
    assert!(findings_for_hits(&body, &no_hits(), 0).is_empty());

    let mut h = no_hits();
    h.sp_executesql = true;
    h.cursor = true;
    let ids: Vec<String> = findings_for_hits(&body, &h, 3).into_iter().map(|r| r.rule_id).collect();
    assert_eq!(ids, vec!["dynamic_sql", "cursor_used", "temp_table_chain"]);

    let mut h = no_hits();
    h.join_count = 2;
    h.group_by = true;
    let found = findings_for_hits(&body, &h, 0);
    assert_eq!(found.len(), 1);
    assert_eq!(found[0].rule_id, "multi_join_aggregation");
    assert_eq!(found[0].severity, Severity::High);
    h.join_count = 0;
    assert!(findings_for_hits(&body, &h, 0).is_empty());
}

#[test]
fn pattern_searches_over_text() {
    let h = pattern_hits("select * from a join b on 1=1 join c on 1=1 group by x where status = 2 and d = '2020-01-02'");
    assert!(h.select_star);
    assert!(!h.nolock);
    assert_eq!(h.join_count, 2);
    assert!(h.group_by);
    assert!(h.status_number);
    assert!(h.date_literal);
    assert!(!h.cursor);
    assert!(!h.linked_server);
}

#[test]
fn each_rule_reported_once_with_its_table_severity() {
    let sql = "UPDATE A SET X = 1; UPDATE B SET Y = 2; DELETE FROM C; DELETE FROM D; SELECT * FROM E";
    let risks = detect_risks(sql, &empty_trace());
    let ids: Vec<&str> = risks.iter().map(|r| r.rule_id.as_str()).collect();
    assert_eq!(ids, vec!["delete_without_where", "update_without_where", "select_star"]);
    assert_eq!(risks[0].severity, Severity::High);
    assert_eq!(risks[2].severity, Severity::Low);
}

#[test]
fn temp_table_chain_follows_count_and_config() {
    let mut trace = empty_trace();
    trace.temp_tables = vec!["#A".to_string(), "#B".to_string()];
    assert!(!detect_risks("SELECT 1", &trace).iter().any(|r| r.rule_id == "temp_table_chain"));
    trace.temp_tables.push("#C".to_string());
    assert!(detect_risks("SELECT 1", &trace).iter().any(|r| r.rule_id == "temp_table_chain"));
    let mut config = Config::new();
    config.rules.insert("temp_table_chain".to_string(), RuleConfig::Bool(false));
    assert!(detect_risks_with_config("SELECT 1", &trace, &config).is_empty());
}
