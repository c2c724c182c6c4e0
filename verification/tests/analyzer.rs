use sptrace::analyzer::{analyze_sql, analyze_sql_with_config};
use sptrace::model::{Config, Operation, RuleConfig, Severity};

#[test]
fn analyzes_duplicate_aggregation_sql() {
    let sql = r#"
            CREATE PROCEDURE SP_GENERATE_GR_SAMPLE
                @ORDER_NO VARCHAR(20)
            AS
            BEGIN
                INSERT INTO TB_T_GR_HUB
                SELECT
                    h.ORDER_NO,
                    d.PART_NO,
                    SUM(d.QTY) AS TOTAL_QTY,
                    SUM(d.AMOUNT) AS TOTAL_AMOUNT
                FROM TB_R_DAILY_ORDER_PART d
                JOIN TB_R_DELIVERY_CTL_H h
                    ON d.ORDER_NO = h.ORDER_NO
                JOIN TB_R_DELIVERY_CTL_D x
                    ON h.DELIVERY_NO = x.DELIVERY_NO
                WHERE h.ORDER_NO = @ORDER_NO
                GROUP BY h.ORDER_NO, d.PART_NO
            END
        "#;

    let trace = analyze_sql(sql).unwrap();
    assert_eq!(trace.name.as_deref(), Some("SP_GENERATE_GR_SAMPLE"));
    assert_eq!(trace.parameters.len(), 1);
    assert!(trace
        .dependencies
        .iter()
        .any(|dep| dep.object == "TB_R_DAILY_ORDER_PART"));
    assert!(trace
        .dependencies
        .iter()
        .any(|dep| dep.object == "TB_T_GR_HUB"));
    assert!(trace
        .risks
        .iter()
        .any(|risk| risk.rule_id == "multi_join_aggregation"));
    assert_eq!(trace.metrics.risk_level, Severity::High);
    assert_eq!(trace.metrics.write_count, 1);
    assert!(trace.metrics.read_count >= 3);
}

#[test]
fn metrics_count_reads_writes_and_statements() {
    let sql = "CREATE PROCEDURE dbo.P AS BEGIN INSERT INTO TB_OUT SELECT * FROM TB_A; UPDATE TB_B SET X = 1 WHERE ID = 1; END";
    let trace = analyze_sql(sql).unwrap();
    let reads = trace
        .dependencies
        .iter()
        .filter(|d| d.operation == Operation::Read)
        .count();
    let writes = trace
        .dependencies
        .iter()
        .filter(|d| d.operation == Operation::Write)
        .count();
    assert_eq!(trace.metrics.read_count, reads);
    assert_eq!(trace.metrics.write_count, writes);
    assert_eq!(trace.metrics.read_count, 1);
    assert_eq!(trace.metrics.write_count, 2);
    assert_eq!(trace.metrics.statement_count, trace.statements.len());
}

#[test]
fn risk_level_is_first_finding_severity() {
    let sql = "SELECT * FROM TB_A WITH (NOLOCK); UPDATE TB_B SET FLAG = 1;";
    let trace = analyze_sql(sql).unwrap();
    assert!(!trace.risks.is_empty());
    assert_eq!(trace.metrics.risk_level, trace.risks[0].severity);
    assert_eq!(trace.metrics.risk_level, Severity::High);
    for r in &trace.risks {
        assert!(r.severity <= trace.metrics.risk_level);
    }
}

#[test]
fn risk_level_low_without_findings() {
    let trace = analyze_sql("SELECT COL FROM TB_A WHERE ID = 1").unwrap();
    assert!(trace.risks.is_empty());
    assert_eq!(trace.metrics.risk_level, Severity::Low);
}

#[test]
fn analysis_of_empty_text() {
    let trace = analyze_sql("").unwrap();
    assert_eq!(trace.name, None);
    assert!(trace.parameters.is_empty());
    assert!(trace.dependencies.is_empty());
    assert!(trace.temp_tables.is_empty());
    assert!(trace.statements.is_empty());
    assert!(trace.risks.is_empty());
    assert_eq!(trace.metrics.statement_count, 0);
}

#[test]
fn config_override_changes_risk_level() {
    let sql = "SELECT * FROM TB_A";
    let mut config = Config::default();
    config
        .rules
        .insert("select_star".to_string(), RuleConfig::Severity(Severity::High));
    let trace = analyze_sql_with_config(sql, &config).unwrap();
    assert_eq!(trace.metrics.risk_level, Severity::High);
}
