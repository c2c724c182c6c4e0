use sptrace::model::{Dependency, Operation, ProcedureTrace, RiskFinding, ScanIndexEntry, Severity};
use sptrace::scan::{
    check_diagram_format, check_directory_scan_options, diagram_stem, fallback_name, index_entry, is_sql_extension,
    procedure_label, report_file_name, sanitize_filename, sort_index_entries,
};

fn entry(procedure: &str, source: &str) -> ScanIndexEntry {
    ScanIndexEntry {
        source_file: source.to_string(),
        report_file: format!("{}.md", procedure),
        procedure: procedure.to_string(),
        read_count: 0,
        write_count: 0,
        risk_level: Severity::Low,
        risk_rules: Vec::new(),
    }
}

#[test]
fn sanitizes_procedure_names() {
    assert_eq!(sanitize_filename("dbo.SP_Test"), "dbo.sp_test");
    assert_eq!(sanitize_filename("[dbo].[SP  X]"), "dbo_._sp_x");
    assert_eq!(sanitize_filename("__a__b__"), "a_b");
    assert_eq!(sanitize_filename("***"), "");
    assert_eq!(sanitize_filename("Größe-1"), "gr_e-1");
}

#[test]
fn sanitized_names_are_stable() {
    for name in ["dbo.SP_Test", "[x]..[y]", "  A B  ", "é_é", "a__-__b"] {
        let once = sanitize_filename(name);
        assert_eq!(sanitize_filename(&once), once);
        assert!(!once.contains("__"));
        assert!(!once.starts_with('_') && !once.ends_with('_'));
        assert!(once
            .chars()
            .all(|c| c.is_ascii_digit() || c.is_ascii_lowercase() || c == '_' || c == '-' || c == '.'));
    }
}

#[test]
fn fallback_and_diagram_names() {
    assert_eq!(fallback_name(Some("orders")), "orders");
    assert_eq!(fallback_name(None), "unknown_procedure");
    assert_eq!(diagram_stem(Some("dbo.SP_A"), Some("file")), "dbo.sp_a");
    assert_eq!(diagram_stem(None, Some("My File")), "my_file");
    assert_eq!(diagram_stem(None, None), "diagram");
}

#[test]
fn diagram_format_check() {
    assert_eq!(check_diagram_format(None), Ok(()));
    assert_eq!(check_diagram_format(Some("mermaid")), Ok(()));
    assert_eq!(check_diagram_format(Some("MerMaid")), Ok(()));
    assert_eq!(
        check_diagram_format(Some("dot")),
        Err("Unsupported diagram format: dot. Only mermaid is supported in v0.1.".to_string())
    );
}

#[test]
fn index_entry_counts_and_rules() {
    let mut trace = ProcedureTrace::default();
    trace.dependencies = vec![
        Dependency { object: "A".to_string(), operation: Operation::Read, source: "FROM".to_string() },
        Dependency { object: "B".to_string(), operation: Operation::Read, source: "JOIN".to_string() },
        Dependency { object: "C".to_string(), operation: Operation::Write, source: "UPDATE".to_string() },
        Dependency { object: "D".to_string(), operation: Operation::Execute, source: "EXEC".to_string() },
    ];
    trace.risks = vec![
        RiskFinding {
            rule_id: "r1".to_string(),
            severity: Severity::High,
            message: String::new(),
            suggestion: String::new(),
        },
        RiskFinding {
            rule_id: "r2".to_string(),
            severity: Severity::Low,
            message: String::new(),
            suggestion: String::new(),
        },
    ];
    trace.metrics.risk_level = Severity::High;
    let e = index_entry("a.sql".to_string(), "out/a.md".to_string(), "SP_A".to_string(), &trace);
    assert_eq!(e.source_file, "a.sql");
    assert_eq!(e.report_file, "out/a.md");
    assert_eq!(e.procedure, "SP_A");
    assert_eq!(e.read_count, 2);
    assert_eq!(e.write_count, 1);
    assert_eq!(e.risk_level, Severity::High);
    assert_eq!(e.risk_rules, vec!["r1".to_string(), "r2".to_string()]);
}

#[test]
fn index_entries_sorted_by_procedure_then_file() {
    let sorted = sort_index_entries(vec![
        entry("SP_B", "z.sql"),
        entry("SP_A", "y.sql"),
        entry("SP_B", "a.sql"),
        entry("SP_A", "b.sql"),
    ]);
    let keys: Vec<(String, String)> = sorted
        .iter()
        .map(|e| (e.procedure.clone(), e.source_file.clone()))
        .collect();
    assert_eq!(
        keys,
        vec![
            ("SP_A".to_string(), "b.sql".to_string()),
            ("SP_A".to_string(), "y.sql".to_string()),
            ("SP_B".to_string(), "a.sql".to_string()),
            ("SP_B".to_string(), "z.sql".to_string()),
        ]
    );
    assert!(sort_index_entries(Vec::new()).is_empty());
}

#[test]
fn report_names_and_sql_extension() {
    assert_eq!(procedure_label(&Some("dbo.SP_A".to_string()), Some("f")), "dbo.SP_A");
    assert_eq!(procedure_label(&None, Some("orders")), "orders");
    assert_eq!(procedure_label(&None, None), "unknown_procedure");
    assert_eq!(report_file_name(&Some("[dbo].[SP A]".to_string()), Some("f")), "dbo_._sp_a.md");
    assert_eq!(report_file_name(&None, Some("My File")), "my_file.md");
    assert_eq!(report_file_name(&None, None), "unknown_procedure.md");
    assert!(is_sql_extension(Some("sql")));
    assert!(is_sql_extension(Some("SQL")));
    assert!(!is_sql_extension(Some("sqlx")));
    assert!(!is_sql_extension(None));
}

#[test]
fn directory_scan_refuses_json() {
    assert_eq!(check_directory_scan_options(false), Ok(()));
    assert_eq!(
        check_directory_scan_options(true),
        Err("JSON output is only supported for single-file scan in v0.1.".to_string())
    );
}
