use sptrace::model::{
    Dependency, Operation, Parameter, ProcedureTrace, RiskFinding, ScanIndexEntry, Severity,
    TraceMetrics,
};
use sptrace::report::{
    group_dependencies, parameter_set, render_context, render_dependency_index, render_diff,
    render_folder_mermaid, render_markdown, render_mermaid, render_next_queries,
    render_questions, render_terminal, risk_rule_set, set_diff,
};

fn sample_trace() -> ProcedureTrace {
    ProcedureTrace {
        name: Some("SP_TEST".to_string()),
        parameters: vec![Parameter {
            name: "@ORDER_NO".to_string(),
            data_type: "VARCHAR(20)".to_string(),
            default_value: None,
        }],
        dependencies: vec![
            Dependency {
                object: "TB_A".to_string(),
                operation: Operation::Read,
                source: "FROM".to_string(),
            },
            Dependency {
                object: "TB_OUT".to_string(),
                operation: Operation::Write,
                source: "INSERT INTO".to_string(),
            },
        ],
        temp_tables: vec!["#TMP_A".to_string()],
        risks: vec![RiskFinding {
            rule_id: "select_star".to_string(),
            severity: Severity::Low,
            message: "SELECT * found.".to_string(),
            suggestion: "List columns explicitly.".to_string(),
        }],
        statements: vec![],
        metrics: TraceMetrics {
            statement_count: 2,
            read_count: 1,
            write_count: 1,
            risk_level: Severity::Low,
        },
    }
}

fn strings(items: &[&str]) -> Vec<String> {
    items.iter().map(|s| s.to_string()).collect()
}

#[test]
fn terminal_report_contains_core_sections() {
    let report = render_terminal(&sample_trace());
    assert!(report.contains("Procedure: SP_TEST"));
    assert!(report.contains("Tables Read:"));
    assert!(report.contains("Risks:"));
}

#[test]
fn markdown_contains_core_sections() {
    let report = render_markdown(&sample_trace());
    assert!(report.contains("# SPTrace Report: SP_TEST"));
    assert!(report.contains("## 1. Overview"));
    assert!(report.contains("## 7. Risk Findings"));
    assert!(report.contains("```mermaid"));
}

#[test]
fn mermaid_contains_dependency_edges() {
    let diagram = render_mermaid(&sample_trace());
    assert!(diagram.contains("flowchart LR"));
    assert!(diagram.contains("-->"));
}

#[test]
fn context_contains_ai_sections() {
    let context = render_context(&sample_trace());
    assert!(context.contains("# AI Context for Stored Procedure Analysis"));
    assert!(context.contains("## Suspicious Logic"));
}

#[test]
fn dependency_index_contains_rows() {
    let index = render_dependency_index(&[ScanIndexEntry {
        source_file: "a.sql".to_string(),
        report_file: "a.md".to_string(),
        procedure: "SP_TEST".to_string(),
        read_count: 1,
        write_count: 1,
        risk_level: Severity::Low,
        risk_rules: vec!["select_star".to_string()],
    }]);
    assert!(index.contains("# SPTrace Dependency Index"));
    assert!(index.contains("a.sql"));
    assert!(index.contains("select_star"));
}

#[test]
fn diff_contains_changes() {
    let before = sample_trace();
    let mut after = sample_trace();
    after.parameters.push(Parameter {
        name: "@X".to_string(),
        data_type: "INT".to_string(),
        default_value: None,
    });
    after.dependencies.push(Dependency {
        object: "TB_NEW".to_string(),
        operation: Operation::Read,
        source: "JOIN".to_string(),
    });
    after.risks.push(RiskFinding {
        rule_id: "dynamic_sql".to_string(),
        severity: Severity::Medium,
        message: "Dynamic SQL found.".to_string(),
        suggestion: "Review generated SQL string.".to_string(),
    });

    let diff = render_diff(&before, &after, "before.sql", "after.sql");
    assert!(diff.contains("# SPTrace Diff Report"));
    assert!(diff.contains("Added"));
    assert!(diff.contains("TB_NEW"));
    assert!(diff.contains("dynamic_sql"));
}

#[test]
fn terminal_report_exact_text() {
    let report = render_terminal(&sample_trace());
    let expected = "Procedure: SP_TEST\n\nParameters:\n- @ORDER_NO VARCHAR(20) (Required)\n\nTables Read:\n- TB_A\n\nTables Written:\n- TB_OUT\n\nProcedures Executed:\n- None\n\nTemp Tables:\n- #TMP_A\n\nRisks:\n[LOW] select_star - SELECT * found.";
    assert_eq!(report, expected);
}

#[test]
fn terminal_report_of_empty_trace() {
    let report = render_terminal(&ProcedureTrace::default());
    assert!(report.starts_with("Procedure: Unknown\n"));
    assert!(report.ends_with("Risks:\n- None"));
}

#[test]
fn mermaid_exact_text() {
    let diagram = render_mermaid(&sample_trace());
    assert_eq!(
        diagram,
        "flowchart LR\n    N_SP_TEST[\"SP_TEST\"]\n    N_TB_A[\"TB_A\"]\n    N_TB_A --> N_SP_TEST\n    N_TB_OUT[\"TB_OUT\"]\n    N_SP_TEST --> N_TB_OUT"
    );
}

#[test]
fn mermaid_node_ids_and_labels() {
    let mut trace = ProcedureTrace::default();
    trace.name = Some("dbo.SP \"X\"".to_string());
    trace.dependencies.push(Dependency {
        object: "dbo.SP_NEXT".to_string(),
        operation: Operation::Execute,
        source: "EXEC".to_string(),
    });
    trace.dependencies.push(Dependency {
        object: "--".to_string(),
        operation: Operation::Unknown,
        source: "?".to_string(),
    });
    let diagram = render_mermaid(&trace);
    assert_eq!(
        diagram,
        "flowchart LR\n    N_dbo_SP__X[\"dbo.SP 'X'\"]\n    N_dbo_SP_NEXT[\"dbo.SP_NEXT\"]\n    N_dbo_SP__X -. executes .-> N_dbo_SP_NEXT\n    N[\"--\"]"
    );
}

#[test]
fn mermaid_without_dependencies() {
    let diagram = render_mermaid(&ProcedureTrace::default());
    assert_eq!(
        diagram,
        "flowchart LR\n    N_UNKNOWN_PROC[\"UNKNOWN_PROC\"]\n    %% No dependencies detected"
    );
}

#[test]
fn folder_mermaid_shares_nodes_and_edges() {
    let a = sample_trace();
    let mut b = sample_trace();
    b.name = Some("SP_OTHER".to_string());
    let diagram = render_folder_mermaid(&[a.clone(), a, b]);
    assert_eq!(
        diagram,
        "flowchart LR\n    N_SP_TEST[\"SP_TEST\"]\n    N_TB_A[\"TB_A\"]\n    N_TB_A --> N_SP_TEST\n    N_TB_OUT[\"TB_OUT\"]\n    N_SP_TEST --> N_TB_OUT\n    N_SP_OTHER[\"SP_OTHER\"]\n    N_TB_A --> N_SP_OTHER\n    N_SP_OTHER --> N_TB_OUT"
    );
    assert_eq!(
        render_folder_mermaid(&[]),
        "flowchart LR\n    %% No dependencies detected"
    );
}

#[test]
fn dependency_index_exact_rows() {
    assert_eq!(
        render_dependency_index(&[]),
        "# SPTrace Dependency Index\n\n| File | Procedure | Reads | Writes | Risk Level | Risk Rules |\n|---|---|---:|---:|---|---|\n| None | - | 0 | 0 | Low | - |\n"
    );
    let index = render_dependency_index(&[ScanIndexEntry {
        source_file: "x/a.sql".to_string(),
        report_file: "out/a.md".to_string(),
        procedure: "SP_A".to_string(),
        read_count: 12,
        write_count: 0,
        risk_level: Severity::High,
        risk_rules: strings(&["r1", "r2"]),
    }]);
    assert!(index.ends_with("| x/a.sql | SP_A | 12 | 0 | High | r1, r2 |\n"));
}

#[test]
fn groups_keep_first_seen_order_once() {
    let deps = vec![
        Dependency { object: "B".to_string(), operation: Operation::Read, source: "FROM".to_string() },
        Dependency { object: "A".to_string(), operation: Operation::Read, source: "JOIN".to_string() },
        Dependency { object: "B".to_string(), operation: Operation::Read, source: "JOIN".to_string() },
        Dependency { object: "S.D.O.T".to_string(), operation: Operation::Write, source: "UPDATE".to_string() },
        Dependency { object: "P".to_string(), operation: Operation::Execute, source: "EXEC".to_string() },
    ];
    let g = group_dependencies(&deps);
    assert_eq!(g.reads, strings(&["B", "A"]));
    assert_eq!(g.writes, strings(&["S.D.O.T"]));
    assert_eq!(g.executes, strings(&["P"]));
    assert_eq!(g.external, strings(&["S.D.O.T"]));
}

#[test]
fn set_diff_sorted_unique() {
    let a = strings(&["c", "a", "b", "a"]);
    let b = strings(&["b"]);
    assert_eq!(set_diff(&a, &b), strings(&["a", "c"]));
    assert_eq!(set_diff(&a, &a), Vec::<String>::new());
    assert_eq!(set_diff(&b, &a), Vec::<String>::new());
}

#[test]
fn parameter_and_risk_sets() {
    let mut t = sample_trace();
    t.parameters.push(Parameter {
        name: "@A".to_string(),
        data_type: "INT".to_string(),
        default_value: Some("0".to_string()),
    });
    assert_eq!(parameter_set(&t), strings(&["@A INT = 0", "@ORDER_NO VARCHAR(20)"]));
    assert_eq!(risk_rule_set(&t), strings(&["select_star: SELECT * found."]));
}

#[test]
fn diff_of_trace_with_itself_lists_nothing() {
    let t = sample_trace();
    let diff = render_diff(&t, &t, "a.sql", "b.sql");
    assert!(!diff.contains("TB_A"));
    assert!(!diff.contains("select_star"));
    assert_eq!(diff.matches("- None").count(), 12);
    assert!(diff.contains("- Before Count: 1\n- After Count: 1\n\n"));
}

#[test]
fn diff_lists_dependencies_as_the_code_does() {
    let before = sample_trace();
    let mut after = sample_trace();
    after.dependencies.push(Dependency {
        object: "TB_NEW".to_string(),
        operation: Operation::Read,
        source: "JOIN".to_string(),
    });
    let diff = render_diff(&before, &after, "before.sql", "after.sql");
    assert!(diff.contains("### New Tables Read\n- None\n### Removed Tables Read\n- TB_NEW\n"));
}

#[test]
fn questions_and_queries_for_findings() {
    let mut t = sample_trace();
    t.risks.push(RiskFinding {
        rule_id: "multi_join_aggregation".to_string(),
        severity: Severity::High,
        message: "m".to_string(),
        suggestion: "s".to_string(),
    });
    let qs = render_questions(&t);
    let mut sorted = qs.clone();
    sorted.sort();
    sorted.dedup();
    assert_eq!(qs, sorted);
    assert!(!qs.is_empty());
    let g = group_dependencies(&t.dependencies);
    let queries = render_next_queries(&t, &g);
    assert!(!queries.is_empty());
}

#[test]
fn markdown_exact_text() {
    let t = sample_trace();
    let diagram = render_mermaid(&t);
    let expected = format!(
        "# SPTrace Report: SP_TEST\n\n## 1. Overview\n- Procedure: SP_TEST\n- Dialect: T-SQL\n- Statements: 2\n- Risk Level: Low\n\n## 2. Parameters\n| Parameter | Type | Default |\n|---|---|---|\n| @ORDER_NO | VARCHAR(20) | Required |\n\n## 3. Dependencies\n\n### Tables Read\n- TB_A\n\n### Tables Written\n- TB_OUT\n\n### Procedures Executed\n- None\n\n### External Dependencies\n- None\n\n## 4. Temp Tables\n- #TMP_A\n\n## 5. Dependency Diagram\n\n```mermaid\n{}\n```\n\n## 6. Execution Flow\n1. Reads from `TB_A`\n2. Uses temp tables `#TMP_A`\n3. Writes to `TB_OUT`\n\n## 7. Risk Findings\n\n### Low: select_star\nSELECT * found.\n\nSuggestion: List columns explicitly.\n\n## 8. Questions to Verify\n- Can the query list explicit columns instead of SELECT *?\n\n## 9. Suggested Next Queries\n- No specific query suggested.\n",
        diagram
    );
    assert_eq!(render_markdown(&t), expected);
}

#[test]
fn context_exact_text() {
    let expected = "# AI Context for Stored Procedure Analysis\n\n## Procedure\nSP_TEST\n\n## Summary\nThis procedure reads 1 table, writes 1 table, uses 1 temp table, and has risk level Low.\n\n## Extracted Dependencies\n### Tables Read\n- TB_A\n\n### Tables Written\n- TB_OUT\n\n### Procedures Executed\n- None\n\n### Temp Tables\n- #TMP_A\n\n## Suspicious Logic\n- [Low] select_star: SELECT * found.\n\n## Ask\n- Can the query list explicit columns instead of SELECT *?\n\n## Suggested Verification Queries\n- No specific query suggested.\n";
    assert_eq!(render_context(&sample_trace()), expected);
}

#[test]
fn context_of_empty_trace_and_queries() {
    let mut t = ProcedureTrace::default();
    let ctx = render_context(&t);
    assert!(ctx.contains("## Procedure\nUnknown\n\n"));
    assert!(ctx.contains("This procedure reads 0 tables, writes 0 tables, uses 0 temp tables, and has risk level Low.\n\n"));
    assert!(ctx.contains("## Suspicious Logic\n- None detected.\n\n"));
    assert!(ctx.contains("## Ask\n- Does the current dependency graph match the intended business flow?\n\n"));
    t.risks.push(RiskFinding {
        rule_id: "update_without_where".to_string(),
        severity: Severity::High,
        message: "m".to_string(),
        suggestion: "s".to_string(),
    });
    t.risks.push(RiskFinding {
        rule_id: "multi_join_aggregation".to_string(),
        severity: Severity::High,
        message: "m".to_string(),
        suggestion: "s".to_string(),
    });
    let g = group_dependencies(&t.dependencies);
    assert_eq!(
        render_next_queries(&t, &g),
        strings(&[
            "SELECT ORDER_NO, PART_NO, COUNT(*) AS CNT\nFROM <SOURCE_TABLE>\nGROUP BY ORDER_NO, PART_NO\nHAVING COUNT(*) > 1;",
            "SELECT TOP 100 *\nFROM <TARGET_TABLE>;",
        ])
    );
    let md = render_markdown(&t);
    assert!(md.contains("## 6. Execution Flow\n1. No explicit flow detected.\n\n"));
    assert!(md.contains("```sql\nSELECT TOP 100 *\nFROM <TARGET_TABLE>;\n```\n"));
}

#[test]
fn folder_mermaid_of_repeated_input_is_unchanged() {
    let a = sample_trace();
    let mut b = sample_trace();
    b.name = None;
    let once = render_folder_mermaid(&[a.clone(), b.clone()]);
    let twice = render_folder_mermaid(&[a.clone(), b.clone(), a, b]);
    assert_eq!(once, twice);
    let lines: Vec<&str> = once.lines().collect();
    for i in 0..lines.len() {
        for j in (i + 1)..lines.len() {
            assert_ne!(lines[i], lines[j]);
        }
    }
    assert_eq!(lines[0], "flowchart LR");
}

#[test]
fn markdown_heading_lines_are_the_sections() {
    let mut t = sample_trace();
    for id in ["multi_join_aggregation", "update_without_where", "dynamic_sql", "linked_server"] {
        t.risks.push(RiskFinding {
            rule_id: id.to_string(),
            severity: Severity::High,
            message: "# not a section".to_string(),
            suggestion: "## inside a suggestion".to_string(),
        });
    }
    t.dependencies.push(Dependency {
        object: "dbo.RunIt".to_string(),
        operation: Operation::Execute,
        source: "EXEC".to_string(),
    });
    let report = render_markdown(&t);
    let headings: Vec<&str> = report.lines().filter(|l| l.starts_with("## ")).collect();
    assert_eq!(
        headings,
        vec![
            "## 1. Overview",
            "## 2. Parameters",
            "## 3. Dependencies",
            "## 4. Temp Tables",
            "## 5. Dependency Diagram",
            "## 6. Execution Flow",
            "## 7. Risk Findings",
            "## 8. Questions to Verify",
            "## 9. Suggested Next Queries",
        ]
    );
}
