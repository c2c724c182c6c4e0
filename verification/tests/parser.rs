use sptrace::model::{Operation, StatementKind};
use sptrace::parser::{
    body_start_from_matches, dependency_candidates, procedure_name_from_captures,
    temp_tables_from_matches, extract_body_sql, extract_dependencies, extract_parameters, extract_procedure_name,
    extract_temp_tables, summarize_statements,
};

#[test]
fn extracts_procedure_name_from_create_and_alter() {
    let sql = r#"
            CREATE PROCEDURE dbo.SP_TEST
            AS
            BEGIN
                SELECT 1
            END
        "#;
    assert_eq!(extract_procedure_name(sql), Some("dbo.SP_TEST".to_string()));

    let sql = r#"
            ALTER PROC [dbo].[SP_TEST]
            AS SELECT 1
        "#;
    assert_eq!(extract_procedure_name(sql), Some("dbo.SP_TEST".to_string()));
}

#[test]
fn extracts_procedure_name_from_create_or_alter_multiline() {
    let sql = r#"
            CREATE OR ALTER PROC [dbo].[SP_TEST_EDGE]
            AS
            SELECT 1
        "#;
    assert_eq!(
        extract_procedure_name(sql),
        Some("dbo.SP_TEST_EDGE".to_string())
    );
}

#[test]
fn extracts_parameters_basic() {
    let sql = r#"
            CREATE PROCEDURE dbo.SP_TEST
                @ORDER_NO VARCHAR(20),
                @PICKUP_DT DATE = NULL,
                @FLAG INT = 0
            AS
            BEGIN
                SELECT 1
            END
        "#;

    let params = extract_parameters(sql);
    assert_eq!(params.len(), 3);
    assert_eq!(params[0].name, "@ORDER_NO");
    assert_eq!(params[0].data_type, "VARCHAR(20)");
    assert_eq!(params[0].default_value, None);
    assert_eq!(params[1].name, "@PICKUP_DT");
    assert_eq!(params[1].data_type, "DATE");
    assert_eq!(params[1].default_value.as_deref(), Some("NULL"));
    assert_eq!(params[2].name, "@FLAG");
    assert_eq!(params[2].data_type, "INT");
    assert_eq!(params[2].default_value.as_deref(), Some("0"));
}

#[test]
fn extracts_parameters_multiline_and_output() {
    let sql = r#"
            CREATE OR ALTER PROCEDURE dbo.SP_TEST
                @ORDER_NO VARCHAR(20),
                @FLAG INT = 1 OUTPUT,
                @NAME NVARCHAR(50) = 'A, B, C'
            AS
            SELECT 1
        "#;

    let params = extract_parameters(sql);
    assert_eq!(params.len(), 3);
    assert_eq!(params[1].name, "@FLAG");
    assert_eq!(params[1].data_type, "INT");
    assert_eq!(params[1].default_value.as_deref(), Some("1"));
    assert_eq!(params[2].name, "@NAME");
    assert_eq!(params[2].default_value.as_deref(), Some("'A, B, C'"));
}

#[test]
fn extracts_parameters_without_begin_block() {
    let sql = r#"
            ALTER PROC [dbo].[SP_TEST]
                @A INT,
                @B BIT = 0
            AS
            SELECT 1
        "#;

    let params = extract_parameters(sql);
    assert_eq!(params.len(), 2);
    assert_eq!(params[0].name, "@A");
    assert_eq!(params[1].default_value.as_deref(), Some("0"));
}

#[test]
fn extracts_dependencies_reads_and_writes() {
    let sql = r#"
            CREATE PROCEDURE dbo.SP_TEST
                @ORDER_NO VARCHAR(20)
            WITH EXECUTE AS OWNER
            AS
            BEGIN
                SELECT *
                FROM TB_R_A a
                JOIN TB_R_B b ON a.ID = b.ID
                SELECT INTO #TMP_A
                FROM TB_R_C c
                INSERT INTO TB_OUT
                SELECT * FROM TB_R_D
                UPDATE TB_R_E SET FLAG = 1 WHERE ID = 1
                DELETE FROM TB_R_F WHERE ID = 1
                EXEC dbo.SP_NEXT
            END
        "#;

    let deps = extract_dependencies(sql);
    let objects: Vec<_> = deps
        .iter()
        .map(|d| {
            (
                d.object.as_str(),
                d.operation.to_string(),
                d.source.as_str(),
            )
        })
        .collect();

    assert!(objects.contains(&("TB_R_A", "READ".to_string(), "FROM")));
    assert!(objects.contains(&("TB_R_B", "READ".to_string(), "JOIN")));
    assert!(objects.contains(&("TB_R_C", "READ".to_string(), "FROM")));
    assert!(objects.contains(&("#TMP_A", "WRITE".to_string(), "SELECT INTO")));
    assert!(objects.contains(&("TB_OUT", "WRITE".to_string(), "INSERT INTO")));
    assert!(objects.contains(&("TB_R_E", "WRITE".to_string(), "UPDATE")));
    assert!(objects.contains(&("TB_R_F", "WRITE".to_string(), "DELETE FROM")));
    assert!(objects.contains(&("dbo.SP_NEXT", "EXECUTE".to_string(), "EXEC")));
    assert!(!objects.iter().any(|(_, _, source)| *source == "AS"));
}

#[test]
fn does_not_count_delete_target_as_read() {
    let sql = r#"
            DELETE FROM TB_B WHERE NOTE = 'WHERE';
        "#;

    let deps = extract_dependencies(sql);
    assert!(deps
        .iter()
        .any(|dep| dep.object == "TB_B" && dep.operation == Operation::Write));
    assert!(!deps
        .iter()
        .any(|dep| dep.object == "TB_B" && dep.operation == Operation::Read));
}

#[test]
fn detects_delete_join_target_and_sources() {
    let sql = r#"
            DELETE t
            FROM TB_TARGET t
            JOIN TB_SRC s ON s.ID = t.ID
            WHERE s.FLAG = 1
        "#;

    let deps = extract_dependencies(sql);
    assert!(deps
        .iter()
        .any(|dep| dep.object == "TB_TARGET" && dep.operation == Operation::Write));
    assert!(deps
        .iter()
        .any(|dep| dep.object == "TB_SRC" && dep.operation == Operation::Read));
    assert!(!deps
        .iter()
        .any(|dep| dep.object == "TB_TARGET" && dep.operation == Operation::Read));
}

#[test]
fn extracts_temp_tables() {
    let sql = r#"
            CREATE PROCEDURE dbo.SP_TEST
            AS
            BEGIN
                SELECT * INTO #TMP_A FROM TB_A;
                INSERT INTO #TMP_B SELECT * FROM #TMP_A;
            END
        "#;

    let temps = extract_temp_tables(sql);
    assert_eq!(temps, vec!["#TMP_A".to_string(), "#TMP_B".to_string()]);
}

#[test]
fn summarizes_statements_basic() {
    let sql = r#"
            CREATE PROCEDURE dbo.SP_TEST
            AS
            BEGIN
                INSERT INTO TB_OUT SELECT * FROM TB_A;
                UPDATE TB_B SET FLAG = 1 WHERE ID = 1;
                EXEC dbo.SP_NEXT;
            END
        "#;

    let statements = summarize_statements(sql);
    assert_eq!(statements.len(), 3);
    assert!(matches!(statements[0].kind, StatementKind::Insert));
    assert!(matches!(statements[1].kind, StatementKind::Update));
    assert!(matches!(statements[2].kind, StatementKind::Execute));
    assert_eq!(statements[0].target.as_deref(), Some("TB_OUT"));
    assert!(statements[0].sources.contains(&"TB_A".to_string()));
}

#[test]
fn procedure_name_absent_without_declaration() {
    assert_eq!(extract_procedure_name("SELECT 1 FROM TB_A"), None);
}

#[test]
fn procedure_name_after_non_ascii_text() {
    let sql = "-- Übersicht: Größe\nCREATE PROCEDURE [dbo].[SP_ÄNDERUNG_1]\nAS SELECT 1";
    assert_eq!(extract_procedure_name(sql), Some("dbo.SP_".to_string()));
    let sql = "/* é */ CREATE PROC dbo.SP_X AS SELECT 1";
    assert_eq!(extract_procedure_name(sql), Some("dbo.SP_X".to_string()));
}

#[test]
fn body_starts_after_as() {
    let sql = "CREATE PROCEDURE dbo.P @A INT WITH EXECUTE AS OWNER AS\n  SELECT 1";
    assert_eq!(extract_body_sql(sql), "SELECT 1");
    assert_eq!(extract_body_sql("SELECT 2"), "SELECT 2");
}

#[test]
fn temp_tables_sorted_and_deduplicated() {
    let sql = "SELECT * INTO #Z FROM T; INSERT INTO ##a SELECT * FROM #Z; SELECT * FROM #B";
    let temps = extract_temp_tables(sql);
    assert_eq!(temps, vec!["##a".to_string(), "#B".to_string(), "#Z".to_string()]);
    for w in temps.windows(2) {
        assert!(w[0] < w[1]);
    }
}

#[test]
fn temp_tables_after_non_ascii_text() {
    let sql = "SELECT N'日本語' AS x INTO #TMP_Ü FROM T";
    assert_eq!(extract_temp_tables(sql), vec!["#TMP_".to_string()]);
}

#[test]
fn dependencies_have_no_repeats() {
    let sql = "SELECT * FROM TB_A; SELECT * FROM TB_A; SELECT * FROM TB_A JOIN TB_A ON 1 = 1";
    let deps = extract_dependencies(sql);
    for i in 0..deps.len() {
        for j in (i + 1)..deps.len() {
            assert!(deps[i] != deps[j]);
        }
    }
    assert!(deps.iter().any(|d| d.object == "TB_A" && d.source == "FROM"));
    assert!(deps.iter().any(|d| d.object == "TB_A" && d.source == "JOIN"));
}

#[test]
fn exec_of_builtin_is_not_a_dependency() {
    let deps = extract_dependencies("EXEC sp_executesql @SQL; EXEC dbo.SP_REAL");
    assert!(!deps.iter().any(|d| d.object == "sp_executesql"));
    assert!(deps
        .iter()
        .any(|d| d.object == "dbo.SP_REAL" && d.operation == Operation::Execute));
}

#[test]
fn operation_labels() {
    assert_eq!(Operation::Read.to_string(), "READ");
    assert_eq!(Operation::Write.to_string(), "WRITE");
    assert_eq!(Operation::Execute.to_string(), "EXECUTE");
    assert_eq!(Operation::Unknown.to_string(), "UNKNOWN");
    assert_eq!(StatementKind::Transaction.to_string(), "Transaction");
}

#[test]
fn classifies_statement_kinds() {
    let sql = "SELECT 1; MERGE INTO T USING S ON 1 = 1 WHEN MATCHED THEN DELETE; DELETE FROM T WHERE A = 1; BEGIN TRAN; FOO BAR";
    let kinds: Vec<StatementKind> = summarize_statements(sql).iter().map(|s| s.kind).collect();
    assert_eq!(
        kinds,
        vec![
            StatementKind::Select,
            StatementKind::Merge,
            StatementKind::Delete,
            StatementKind::Transaction,
            StatementKind::Unknown
        ]
    );
}

fn chars(s: &str) -> Vec<char> {
    s.chars().collect()
}

#[test]
fn procedure_name_from_given_captures() {
    let text = chars("CREATE PROC [dbo].[X] AS");
    let name = procedure_name_from_captures(&text, &Some(vec![Some((12, 21))]));
    assert_eq!(name, Some(chars("dbo.X")));
    assert_eq!(procedure_name_from_captures(&text, &Some(vec![None])), None);
    assert_eq!(procedure_name_from_captures(&text, &Some(vec![])), None);
    assert_eq!(procedure_name_from_captures(&text, &None), None);
}

#[test]
fn body_start_from_given_matches() {
    let text = chars("P WITH EXECUTE AS OWNER AS  SELECT 1");
    // spans are byte offsets into the text after position 1
    let rest: String = text[1..].iter().collect();
    let first = rest.find("AS").unwrap();
    let second = rest.rfind(" AS ").unwrap() + 1;
    let spans = Some(vec![(first, first + 2), (second, second + 2)]);
    assert_eq!(body_start_from_matches(&text, 1, &spans), Some(28));
    assert_eq!(body_start_from_matches(&text, 1, &Some(vec![(first, first + 2)])), None);
    assert_eq!(body_start_from_matches(&text, 1, &None), None);
}

#[test]
fn temp_tables_from_given_matches() {
    let body = chars("x #B y #A z #B");
    let names = temp_tables_from_matches(&body, &Some(vec![(2, 4), (7, 9), (12, 14)]));
    assert_eq!(names, vec!["#A".to_string(), "#B".to_string()]);
    assert!(temp_tables_from_matches(&body, &None).is_empty());
    // byte offsets after a two-byte character
    let body = chars("é #T");
    assert_eq!(temp_tables_from_matches(&body, &Some(vec![(3, 5)])), vec!["#T".to_string()]);
}

#[test]
fn dependency_candidates_from_given_captures() {
    let stmt = chars("SELECT * FROM [dbo].[T] JOIN @v");
    let caps = vec![Some((14, 23)), None, Some((29, 31))];
    let found = dependency_candidates(&stmt, &caps, Operation::Read, "FROM", &None);
    assert_eq!(found.len(), 1);
    assert_eq!(found[0].0, 14);
    assert_eq!(found[0].1.object, "dbo.T");
    assert_eq!(found[0].1.operation, Operation::Read);
    assert_eq!(found[0].1.source, "FROM");
    let skip = Some(vec![chars("dbo.T")]);
    assert!(dependency_candidates(&stmt, &caps, Operation::Read, "FROM", &skip).is_empty());
    assert_eq!(
        dependency_candidates(&stmt, &caps, Operation::Read, "JOIN", &skip).len(),
        1
    );
    let exec = chars("EXEC sp_executesql");
    assert!(dependency_candidates(&exec, &vec![Some((5, 18))], Operation::Execute, "EXEC", &None).is_empty());
}

#[test]
fn statement_summaries_numbered_from_one() {
    let sql = "CREATE PROC P AS BEGIN SELECT 1; END; UPDATE T SET A = 1; EXEC dbo.X";
    let statements = summarize_statements(sql);
    assert!(!statements.is_empty());
    for (k, s) in statements.iter().enumerate() {
        assert_eq!(s.index, k + 1);
    }
}

#[test]
fn bracketed_variable_after_comment_is_an_object() {
    // comment removal joins `[]` and `@x`; the identifier cleaner then drops the brackets
    let deps = extract_dependencies("SELECT * FROM []/**/@x");
    assert!(deps.iter().any(|d| d.object == "@x" && d.operation == Operation::Read));
    let deps = extract_dependencies("SELECT * FROM @x");
    assert!(deps.is_empty());
}

#[test]
fn parameters_have_clean_shapes() {
    let sql = "CREATE PROC P @A  INT = , @B VARCHAR(10) = 'x' OUTPUT AS SELECT 1";
    let params = extract_parameters(sql);
    assert_eq!(params.len(), 2);
    for p in &params {
        assert!(p.name.starts_with('@'));
        assert!(!p.name.contains(char::is_whitespace));
        assert_eq!(p.data_type.trim(), p.data_type);
        assert_ne!(p.default_value.as_deref(), Some(""));
    }
    assert_eq!(params[0].default_value, None);
    // the block runs up to the body, so the last item still ends in `OUTPUT AS`;
    // `AS` is dropped as a trailing keyword and `OUTPUT` stays in the default
    assert_eq!(params[1].default_value.as_deref(), Some("'x' OUTPUT"));
}

#[test]
fn dependencies_are_never_variables() {
    let sql = "CREATE PROCEDURE dbo.P @Id INT AS\n-- load\nSELECT * FROM @src s JOIN dbo.Orders o ON 1 = 1;\nINSERT INTO @buf SELECT 1 FROM [dbo].[Items];\nEXEC @proc;\nEXEC dbo.Run @Id";
    let deps = extract_dependencies(sql);
    for d in &deps {
        assert!(!d.object.is_empty());
        assert!(!d.object.starts_with('@'));
    }
    let objects: Vec<&str> = deps.iter().map(|d| d.object.as_str()).collect();
    assert!(objects.contains(&"dbo.Orders"));
    assert!(objects.contains(&"dbo.Items"));
    assert!(objects.contains(&"dbo.Run"));
}
