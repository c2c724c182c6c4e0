use sptrace::normalizer::{normalize_identifier, normalize_whitespace, split_statements, strip_comments};

#[test]
fn strips_line_and_block_comments() {
    let sql = r#"
            SELECT 1 -- comment
            /* block
            comment */
            FROM [dbo].[Table]
        "#;

    let stripped = strip_comments(sql);
    assert!(!stripped.contains("comment"));
    assert!(stripped.contains("SELECT 1"));
    assert!(stripped.contains("FROM [dbo].[Table]"));
}

#[test]
fn normalizes_identifier_brackets() {
    assert_eq!(normalize_identifier("[dbo].[Table]"), "dbo.Table");
    assert_eq!(normalize_identifier("[TB_T_GR_HUB]"), "TB_T_GR_HUB");
}

#[test]
fn splits_statements_on_semicolon_and_go() {
    let sql = "SELECT 1;\nGO\nSELECT 2;";
    let statements = split_statements(sql);
    assert_eq!(statements, vec!["SELECT 1", "SELECT 2"]);
}

#[test]
fn strip_keeps_comment_markers_inside_literals() {
    let sql = "SELECT '--not a comment', \"/*x*/\", [a--b] -- gone\nFROM T";
    assert_eq!(
        strip_comments(sql),
        "SELECT '--not a comment', \"/*x*/\", [a--b] \nFROM T"
    );
}

#[test]
fn strip_keeps_newlines_of_block_comments() {
    let sql = "A/*1\n2\n3*/B";
    assert_eq!(strip_comments(sql), "A\n\nB");
}

#[test]
fn strip_handles_escaped_quotes_and_unclosed_block() {
    assert_eq!(strip_comments("'it''s' -- x"), "'it''s' ");
    assert_eq!(strip_comments("A /* never closed\nX"), "A \n");
    assert_eq!(strip_comments("A /* x"), "A ");
    assert_eq!(strip_comments("A /*"), "A ");
    assert_eq!(strip_comments("A /*/ B */C"), "A C");
}

#[test]
fn strip_without_comment_markers_is_identity() {
    let sql = "SELECT a - b / c FROM T WHERE x = 'y'";
    assert_eq!(strip_comments(sql), sql);
}

#[test]
fn strip_never_longer_and_keeps_line_count() {
    let sql = "SELECT 1 -- c\n/* a\nb */ SELECT 2\n-- last";
    let out = strip_comments(sql);
    assert!(out.chars().count() <= sql.chars().count());
    assert_eq!(
        out.chars().filter(|c| *c == '\n').count(),
        sql.chars().filter(|c| *c == '\n').count()
    );
}

#[test]
fn normalizes_whitespace_runs() {
    assert_eq!(normalize_whitespace("  SELECT\t*\n\n FROM   T  "), "SELECT * FROM T");
    assert_eq!(normalize_whitespace("   "), "");
}

#[test]
fn normalizes_identifier_punctuation() {
    assert_eq!(normalize_identifier("  [dbo].[T1]; "), "dbo.T1");
    assert_eq!(normalize_identifier("\"schema\".`tbl`,"), "schema.tbl");
    assert_eq!(normalize_identifier("TB_A)"), "TB_A");
}

#[test]
fn split_keeps_semicolons_inside_literals() {
    let sql = "INSERT INTO T VALUES ('a;b');\nSELECT 2";
    assert_eq!(
        split_statements(sql),
        vec!["INSERT INTO T VALUES ('a;b')", "SELECT 2"]
    );
}

#[test]
fn split_go_is_case_insensitive_and_skips_blank_pieces() {
    let sql = "SELECT 1\n  go  \n;;\nSELECT 2 -- c\n";
    assert_eq!(split_statements(sql), vec!["SELECT 1", "SELECT 2"]);
}

#[test]
fn split_statements_are_trimmed_and_non_empty() {
    let sql = "  SELECT 1 ;\n\n ; \t\nGO\n  UPDATE T SET A = 1  ";
    for s in split_statements(sql) {
        assert!(!s.is_empty());
        assert_eq!(s.trim(), s);
    }
}
