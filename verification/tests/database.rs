use uwu_infra::migrations::{MigrationSet, SqlMigration};
use uwu_infra::sql_text::{
    create_version_table_sql, delete_version_record_sql, escape_sql_str,
    fetch_version_records_sql, insert_version_record_sql, parse_filename, split_sql,
};

#[test]
fn parse_filename_up() {
    assert_eq!(parse_filename("0001_init_users.up.sql"), Some((1, "init_users".to_string())));
    assert_eq!(parse_filename("0010_add_email.down.sql"), None);
    assert_eq!(parse_filename("readme.md"), None);
}

#[test]
fn parse_filename_edge_cases() {
    assert_eq!(parse_filename("nounderscore.up.sql"), None);
    assert_eq!(parse_filename("x_name.up.sql"), None);
    assert_eq!(parse_filename("-3_neg.up.sql"), Some((-3, "neg".to_string())));
    assert_eq!(parse_filename(".sql"), None);
}

#[test]
fn split_statements() {
    let s = split_sql("CREATE TABLE a (x TEXT);  INSERT INTO a VALUES ('x;y');\n-- note;\n# other;\nSELECT 1");
    assert_eq!(
        s,
        vec![
            "CREATE TABLE a (x TEXT);".to_string(),
            "INSERT INTO a VALUES ('x;y');".to_string(),
            "SELECT 1".to_string(),
        ]
    );
    let esc = split_sql(r#"SELECT 'a\';b'; SELECT "c;d""#);
    assert_eq!(esc, vec![r#"SELECT 'a\';b';"#.to_string(), r#"SELECT "c;d""#.to_string()]);
    assert_eq!(split_sql("  ;  ; "), vec![";".to_string(), ";".to_string()]);
    assert!(split_sql("   \n ").is_empty());
}

#[test]
fn leading_comment_lines_do_not_swallow_a_statement() {
    let s = split_sql("-- create table\nCREATE TABLE t (id INT);");
    assert_eq!(s.len(), 1);
    assert!(s[0].contains("CREATE TABLE t (id INT)"));
    assert_eq!(s[0], "CREATE TABLE t (id INT);");
    let s = split_sql("# a\n  -- b\n\n  SELECT 1;\n-- trailing note");
    assert_eq!(s, vec!["SELECT 1;".to_string()]);
}

#[test]
fn sql_statement_text() {
    assert_eq!(escape_sql_str("it's"), "it''s");
    assert_eq!(
        fetch_version_records_sql("t\"x"),
        "SELECT version, name, applied_at FROM \"t\"\"x\" ORDER BY version"
    );
    assert_eq!(delete_version_record_sql("t", -2), "DELETE FROM \"t\" WHERE version = -2");
    assert_eq!(
        insert_version_record_sql("t", 3, "o'k", "now", ""),
        "INSERT INTO \"t\" (version, name, applied_at, checksum) VALUES (3, 'o''k', 'now', '') ON CONFLICT (version) DO UPDATE SET name = EXCLUDED.name, applied_at = EXCLUDED.applied_at, checksum = EXCLUDED.checksum"
    );
    assert!(create_version_table_sql("_uwu_schema_version").starts_with("CREATE TABLE IF NOT EXISTS \"_uwu_schema_version\" (\n            version     BIGINT PRIMARY KEY,"));
}

#[test]
fn migration_planning() {
    let mut set = MigrationSet::new();
    set.add(SqlMigration::new(2, "b", "CREATE TABLE b (x INT)", None));
    set.add(SqlMigration::new(1, "a", "CREATE TABLE a (x INT)", Some("DROP TABLE a")));
    set.add(SqlMigration::new(3, "c", "CREATE TABLE c (x INT)", Some("DROP TABLE c")));
    set.add(SqlMigration::new(3, "c2", "CREATE TABLE c (y INT)", Some("DROP TABLE c")));
    assert_eq!(set.plan_up(&vec![], None), vec![1, 2, 3]);
    assert_eq!(set.plan_up(&vec![1], Some(2)), vec![2]);
    let (done, err) = set.plan_down(&vec![1, 2, 3, 9], 0);
    // 9 has no definition (skipped), 3 rolls back, 2 has no down script.
    assert_eq!(done, vec![3]);
    assert!(err.is_some());
    let (done, err) = set.plan_down(&vec![1, 3], 0);
    assert_eq!(done, vec![3, 1]);
    assert!(err.is_none());
    let st = set.status(&vec![(1, "a".to_string(), "t1".to_string())]);
    assert_eq!(st.len(), 3);
    assert_eq!(st[0].applied_at.as_deref(), Some("t1"));
    assert!(!st[0].pending);
    assert!(st[1].pending);
    assert_eq!(st[2].name, "c2");
}
