use grapple_db::cql::split_queries;

#[test]
fn splits_and_trims_statements() {
    let script = "CREATE TABLE users (id UUID PRIMARY KEY, name TEXT);\nINSERT INTO users (id, name) VALUES (uuid(), 'John Doe');\n";
    assert_eq!(
        split_queries(script),
        vec![
            "CREATE TABLE users (id UUID PRIMARY KEY, name TEXT)".to_string(),
            "INSERT INTO users (id, name) VALUES (uuid(), 'John Doe')".to_string(),
        ]
    );
}

#[test]
fn empty_pieces_are_dropped() {
    assert_eq!(split_queries(";;  ;\n;"), Vec::<String>::new());
    assert_eq!(split_queries(""), Vec::<String>::new());
    assert_eq!(split_queries("   \t\n"), Vec::<String>::new());
}

#[test]
fn last_statement_needs_no_semicolon() {
    assert_eq!(split_queries("SELECT 1"), vec!["SELECT 1".to_string()]);
}

#[test]
fn surrounding_whitespace_is_removed() {
    assert_eq!(
        split_queries("  USE test ;\t DROP TABLE t \n;"),
        vec!["USE test".to_string(), "DROP TABLE t".to_string()]
    );
}

#[test]
fn inner_whitespace_is_kept() {
    assert_eq!(
        split_queries("SELECT a,  b FROM t;"),
        vec!["SELECT a,  b FROM t".to_string()]
    );
}
