use schema_reflect::queries::{
    indexes_query, is_valid_identifier, primary_key_query, COLUMNS_SQL, FOREIGN_KEYS_SQL,
    INDEXES_SQL_PREFIX, INDEXES_SQL_SUFFIX, LIST_TABLES_SQL, PK_SQL_PREFIX, PK_SQL_SUFFIX,
};

#[test]
fn identifier_allow_list() {
    assert!(is_valid_identifier("users"));
    assert!(is_valid_identifier("_tmp_2024"));
    assert!(is_valid_identifier("Order2"));
    assert!(!is_valid_identifier(""));
    assert!(!is_valid_identifier("2fast"));
    assert!(!is_valid_identifier("user-table"));
    assert!(!is_valid_identifier("users; DROP TABLE x"));
    assert!(!is_valid_identifier("a'b"));
}

#[test]
fn primary_key_query_interpolates_valid_name() {
    let q = primary_key_query("users").unwrap();
    assert_eq!(q, format!("{}users{}", PK_SQL_PREFIX, PK_SQL_SUFFIX));
    assert!(q.contains("WHERE c.relname = 'users'"));
    assert!(q.contains("i.indisprimary"));
}

#[test]
fn indexes_query_interpolates_valid_name() {
    let q = indexes_query("users").unwrap();
    assert_eq!(q, format!("{}users{}", INDEXES_SQL_PREFIX, INDEXES_SQL_SUFFIX));
    assert!(q.contains("WHERE t.relname = 'users'"));
    assert!(q.contains("NOT ix.indisprimary"));
}

#[test]
fn injection_attempts_are_refused() {
    assert!(primary_key_query("users'; DROP TABLE x; --").is_none());
    assert!(indexes_query("a' OR '1'='1").is_none());
    assert!(primary_key_query("").is_none());
}

#[test]
fn fixed_queries_bind_the_table_name() {
    assert!(LIST_TABLES_SQL.contains("BASE TABLE"));
    assert!(LIST_TABLES_SQL.contains("table_schema = 'public'"));
    assert!(COLUMNS_SQL.contains("table_name = $1"));
    assert!(FOREIGN_KEYS_SQL.contains("tc.table_name = $1"));
    assert!(FOREIGN_KEYS_SQL.contains("FOREIGN KEY"));
}
