use schema_reflect::assemble::{assemble_table, attach_foreign_keys, ColumnRow, ForeignKeyRow, IndexRow};
use schema_reflect::parse::parse_index_columns;
use schema_reflect::{Column, Schema, Table};

fn column_row(name: &str, data_type: &str, is_nullable: &str, default: Option<&str>) -> ColumnRow {
    ColumnRow {
        name: name.to_string(),
        data_type: data_type.to_string(),
        is_nullable: is_nullable.to_string(),
        default: default.map(|d| d.to_string()),
    }
}

fn fk_row(
    column: &str,
    foreign_table: &str,
    foreign_column: &str,
    on_delete: Option<&str>,
    on_update: Option<&str>,
) -> ForeignKeyRow {
    ForeignKeyRow {
        column: column.to_string(),
        foreign_table: foreign_table.to_string(),
        foreign_column: foreign_column.to_string(),
        on_delete: on_delete.map(|d| d.to_string()),
        on_update: on_update.map(|d| d.to_string()),
    }
}

#[test]
fn parse_index_columns_splits_and_trims() {
    let cols = parse_index_columns("a, b,c");
    assert_eq!(cols, vec!["a".to_string(), "b".to_string(), "c".to_string()]);
}

#[test]
fn parse_index_columns_keeps_order_and_duplicates() {
    let cols = parse_index_columns("  x ,y, x ");
    assert_eq!(cols, vec!["x".to_string(), "y".to_string(), "x".to_string()]);
}

#[test]
fn parse_index_columns_single_and_empty() {
    assert_eq!(parse_index_columns("alone"), vec!["alone".to_string()]);
    assert_eq!(parse_index_columns(""), vec!["".to_string()]);
    assert_eq!(parse_index_columns(" , "), vec!["".to_string(), "".to_string()]);
}

#[test]
fn column_names_round_trip_in_order() {
    let rows = vec![
        column_row("id", "integer", "NO", None),
        column_row("email", "text", "YES", None),
        column_row("org_id", "integer", "NO", None),
    ];
    let t = assemble_table(vec![], &rows, &vec![], &vec![]).unwrap();
    let names: Vec<&str> = t.columns.iter().map(|c| c.name.as_str()).collect();
    assert_eq!(names, vec!["id", "email", "org_id"]);
}

#[test]
fn column_fields_taken_verbatim() {
    let rows = vec![column_row("n", "numeric(10,2)", "YES", Some("0.00"))];
    let t = assemble_table(vec![], &rows, &vec![], &vec![]).unwrap();
    let c = &t.columns[0];
    assert_eq!(c.name, "n");
    assert_eq!(c.col_type, "numeric(10,2)");
    assert!(c.nullable);
    assert_eq!(c.default.as_deref(), Some("0.00"));
    assert!(c.references.is_none());
    assert!(c.check.is_none());
}

#[test]
fn nullable_only_on_yes_marker() {
    let rows = vec![
        column_row("a", "text", "YES", None),
        column_row("b", "text", "NO", None),
        column_row("c", "text", "yes", None),
    ];
    let t = assemble_table(vec![], &rows, &vec![], &vec![]).unwrap();
    assert!(t.columns[0].nullable);
    assert!(!t.columns[1].nullable);
    assert!(!t.columns[2].nullable);
}

#[test]
fn foreign_key_attached_verbatim() {
    let rows = vec![column_row("org_id", "integer", "NO", None)];
    let fks = vec![fk_row("org_id", "orgs", "id", Some("CASCADE"), None)];
    let t = assemble_table(vec![], &rows, &fks, &vec![]).unwrap();
    let r = t.columns[0].references.as_ref().unwrap();
    assert_eq!(r.table, "orgs");
    assert_eq!(r.column, "id");
    assert_eq!(r.on_delete.as_deref(), Some("CASCADE"));
    assert!(r.on_update.is_none());
}

#[test]
fn foreign_key_last_row_wins() {
    let rows = vec![column_row("org_id", "integer", "NO", None)];
    let fks = vec![
        fk_row("org_id", "orgs", "id", Some("CASCADE"), None),
        fk_row("org_id", "groups", "gid", None, Some("RESTRICT")),
    ];
    let t = assemble_table(vec![], &rows, &fks, &vec![]).unwrap();
    let r = t.columns[0].references.as_ref().unwrap();
    assert_eq!(r.table, "groups");
    assert_eq!(r.column, "gid");
    assert!(r.on_delete.is_none());
    assert_eq!(r.on_update.as_deref(), Some("RESTRICT"));
}

#[test]
fn orphaned_foreign_key_row_is_dropped() {
    let rows = vec![column_row("id", "integer", "NO", None)];
    let fks = vec![fk_row("no_such_column", "orgs", "id", None, None)];
    let t = assemble_table(vec![], &rows, &fks, &vec![]).unwrap();
    assert!(t.columns[0].references.is_none());
}

#[test]
fn duplicate_column_names_are_rejected() {
    let rows = vec![
        column_row("id", "integer", "NO", None),
        column_row("id", "bigint", "NO", None),
    ];
    assert!(assemble_table(vec![], &rows, &vec![], &vec![]).is_none());
}

#[test]
fn attach_overwrites_only_matching_column() {
    let rows = vec![
        column_row("a", "integer", "NO", None),
        column_row("b", "integer", "NO", None),
    ];
    let t = assemble_table(vec![], &rows, &vec![], &vec![]).unwrap();
    let mut cols: Vec<Column> = t.columns;
    let fks = vec![fk_row("b", "others", "id", None, None)];
    attach_foreign_keys(&mut cols, &fks);
    assert!(cols[0].references.is_none());
    let r = cols[1].references.as_ref().unwrap();
    assert_eq!(r.table, "others");
}

#[test]
fn index_rows_parsed_and_appended() {
    let idx = vec![
        IndexRow { name: "i1".to_string(), columns: "a, b".to_string(), unique: false },
        IndexRow { name: "i2".to_string(), columns: "missing".to_string(), unique: true },
    ];
    let t = assemble_table(vec![], &vec![], &vec![], &idx).unwrap();
    assert_eq!(t.indexes.len(), 2);
    assert_eq!(t.indexes[0].name, "i1");
    assert_eq!(t.indexes[0].columns, vec!["a".to_string(), "b".to_string()]);
    assert!(!t.indexes[0].unique);
    assert_eq!(t.indexes[1].name, "i2");
    assert_eq!(t.indexes[1].columns, vec!["missing".to_string()]);
    assert!(t.indexes[1].unique);
}

#[test]
fn end_to_end_users_table() {
    let pk = vec!["id".to_string()];
    let rows = vec![
        column_row("id", "integer", "NO", None),
        column_row("email", "text", "YES", None),
        column_row("org_id", "integer", "NO", None),
    ];
    let fks = vec![fk_row("org_id", "orgs", "id", Some("CASCADE"), None)];
    let idx = vec![IndexRow {
        name: "users_email_idx".to_string(),
        columns: "email".to_string(),
        unique: true,
    }];
    let t: Table = assemble_table(pk, &rows, &fks, &idx).unwrap();

    assert_eq!(t.pk, vec!["id".to_string()]);
    assert_eq!(t.columns.len(), 3);
    assert!(!t.columns[0].nullable);
    assert!(t.columns[1].nullable);
    let org = t.columns.iter().find(|c| c.name == "org_id").unwrap();
    let r = org.references.as_ref().unwrap();
    assert_eq!(r.table, "orgs");
    assert_eq!(r.column, "id");
    assert_eq!(r.on_delete.as_deref(), Some("CASCADE"));
    assert!(r.on_update.is_none());
    assert_eq!(t.indexes.len(), 1);
    assert_eq!(t.indexes[0].name, "users_email_idx");
    assert_eq!(t.indexes[0].columns, vec!["email".to_string()]);
    assert!(t.indexes[0].unique);
}

#[test]
fn schema_insert_replaces_same_name_in_place() {
    let mut s = Schema::new();
    assert_eq!(s.version, 1);
    assert!(s.tables.is_empty());

    let t1 = assemble_table(vec![], &vec![column_row("a", "text", "NO", None)], &vec![], &vec![])
        .unwrap();
    let t2 = assemble_table(vec![], &vec![column_row("b", "text", "NO", None)], &vec![], &vec![])
        .unwrap();
    let t3 = assemble_table(vec![], &vec![column_row("c", "text", "NO", None)], &vec![], &vec![])
        .unwrap();

    s.insert_table("users".to_string(), t1);
    s.insert_table("orgs".to_string(), t2);
    assert_eq!(s.tables.len(), 2);
    assert!(s.has_table(&"users".to_string()));
    assert!(!s.has_table(&"absent".to_string()));

    s.insert_table("users".to_string(), t3);
    assert_eq!(s.tables.len(), 2);
    assert_eq!(s.tables[0].name, "users");
    assert_eq!(s.tables[0].table.columns[0].name, "c");
    assert_eq!(s.tables[1].name, "orgs");
}
