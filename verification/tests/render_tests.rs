use schema_reflect::assemble::{assemble_table, ColumnRow, ForeignKeyRow, IndexRow};
use schema_reflect::render::serialize;
use schema_reflect::Schema;

fn users_schema() -> Schema {
    let pk = vec!["id".to_string()];
    let rows = vec![
        ColumnRow {
            name: "id".to_string(),
            data_type: "integer".to_string(),
            is_nullable: "NO".to_string(),
            default: None,
        },
        ColumnRow {
            name: "email".to_string(),
            data_type: "text".to_string(),
            is_nullable: "YES".to_string(),
            default: None,
        },
        ColumnRow {
            name: "org_id".to_string(),
            data_type: "integer".to_string(),
            is_nullable: "NO".to_string(),
            default: None,
        },
    ];
    let fks = vec![ForeignKeyRow {
        column: "org_id".to_string(),
        foreign_table: "orgs".to_string(),
        foreign_column: "id".to_string(),
        on_delete: Some("CASCADE".to_string()),
        on_update: None,
    }];
    let idx = vec![IndexRow {
        name: "users_email_idx".to_string(),
        columns: "email".to_string(),
        unique: true,
    }];
    let t = assemble_table(pk, &rows, &fks, &idx).unwrap();
    let mut s = Schema::new();
    s.insert_table("users".to_string(), t);
    s
}

#[test]
fn empty_schema_serializes_to_empty_tables_block() {
    let s = Schema::new();
    assert_eq!(s.version, 1);
    assert!(s.tables.is_empty());
    let text = serialize(&s);
    assert_eq!(text, "version = 1\n\n[tables]\n");
}

#[test]
fn serialization_is_deterministic() {
    let s = users_schema();
    let a = serialize(&s);
    let b = serialize(&s);
    assert_eq!(a, b);
    let again = users_schema();
    let c = serialize(&again);
    assert_eq!(a, c);
}

#[test]
fn users_schema_exact_text() {
    let s = users_schema();
    let text = serialize(&s);
    let expected = "version = 1\n\
                    \n\
                    [tables.users]\n\
                    pk = [\"id\"]\n\
                    \n\
                    [[tables.users.columns]]\n\
                    name = \"id\"\n\
                    type = \"integer\"\n\
                    nullable = false\n\
                    \n\
                    [[tables.users.columns]]\n\
                    name = \"email\"\n\
                    type = \"text\"\n\
                    nullable = true\n\
                    \n\
                    [[tables.users.columns]]\n\
                    name = \"org_id\"\n\
                    type = \"integer\"\n\
                    nullable = false\n\
                    \n\
                    [tables.users.columns.references]\n\
                    table = \"orgs\"\n\
                    column = \"id\"\n\
                    on_delete = \"CASCADE\"\n\
                    \n\
                    [[tables.users.indexes]]\n\
                    name = \"users_email_idx\"\n\
                    columns = [\"email\"]\n\
                    unique = true\n";
    assert_eq!(text, expected);
}

#[test]
fn multi_digit_version_renders_in_decimal() {
    let s = Schema { version: 1204, tables: Vec::new() };
    let text = serialize(&s);
    assert_eq!(text, "version = 1204\n\n[tables]\n");
}

#[test]
fn strings_are_escaped() {
    let rows = vec![ColumnRow {
        name: "note".to_string(),
        data_type: "character \"varying\"".to_string(),
        is_nullable: "NO".to_string(),
        default: Some("a\\b\nc".to_string()),
    }];
    let t = assemble_table(vec![], &rows, &vec![], &vec![]).unwrap();
    let mut s = Schema::new();
    s.insert_table("t".to_string(), t);
    let text = serialize(&s);
    assert!(text.contains("type = \"character \\\"varying\\\"\""));
    assert!(text.contains("default = \"a\\\\b\\nc\""));
}

#[test]
fn non_identifier_table_name_is_quoted_key() {
    let t = assemble_table(vec![], &vec![], &vec![], &vec![]).unwrap();
    let mut s = Schema::new();
    s.insert_table("weird name".to_string(), t);
    let text = serialize(&s);
    assert!(text.contains("[tables.\"weird name\"]"));
}

#[test]
fn output_parses_as_toml_with_expected_structure() {
    let s = users_schema();
    let text = serialize(&s);
    let v: toml::Value = toml::from_str(&text).unwrap();
    assert_eq!(v.get("version").unwrap().as_integer(), Some(1));
    let users = v.get("tables").unwrap().get("users").unwrap();
    let pk = users.get("pk").unwrap().as_array().unwrap();
    assert_eq!(pk.len(), 1);
    assert_eq!(pk[0].as_str(), Some("id"));
    let cols = users.get("columns").unwrap().as_array().unwrap();
    assert_eq!(cols.len(), 3);
    assert_eq!(cols[1].get("name").unwrap().as_str(), Some("email"));
    assert_eq!(cols[1].get("nullable").unwrap().as_bool(), Some(true));
    let refs = cols[2].get("references").unwrap();
    assert_eq!(refs.get("table").unwrap().as_str(), Some("orgs"));
    assert_eq!(refs.get("on_delete").unwrap().as_str(), Some("CASCADE"));
    let idx = users.get("indexes").unwrap().as_array().unwrap();
    assert_eq!(idx[0].get("unique").unwrap().as_bool(), Some(true));
}

#[test]
fn empty_schema_output_parses_as_toml() {
    let text = serialize(&Schema::new());
    let v: toml::Value = toml::from_str(&text).unwrap();
    assert_eq!(v.get("version").unwrap().as_integer(), Some(1));
    let tables = v.get("tables").unwrap().as_table().unwrap();
    assert!(tables.is_empty());
}
