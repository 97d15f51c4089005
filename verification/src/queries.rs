//! The catalog queries. Three are fixed texts; two interpolate the table
//! name into the text because the catalog functions they use do not take
//! bound parameters for identifiers. Interpolation is gated on a strict
//! identifier allow-list, isolated here, so that an attacker-influenced name
//! can never alter the query's structure.

use vstd::prelude::*;
use vstd::string::StrSliceExecFns;
use vstd::string::StringExecFns;

verus! {

/// Lists the base tables (not views) of the public namespace.
pub const LIST_TABLES_SQL: &'static str = "SELECT table_name\nFROM information_schema.tables\nWHERE table_schema = 'public'\n  AND table_type = 'BASE TABLE';";

/// Lists the columns of the table bound as `$1`: name, data type,
/// nullability and default expression, in declaration order.
pub const COLUMNS_SQL: &'static str = "SELECT column_name, data_type, is_nullable, column_default\nFROM information_schema.columns\nWHERE table_schema = 'public'\n  AND table_name = $1;";

/// Lists the foreign-key rows of the table bound as `$1`: one row per
/// (local column, referenced table, referenced column) triple.
pub const FOREIGN_KEYS_SQL: &'static str = "SELECT\n    kcu.column_name,\n    ccu.table_name AS foreign_table,\n    ccu.column_name AS foreign_column,\n    rc.update_rule AS on_update,\n    rc.delete_rule AS on_delete\nFROM information_schema.table_constraints AS tc\nJOIN information_schema.key_column_usage AS kcu\n  ON tc.constraint_name = kcu.constraint_name\n AND tc.table_schema = kcu.table_schema\nJOIN information_schema.referential_constraints AS rc\n  ON rc.constraint_name = tc.constraint_name\nJOIN information_schema.constraint_column_usage AS ccu\n  ON ccu.constraint_name = tc.constraint_name\n AND ccu.table_schema = tc.table_schema\nWHERE tc.constraint_type = 'FOREIGN KEY'\n  AND tc.table_name = $1;";

/// Text standing before the table name in the primary-key query.
pub const PK_SQL_PREFIX: &'static str = "SELECT a.attname\nFROM pg_index i\nJOIN pg_attribute a\n  ON a.attrelid = i.indrelid\n AND a.attnum = ANY(i.indkey)\nJOIN pg_class c\n  ON c.oid = i.indrelid\nWHERE c.relname = '";

/// Text standing after the table name in the primary-key query.
pub const PK_SQL_SUFFIX: &'static str = "'\n  AND i.indisprimary;";

/// Text standing before the table name in the index query.
pub const INDEXES_SQL_PREFIX: &'static str = "SELECT\n    i.relname AS index_name,\n    array_to_string(array_agg(a.attname), ',') AS columns,\n    ix.indisunique AS is_unique\nFROM pg_class t\nJOIN pg_index ix ON t.oid = ix.indrelid\nJOIN pg_class i ON i.oid = ix.indexrelid\nJOIN pg_attribute a ON a.attrelid = t.oid AND a.attnum = ANY(ix.indkey)\nWHERE t.relname = '";

/// Text standing after the table name in the index query.
pub const INDEXES_SQL_SUFFIX: &'static str = "'\n  AND NOT ix.indisprimary\nGROUP BY i.relname, ix.indisunique;";

/// A character the identifier allow-list admits anywhere: an ASCII letter,
/// a digit or an underscore.
pub open spec fn is_ident_char(c: char) -> bool {
    ('a' <= c && c <= 'z') || ('A' <= c && c <= 'Z') || ('0' <= c && c <= '9') || c == '_'
}

/// A character the identifier allow-list admits first: an ASCII letter or
/// an underscore.
pub open spec fn is_ident_start(c: char) -> bool {
    ('a' <= c && c <= 'z') || ('A' <= c && c <= 'Z') || c == '_'
}

/// The identifier allow-list: nonempty, starting with a letter or an
/// underscore, every character a letter, digit or underscore. Such a name
/// can be interpolated into a query without altering its structure.
pub open spec fn is_identifier(s: Seq<char>) -> bool {
    &&& s.len() > 0
    &&& is_ident_start(s[0])
    &&& forall|i: int| 0 <= i < s.len() ==> is_ident_char(#[trigger] s[i])
}

fn is_ident_char_exec(c: char) -> (r: bool)
    ensures
        r == is_ident_char(c),
{
    ('a' <= c && c <= 'z') || ('A' <= c && c <= 'Z') || ('0' <= c && c <= '9') || c == '_'
}

fn is_ident_start_exec(c: char) -> (r: bool)
    ensures
        r == is_ident_start(c),
{
    ('a' <= c && c <= 'z') || ('A' <= c && c <= 'Z') || c == '_'
}

/// Whether a name passes the identifier allow-list.
pub fn is_valid_identifier(s: &str) -> (r: bool)
    ensures
        r == is_identifier(s@),
{
    let n = s.unicode_len();
    if n == 0 {
        return false;
    }
    if !is_ident_start_exec(s.get_char(0)) {
        return false;
    }
    let mut i: usize = 0;
    while i < n
        invariant
            0 <= i <= n,
            n == s@.len(),
            forall|k: int| 0 <= k < i ==> is_ident_char(#[trigger] s@[k]),
        decreases n - i,
    {
        if !is_ident_char_exec(s.get_char(i)) {
            return false;
        }
        i += 1;
    }
    true
}

/// The primary-key query for a table, or `None` when the name fails the
/// identifier allow-list and must not be interpolated.
pub fn primary_key_query(table: &str) -> (r: Option<String>)
    ensures
        is_identifier(table@) ==> (r matches Some(q) && q@ == PK_SQL_PREFIX@ + table@
            + PK_SQL_SUFFIX@),
        !is_identifier(table@) ==> r is None,
{
    if !is_valid_identifier(table) {
        return None;
    }
    let mut q = PK_SQL_PREFIX.to_owned();
    q.append(table);
    q.append(PK_SQL_SUFFIX);
    Some(q)
}

/// The index query for a table, or `None` when the name fails the
/// identifier allow-list and must not be interpolated.
pub fn indexes_query(table: &str) -> (r: Option<String>)
    ensures
        is_identifier(table@) ==> (r matches Some(q) && q@ == INDEXES_SQL_PREFIX@ + table@
            + INDEXES_SQL_SUFFIX@),
        !is_identifier(table@) ==> r is None,
{
    if !is_valid_identifier(table) {
        return None;
    }
    let mut q = INDEXES_SQL_PREFIX.to_owned();
    q.append(table);
    q.append(INDEXES_SQL_SUFFIX);
    Some(q)
}

} // verus!
