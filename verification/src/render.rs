//! The schema serializer: a deterministic, versioned TOML rendering of the
//! model. The text is a pure function of the schema value — the spec
//! functions here define it character by character, and the executable
//! renderer is proved to produce exactly that text.

use vstd::prelude::*;
use vstd::string::StrSliceExecFns;
use vstd::string::StringExecFns;
use crate::model::{
    Column, ColumnV, ForeignKey, ForeignKeyV, IndexV, Schema, SchemaV, TableEntry, TableEntryV,
    TableV, opt_str_view, strs_of,
};
use crate::queries::{is_identifier, is_valid_identifier};
use crate::text::push_char;

verus! {

/// The hexadecimal digit for a value below sixteen.
pub open spec fn nib_char(n: int) -> char {
    if n == 0 {
        '0'
    } else if n == 1 {
        '1'
    } else if n == 2 {
        '2'
    } else if n == 3 {
        '3'
    } else if n == 4 {
        '4'
    } else if n == 5 {
        '5'
    } else if n == 6 {
        '6'
    } else if n == 7 {
        '7'
    } else if n == 8 {
        '8'
    } else if n == 9 {
        '9'
    } else if n == 10 {
        'a'
    } else if n == 11 {
        'b'
    } else if n == 12 {
        'c'
    } else if n == 13 {
        'd'
    } else if n == 14 {
        'e'
    } else {
        'f'
    }
}

/// The decimal rendering of a nonnegative integer, most significant digit
/// first, without leading zeros.
pub open spec fn dec_digits(n: int) -> Seq<char>
    decreases n,
{
    if n < 10 {
        seq![nib_char(n)]
    } else {
        dec_digits(n / 10) + seq![nib_char(n % 10)]
    }
}

/// The TOML basic-string escape of one character: quote, backslash and the
/// named control characters by a backslash pair, other control characters in
/// `\u00XX` form, everything else itself.
pub open spec fn escape_char(c: char) -> Seq<char> {
    if c == '"' {
        ("\\\"")@
    } else if c == '\\' {
        ("\\\\")@
    } else if c == '\n' {
        ("\\n")@
    } else if c == '\t' {
        ("\\t")@
    } else if c == '\r' {
        ("\\r")@
    } else if (c as u32) < 32 {
        ("\\u00")@ + seq![nib_char((c as u32) as int / 16), nib_char((c as u32) as int % 16)]
    } else {
        seq![c]
    }
}

/// The TOML basic-string escape of a whole string.
pub open spec fn escape_str(s: Seq<char>) -> Seq<char>
    decreases s.len(),
{
    if s.len() == 0 {
        Seq::<char>::empty()
    } else {
        escape_str(s.drop_last()) + escape_char(s.last())
    }
}

/// A TOML basic string: the escaped text between double quotes.
pub open spec fn quoted(s: Seq<char>) -> Seq<char> {
    ("\"")@ + escape_str(s) + ("\"")@
}

/// The comma-separated quoted items of a TOML array.
pub open spec fn quoted_items(xs: Seq<Seq<char>>) -> Seq<char>
    decreases xs.len(),
{
    if xs.len() == 0 {
        Seq::<char>::empty()
    } else if xs.len() == 1 {
        quoted(xs[0])
    } else {
        quoted_items(xs.drop_last()) + (", ")@ + quoted(xs.last())
    }
}

/// A TOML array of strings.
pub open spec fn quoted_list(xs: Seq<Seq<char>>) -> Seq<char> {
    ("[")@ + quoted_items(xs) + ("]")@
}

/// A TOML boolean.
pub open spec fn bool_text(b: bool) -> Seq<char> {
    if b {
        ("true")@
    } else {
        ("false")@
    }
}

/// A `key = "value"` line for a present optional string; absent values
/// render nothing.
pub open spec fn opt_line(key: Seq<char>, v: Option<Seq<char>>) -> Seq<char> {
    match v {
        Option::Some(s) => key + (" = ")@ + quoted(s) + ("\n")@,
        Option::None => Seq::<char>::empty(),
    }
}

/// A table name as a TOML key: bare when it passes the identifier
/// allow-list, quoted otherwise.
pub open spec fn key_part(s: Seq<char>) -> Seq<char> {
    if is_identifier(s) {
        s
    } else {
        quoted(s)
    }
}

/// The `references` sub-table of a column.
pub open spec fn render_fk(tname: Seq<char>, f: ForeignKeyV) -> Seq<char> {
    ("\n[tables.")@ + key_part(tname) + (".columns.references]\n")@ + ("table = ")@ + quoted(
        f.table,
    ) + ("\n")@ + ("column = ")@ + quoted(f.column) + ("\n")@ + opt_line(
        ("on_delete")@,
        f.on_delete,
    ) + opt_line(("on_update")@, f.on_update)
}

/// One element of a table's column list.
pub open spec fn render_column(tname: Seq<char>, c: ColumnV) -> Seq<char> {
    ("\n[[tables.")@ + key_part(tname) + (".columns]]\n")@ + ("name = ")@ + quoted(c.name) + (
    "\n")@ + ("type = ")@ + quoted(c.col_type) + ("\n")@ + ("nullable = ")@ + bool_text(
        c.nullable,
    ) + ("\n")@ + opt_line(("default")@, c.default) + opt_line(("check")@, c.check) + (
    match c.references {
        Option::Some(f) => render_fk(tname, f),
        Option::None => Seq::<char>::empty(),
    })
}

/// One element of a table's index list.
pub open spec fn render_index(tname: Seq<char>, ix: IndexV) -> Seq<char> {
    ("\n[[tables.")@ + key_part(tname) + (".indexes]]\n")@ + ("name = ")@ + quoted(ix.name) + (
    "\n")@ + ("columns = ")@ + quoted_list(ix.columns) + ("\n")@ + ("unique = ")@ + bool_text(
        ix.unique,
    ) + ("\n")@
}

/// All columns of a table, in order.
pub open spec fn render_columns(tname: Seq<char>, cols: Seq<ColumnV>) -> Seq<char>
    decreases cols.len(),
{
    if cols.len() == 0 {
        Seq::<char>::empty()
    } else {
        render_columns(tname, cols.drop_last()) + render_column(tname, cols.last())
    }
}

/// All indexes of a table, in order.
pub open spec fn render_indexes(tname: Seq<char>, idxs: Seq<IndexV>) -> Seq<char>
    decreases idxs.len(),
{
    if idxs.len() == 0 {
        Seq::<char>::empty()
    } else {
        render_indexes(tname, idxs.drop_last()) + render_index(tname, idxs.last())
    }
}

/// One named table: its header, primary key, columns and indexes.
pub open spec fn render_table(name: Seq<char>, t: TableV) -> Seq<char> {
    ("\n[tables.")@ + key_part(name) + ("]\n")@ + ("pk = ")@ + quoted_list(t.pk) + ("\n")@
        + render_columns(name, t.columns) + render_indexes(name, t.indexes)
}

/// All tables of a schema, in entry order.
pub open spec fn render_tables(ts: Seq<TableEntryV>) -> Seq<char>
    decreases ts.len(),
{
    if ts.len() == 0 {
        Seq::<char>::empty()
    } else {
        render_tables(ts.drop_last()) + render_table(ts.last().name, ts.last().table)
    }
}

/// The whole document: the version line, then the tables, or an empty
/// tables block when there is none.
pub open spec fn render_schema(s: SchemaV) -> Seq<char> {
    ("version = ")@ + dec_digits(s.version as int) + ("\n")@ + (if s.tables.len() == 0 {
        ("\n[tables]\n")@
    } else {
        render_tables(s.tables)
    })
}

fn nib_exec(d: u32) -> (c: char)
    requires
        d < 16,
    ensures
        c == nib_char(d as int),
{
    if d == 0 {
        '0'
    } else if d == 1 {
        '1'
    } else if d == 2 {
        '2'
    } else if d == 3 {
        '3'
    } else if d == 4 {
        '4'
    } else if d == 5 {
        '5'
    } else if d == 6 {
        '6'
    } else if d == 7 {
        '7'
    } else if d == 8 {
        '8'
    } else if d == 9 {
        '9'
    } else if d == 10 {
        'a'
    } else if d == 11 {
        'b'
    } else if d == 12 {
        'c'
    } else if d == 13 {
        'd'
    } else if d == 14 {
        'e'
    } else {
        'f'
    }
}

fn append_dec(out: &mut String, n: u32)
    ensures
        final(out)@ == old(out)@ + dec_digits(n as int),
    decreases n,
{
    if n < 10 {
        push_char(out, nib_exec(n));
    } else {
        append_dec(out, n / 10);
        push_char(out, nib_exec(n % 10));
        proof {
            assert(out@ =~= old(out)@ + dec_digits(n as int));
        }
    }
}

fn append_escaped(out: &mut String, s: &str)
    ensures
        final(out)@ == old(out)@ + escape_str(s@),
{
    let n = s.unicode_len();
    let mut i: usize = 0;
    proof {
        assert(s@.take(0) =~= Seq::<char>::empty());
        assert(out@ =~= old(out)@ + escape_str(s@.take(0)));
    }
    while i < n
        invariant
            0 <= i <= n,
            n == s@.len(),
            out@ == old(out)@ + escape_str(s@.take(i as int)),
        decreases n - i,
    {
        let c = s.get_char(i);
        proof {
            assert(s@.take(i as int + 1).drop_last() =~= s@.take(i as int));
            assert(s@.take(i as int + 1).last() == s@[i as int]);
        }
        if c == '"' {
            out.append("\\\"");
        } else if c == '\\' {
            out.append("\\\\");
        } else if c == '\n' {
            out.append("\\n");
        } else if c == '\t' {
            out.append("\\t");
        } else if c == '\r' {
            out.append("\\r");
        } else if (c as u32) < 32 {
            out.append("\\u00");
            push_char(out, nib_exec((c as u32) / 16));
            push_char(out, nib_exec((c as u32) % 16));
        } else {
            push_char(out, c);
        }
        proof {
            assert(out@ =~= old(out)@ + escape_str(s@.take(i as int + 1)));
        }
        i += 1;
    }
    proof {
        assert(s@.take(n as int) =~= s@);
    }
}

fn append_quoted(out: &mut String, s: &str)
    ensures
        final(out)@ == old(out)@ + quoted(s@),
{
    out.append("\"");
    append_escaped(out, s);
    out.append("\"");
    proof {
        assert(out@ =~= old(out)@ + quoted(s@));
    }
}

fn append_quoted_list(out: &mut String, xs: &Vec<String>)
    ensures
        final(out)@ == old(out)@ + quoted_list(strs_of(xs@)),
{
    let ghost q = strs_of(xs@);
    out.append("[");
    let n = xs.len();
    let mut i: usize = 0;
    proof {
        assert(q.take(0) =~= Seq::<Seq<char>>::empty());
        assert(out@ =~= old(out)@ + ("[")@ + quoted_items(q.take(0)));
    }
    while i < n
        invariant
            0 <= i <= n,
            n == xs@.len(),
            q == strs_of(xs@),
            out@ == old(out)@ + ("[")@ + quoted_items(q.take(i as int)),
        decreases n - i,
    {
        if i > 0 {
            out.append(", ");
        }
        append_quoted(out, xs[i].as_str());
        proof {
            assert(q.take(i as int + 1).drop_last() =~= q.take(i as int));
            assert(q.take(i as int + 1).last() == xs@[i as int]@);
            assert(out@ =~= old(out)@ + ("[")@ + quoted_items(q.take(i as int + 1)));
        }
        i += 1;
    }
    out.append("]");
    proof {
        assert(q.take(n as int) =~= q);
        assert(out@ =~= old(out)@ + quoted_list(q));
    }
}

fn append_opt_line(out: &mut String, key: &str, v: &Option<String>)
    ensures
        final(out)@ == old(out)@ + opt_line(key@, opt_str_view(*v)),
{
    match v {
        Option::Some(s) => {
            out.append(key);
            out.append(" = ");
            append_quoted(out, s.as_str());
            out.append("\n");
            proof {
                assert(out@ =~= old(out)@ + opt_line(key@, opt_str_view(*v)));
            }
        },
        Option::None => {
            proof {
                assert(out@ =~= old(out)@ + opt_line(key@, opt_str_view(*v)));
            }
        },
    }
}

fn append_key(out: &mut String, name: &str)
    ensures
        final(out)@ == old(out)@ + key_part(name@),
{
    if is_valid_identifier(name) {
        out.append(name);
    } else {
        append_quoted(out, name);
    }
}

fn append_fk(out: &mut String, tname: &str, f: &ForeignKey)
    ensures
        final(out)@ == old(out)@ + render_fk(tname@, f@),
{
    out.append("\n[tables.");
    append_key(out, tname);
    out.append(".columns.references]\n");
    out.append("table = ");
    append_quoted(out, f.table.as_str());
    out.append("\n");
    out.append("column = ");
    append_quoted(out, f.column.as_str());
    out.append("\n");
    append_opt_line(out, "on_delete", &f.on_delete);
    append_opt_line(out, "on_update", &f.on_update);
    proof {
        assert(out@ =~= old(out)@ + render_fk(tname@, f@));
    }
}

/// Concatenation of character sequences is associative.
proof fn lemma_concat_assoc(a: Seq<char>, b: Seq<char>, c: Seq<char>)
    ensures
        a + b + c == a + (b + c),
{
    assert(a + b + c =~= a + (b + c));
}

fn append_column(out: &mut String, tname: &str, c: &Column)
    ensures
        final(out)@ == old(out)@ + render_column(tname@, c@),
{
    out.append("\n[[tables.");
    let ghost mut acc = ("\n[[tables.")@;
    append_key(out, tname);
    proof {
        lemma_concat_assoc(old(out)@, acc, key_part(tname@));
        acc = acc + key_part(tname@);
    }
    out.append(".columns]]\n");
    proof {
        lemma_concat_assoc(old(out)@, acc, (".columns]]\n")@);
        acc = acc + (".columns]]\n")@;
    }
    out.append("name = ");
    proof {
        lemma_concat_assoc(old(out)@, acc, ("name = ")@);
        acc = acc + ("name = ")@;
    }
    append_quoted(out, c.name.as_str());
    proof {
        lemma_concat_assoc(old(out)@, acc, quoted(c@.name));
        acc = acc + quoted(c@.name);
    }
    out.append("\n");
    proof {
        lemma_concat_assoc(old(out)@, acc, ("\n")@);
        acc = acc + ("\n")@;
    }
    out.append("type = ");
    proof {
        lemma_concat_assoc(old(out)@, acc, ("type = ")@);
        acc = acc + ("type = ")@;
    }
    append_quoted(out, c.col_type.as_str());
    proof {
        lemma_concat_assoc(old(out)@, acc, quoted(c@.col_type));
        acc = acc + quoted(c@.col_type);
    }
    out.append("\n");
    proof {
        lemma_concat_assoc(old(out)@, acc, ("\n")@);
        acc = acc + ("\n")@;
    }
    out.append("nullable = ");
    proof {
        lemma_concat_assoc(old(out)@, acc, ("nullable = ")@);
        acc = acc + ("nullable = ")@;
    }
    if c.nullable {
        out.append("true");
    } else {
        out.append("false");
    }
    proof {
        assert(out@ == old(out)@ + acc + bool_text(c@.nullable));
        lemma_concat_assoc(old(out)@, acc, bool_text(c@.nullable));
        acc = acc + bool_text(c@.nullable);
    }
    out.append("\n");
    proof {
        lemma_concat_assoc(old(out)@, acc, ("\n")@);
        acc = acc + ("\n")@;
    }
    append_opt_line(out, "default", &c.default);
    proof {
        lemma_concat_assoc(old(out)@, acc, opt_line(("default")@, c@.default));
        acc = acc + opt_line(("default")@, c@.default);
    }
    append_opt_line(out, "check", &c.check);
    proof {
        lemma_concat_assoc(old(out)@, acc, opt_line(("check")@, c@.check));
        acc = acc + opt_line(("check")@, c@.check);
    }
    match &c.references {
        Option::Some(f) => {
            append_fk(out, tname, f);
        },
        Option::None => {},
    }
    proof {
        let refs_part = (match c@.references {
            Option::Some(g) => render_fk(tname@, g),
            Option::None => Seq::<char>::empty(),
        });
        if c@.references is None {
            assert(acc + refs_part =~= acc);
        }
        assert(out@ == old(out)@ + acc + refs_part);
        lemma_concat_assoc(old(out)@, acc, refs_part);
        acc = acc + refs_part;
        assert(acc == render_column(tname@, c@));
        assert(out@ == old(out)@ + render_column(tname@, c@));
    }
}

fn append_index(out: &mut String, tname: &str, ix: &crate::model::Index)
    ensures
        final(out)@ == old(out)@ + render_index(tname@, ix@),
{
    out.append("\n[[tables.");
    append_key(out, tname);
    out.append(".indexes]]\n");
    out.append("name = ");
    append_quoted(out, ix.name.as_str());
    out.append("\n");
    out.append("columns = ");
    append_quoted_list(out, &ix.columns);
    out.append("\n");
    out.append("unique = ");
    if ix.unique {
        out.append("true");
    } else {
        out.append("false");
    }
    out.append("\n");
    proof {
        assert(out@ =~= old(out)@ + render_index(tname@, ix@));
    }
}

fn append_table(out: &mut String, e: &TableEntry)
    ensures
        final(out)@ == old(out)@ + render_table(e@.name, e@.table),
{
    let tname = e.name.as_str();
    out.append("\n[tables.");
    append_key(out, tname);
    out.append("]\n");
    out.append("pk = ");
    append_quoted_list(out, &e.table.pk);
    out.append("\n");
    let ghost head = out@;
    let ghost colsv = e@.table.columns;
    let n = e.table.columns.len();
    let mut i: usize = 0;
    proof {
        assert(colsv.take(0) =~= Seq::<ColumnV>::empty());
        assert(out@ =~= head + render_columns(e@.name, colsv.take(0)));
    }
    while i < n
        invariant
            0 <= i <= n,
            n == e.table.columns@.len(),
            colsv == e@.table.columns,
            tname@ == e@.name,
            out@ == head + render_columns(e@.name, colsv.take(i as int)),
        decreases n - i,
    {
        append_column(out, tname, &e.table.columns[i]);
        proof {
            assert(colsv.take(i as int + 1).drop_last() =~= colsv.take(i as int));
            assert(colsv.take(i as int + 1).last() == e.table.columns@[i as int]@);
            assert(out@ =~= head + render_columns(e@.name, colsv.take(i as int + 1)));
        }
        i += 1;
    }
    proof {
        assert(colsv.take(n as int) =~= colsv);
    }
    let ghost head2 = out@;
    let ghost idxsv = e@.table.indexes;
    let m = e.table.indexes.len();
    let mut j: usize = 0;
    proof {
        assert(idxsv.take(0) =~= Seq::<IndexV>::empty());
        assert(out@ =~= head2 + render_indexes(e@.name, idxsv.take(0)));
    }
    while j < m
        invariant
            0 <= j <= m,
            m == e.table.indexes@.len(),
            idxsv == e@.table.indexes,
            tname@ == e@.name,
            out@ == head2 + render_indexes(e@.name, idxsv.take(j as int)),
        decreases m - j,
    {
        append_index(out, tname, &e.table.indexes[j]);
        proof {
            assert(idxsv.take(j as int + 1).drop_last() =~= idxsv.take(j as int));
            assert(idxsv.take(j as int + 1).last() == e.table.indexes@[j as int]@);
            assert(out@ =~= head2 + render_indexes(e@.name, idxsv.take(j as int + 1)));
        }
        j += 1;
    }
    proof {
        assert(idxsv.take(m as int) =~= idxsv);
        assert(out@ =~= old(out)@ + render_table(e@.name, e@.table));
    }
}

/// Serialize a schema as its deterministic TOML document: the text is
/// exactly `render_schema` of the schema's value, so equal schema values
/// always yield byte-identical output.
pub fn serialize(schema: &Schema) -> (r: String)
    ensures
        r@ == render_schema(schema@),
{
    let mut out = String::new();
    out.append("version = ");
    append_dec(&mut out, schema.version);
    out.append("\n");
    if schema.tables.len() == 0 {
        out.append("\n[tables]\n");
        proof {
            assert(out@ =~= render_schema(schema@));
        }
        return out;
    }
    let ghost head = out@;
    let ghost tsv = schema@.tables;
    let n = schema.tables.len();
    let mut i: usize = 0;
    proof {
        assert(tsv.take(0) =~= Seq::<TableEntryV>::empty());
        assert(out@ =~= head + render_tables(tsv.take(0)));
    }
    while i < n
        invariant
            0 <= i <= n,
            n == schema.tables@.len(),
            tsv == schema@.tables,
            out@ == head + render_tables(tsv.take(i as int)),
        decreases n - i,
    {
        append_table(&mut out, &schema.tables[i]);
        proof {
            assert(tsv.take(i as int + 1).drop_last() =~= tsv.take(i as int));
            assert(tsv.take(i as int + 1).last() == schema.tables@[i as int]@);
            assert(out@ =~= head + render_tables(tsv.take(i as int + 1)));
        }
        i += 1;
    }
    proof {
        assert(tsv.take(n as int) =~= tsv);
        assert(out@ =~= render_schema(schema@));
    }
    out
}

/// Determinism: the rendered document is a function of the schema value
/// alone, so equal schema values serialize to byte-identical text.
pub proof fn lemma_serialize_deterministic(a: SchemaV, b: SchemaV)
    requires
        a == b,
    ensures
        render_schema(a) == render_schema(b),
{
}

} // verus!
