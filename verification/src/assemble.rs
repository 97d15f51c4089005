//! The schema assembler: folds the raw per-table catalog rows into the
//! normalized model. Columns keep catalog order; each foreign-key row is
//! attached to the column whose name matches its local column, later rows
//! overwriting earlier ones for the same column, and rows whose local column
//! does not exist are dropped; index rows are parsed and appended as-is.

use vstd::prelude::*;
use crate::model::{
    Column, ColumnV, ForeignKey, ForeignKeyV, Index, IndexV, Table, TableV, opt_str_view,
    seq_view, strs_of,
};
use crate::parse::{parse_index_columns, split_trim};

verus! {

/// Mathematical view of a [`ColumnRow`].
pub struct ColumnRowV {
    pub name: Seq<char>,
    pub data_type: Seq<char>,
    pub is_nullable: Seq<char>,
    pub default: Option<Seq<char>>,
}

/// One raw row of the columns query: name, data type, the catalog's
/// `YES`/`NO` nullability marker, and the default expression, if any.
#[derive(Debug)]
pub struct ColumnRow {
    pub name: String,
    pub data_type: String,
    pub is_nullable: String,
    pub default: Option<String>,
}

impl View for ColumnRow {
    type V = ColumnRowV;

    open spec fn view(&self) -> ColumnRowV {
        ColumnRowV {
            name: self.name@,
            data_type: self.data_type@,
            is_nullable: self.is_nullable@,
            default: opt_str_view(self.default),
        }
    }
}

/// Mathematical view of a [`ForeignKeyRow`].
pub struct ForeignKeyRowV {
    pub column: Seq<char>,
    pub foreign_table: Seq<char>,
    pub foreign_column: Seq<char>,
    pub on_delete: Option<Seq<char>>,
    pub on_update: Option<Seq<char>>,
}

/// One raw row of the foreign-keys query: the local column, the referenced
/// table and column, and the delete and update rules.
#[derive(Debug)]
pub struct ForeignKeyRow {
    pub column: String,
    pub foreign_table: String,
    pub foreign_column: String,
    pub on_delete: Option<String>,
    pub on_update: Option<String>,
}

impl View for ForeignKeyRow {
    type V = ForeignKeyRowV;

    open spec fn view(&self) -> ForeignKeyRowV {
        ForeignKeyRowV {
            column: self.column@,
            foreign_table: self.foreign_table@,
            foreign_column: self.foreign_column@,
            on_delete: opt_str_view(self.on_delete),
            on_update: opt_str_view(self.on_update),
        }
    }
}

/// Mathematical view of an [`IndexRow`].
pub struct IndexRowV {
    pub name: Seq<char>,
    pub columns: Seq<char>,
    pub unique: bool,
}

/// One raw row of the index query: the index name, its column names
/// comma-joined in ordinal order, and whether it is unique.
#[derive(Debug)]
pub struct IndexRow {
    pub name: String,
    pub columns: String,
    pub unique: bool,
}

impl View for IndexRow {
    type V = IndexRowV;

    open spec fn view(&self) -> IndexRowV {
        IndexRowV { name: self.name@, columns: self.columns@, unique: self.unique }
    }
}

/// The foreign key a row carries, as attached to the matching column.
pub open spec fn fk_of_row(r: ForeignKeyRowV) -> ForeignKeyV {
    ForeignKeyV {
        table: r.foreign_table,
        column: r.foreign_column,
        on_delete: r.on_delete,
        on_update: r.on_update,
    }
}

/// The foreign key attached to the column of the given name after all rows
/// are processed in order: the last row whose local column equals the name,
/// or `None` when no row matches.
pub open spec fn fk_for(fks: Seq<ForeignKeyRowV>, name: Seq<char>) -> Option<ForeignKeyV>
    decreases fks.len(),
{
    if fks.len() == 0 {
        Option::None
    } else if fks.last().column == name {
        Option::Some(fk_of_row(fks.last()))
    } else {
        fk_for(fks.drop_last(), name)
    }
}

/// The column built from a raw row, with its foreign key resolved against
/// the whole foreign-key row sequence: all strings verbatim, nullability
/// from the catalog's `YES` marker, `check` never populated.
pub open spec fn column_of_row(r: ColumnRowV, fks: Seq<ForeignKeyRowV>) -> ColumnV {
    ColumnV {
        name: r.name,
        col_type: r.data_type,
        nullable: r.is_nullable == "YES"@,
        default: r.default,
        references: fk_for(fks, r.name),
        check: Option::None,
    }
}

/// The index built from a raw row: name and uniqueness verbatim, the
/// comma-joined column list split and trimmed, order preserved.
pub open spec fn index_of_row(r: IndexRowV) -> IndexV {
    IndexV { name: r.name, columns: split_trim(r.columns), unique: r.unique }
}

/// Column names are unique within the rows of one table.
pub open spec fn column_names_distinct(rows: Seq<ColumnRowV>) -> bool {
    forall|i: int, j: int|
        0 <= i < j < rows.len() ==> #[trigger] rows[i].name != #[trigger] rows[j].name
}

/// The table assembled from one table's raw query results.
pub open spec fn table_of_rows(
    pk: Seq<Seq<char>>,
    cols: Seq<ColumnRowV>,
    fks: Seq<ForeignKeyRowV>,
    idxs: Seq<IndexRowV>,
) -> TableV {
    TableV {
        pk: pk,
        columns: cols.map_values(|r: ColumnRowV| column_of_row(r, fks)),
        indexes: idxs.map_values(|r: IndexRowV| index_of_row(r)),
    }
}

/// Round-trip completeness: the assembled table's column names equal, in
/// order, the names of the raw column rows — so in particular the two name
/// sets are equal.
pub proof fn lemma_column_names_round_trip(
    pk: Seq<Seq<char>>,
    cols: Seq<ColumnRowV>,
    fks: Seq<ForeignKeyRowV>,
    idxs: Seq<IndexRowV>,
)
    ensures
        table_of_rows(pk, cols, fks, idxs).columns.map_values(|c: ColumnV| c.name)
            == cols.map_values(|r: ColumnRowV| r.name),
        table_of_rows(pk, cols, fks, idxs).columns.map_values(|c: ColumnV| c.name).to_set()
            == cols.map_values(|r: ColumnRowV| r.name).to_set(),
{
    assert(table_of_rows(pk, cols, fks, idxs).columns.map_values(|c: ColumnV| c.name)
        =~= cols.map_values(|r: ColumnRowV| r.name));
}

/// No row of the sequence has the given local column.
pub proof fn lemma_fk_no_match(fks: Seq<ForeignKeyRowV>, name: Seq<char>)
    requires
        forall|j: int| 0 <= j < fks.len() ==> #[trigger] fks[j].column != name,
    ensures
        fk_for(fks, name) is None,
    decreases fks.len(),
{
    if fks.len() > 0 {
        lemma_fk_no_match(fks.drop_last(), name);
    }
}

/// The last foreign-key row whose local column matches the name is the one
/// that stays attached.
pub proof fn lemma_fk_last_row_wins(fks: Seq<ForeignKeyRowV>, name: Seq<char>, i: int)
    requires
        0 <= i < fks.len(),
        fks[i].column == name,
        forall|j: int| i < j < fks.len() ==> #[trigger] fks[j].column != name,
    ensures
        fk_for(fks, name) == Option::Some(fk_of_row(fks[i])),
    decreases fks.len(),
{
    if i == fks.len() - 1 {
    } else {
        assert(fks.last().column != name);
        assert(fks.drop_last()[i] == fks[i]);
        lemma_fk_last_row_wins(fks.drop_last(), name, i);
    }
}

/// Foreign-key attachment correctness: a column whose name is the local
/// column of some row carries, verbatim, the foreign key of the last such
/// row; one whose name matches no row keeps no foreign key.
pub proof fn lemma_fk_attachment(
    pk: Seq<Seq<char>>,
    cols: Seq<ColumnRowV>,
    fks: Seq<ForeignKeyRowV>,
    idxs: Seq<IndexRowV>,
    ci: int,
    fi: int,
)
    requires
        0 <= ci < cols.len(),
        0 <= fi < fks.len(),
        fks[fi].column == cols[ci].name,
        forall|j: int| fi < j < fks.len() ==> #[trigger] fks[j].column != cols[ci].name,
    ensures
        table_of_rows(pk, cols, fks, idxs).columns[ci].references == Option::Some(
            fk_of_row(fks[fi]),
        ),
{
    lemma_fk_last_row_wins(fks, cols[ci].name, fi);
}

/// Orphaned foreign-key rows are dropped: a column whose name is the local
/// column of no row keeps `references` empty.
pub proof fn lemma_fk_orphan_dropped(
    pk: Seq<Seq<char>>,
    cols: Seq<ColumnRowV>,
    fks: Seq<ForeignKeyRowV>,
    idxs: Seq<IndexRowV>,
    ci: int,
)
    requires
        0 <= ci < cols.len(),
        forall|j: int| 0 <= j < fks.len() ==> #[trigger] fks[j].column != cols[ci].name,
    ensures
        table_of_rows(pk, cols, fks, idxs).columns[ci].references is None,
{
    lemma_fk_no_match(fks, cols[ci].name);
}

fn clone_opt_string(o: &Option<String>) -> (r: Option<String>)
    ensures
        opt_str_view(r) == opt_str_view(*o),
{
    match o {
        Option::Some(s) => Option::Some(s.clone()),
        Option::None => Option::None,
    }
}

/// Whether the rows' column names are pairwise distinct.
pub fn check_columns_distinct(rows: &Vec<ColumnRow>) -> (r: bool)
    ensures
        r == column_names_distinct(seq_view(rows@)),
{
    let n = rows.len();
    let mut i: usize = 0;
    while i < n
        invariant
            0 <= i <= n,
            n == rows@.len(),
            forall|p: int, q: int|
                0 <= p < q < n && p < i ==> #[trigger] rows@[p]@.name != #[trigger] rows@[q]@.name,
        decreases n - i,
    {
        let mut j: usize = i + 1;
        while j < n
            invariant
                0 <= i < j <= n,
                n == rows@.len(),
                forall|p: int, q: int|
                    0 <= p < q < n && p < i ==> #[trigger] rows@[p]@.name != #[trigger] rows@[q]@.name,
                forall|q: int| i < q < j ==> rows@[i as int]@.name != #[trigger] rows@[q]@.name,
            decreases n - j,
        {
            if rows[i].name == rows[j].name {
                proof {
                    assert(seq_view(rows@)[i as int].name == seq_view(rows@)[j as int].name);
                    assert(!column_names_distinct(seq_view(rows@)));
                }
                return false;
            }
            j += 1;
        }
        i += 1;
    }
    proof {
        assert forall|p: int, q: int|
            0 <= p < q < seq_view(rows@).len() implies seq_view(rows@)[p].name != seq_view(
            rows@,
        )[q].name by {
            assert(rows@[p]@.name != rows@[q]@.name);
        }
    }
    true
}

/// Build the column sequence from the raw rows, in catalog order, with no
/// foreign keys attached yet.
fn build_columns(rows: &Vec<ColumnRow>) -> (r: Vec<Column>)
    ensures
        r@.len() == rows@.len(),
        forall|i: int|
            0 <= i < rows@.len() ==> #[trigger] r@[i]@ == column_of_row(
                rows@[i]@,
                Seq::<ForeignKeyRowV>::empty(),
            ),
{
    let n = rows.len();
    let mut out: Vec<Column> = Vec::new();
    let mut i: usize = 0;
    while i < n
        invariant
            0 <= i <= n,
            n == rows@.len(),
            out@.len() == i,
            forall|k: int|
                0 <= k < i ==> #[trigger] out@[k]@ == column_of_row(
                    rows@[k]@,
                    Seq::<ForeignKeyRowV>::empty(),
                ),
        decreases n - i,
    {
        let row = &rows[i];
        let yes: String = "YES".to_owned();
        let c = Column {
            name: row.name.clone(),
            col_type: row.data_type.clone(),
            nullable: row.is_nullable == yes,
            default: clone_opt_string(&row.default),
            references: Option::None,
            check: Option::None,
        };
        proof {
            assert(c@ == column_of_row(rows@[i as int]@, Seq::<ForeignKeyRowV>::empty()));
        }
        out.push(c);
        i += 1;
    }
    out
}

/// The first column of the given name, if any.
fn find_column(cols: &Vec<Column>, name: &String) -> (r: Option<usize>)
    ensures
        r matches Some(i) ==> 0 <= i < cols@.len() && cols@[i as int]@.name == name@,
        r is None ==> forall|k: int| 0 <= k < cols@.len() ==> #[trigger] cols@[k]@.name != name@,
{
    let n = cols.len();
    let mut i: usize = 0;
    while i < n
        invariant
            0 <= i <= n,
            n == cols@.len(),
            forall|k: int| 0 <= k < i ==> #[trigger] cols@[k]@.name != name@,
        decreases n - i,
    {
        if cols[i].name == *name {
            return Some(i);
        }
        i += 1;
    }
    None
}

/// Attach each foreign-key row to the column whose name matches its local
/// column, in row order, later rows overwriting earlier ones; a row whose
/// local column does not exist is dropped. Nothing but the `references`
/// fields changes.
pub fn attach_foreign_keys(cols: &mut Vec<Column>, fks: &Vec<ForeignKeyRow>)
    requires
        forall|i: int, j: int|
            0 <= i < j < old(cols)@.len() ==> #[trigger] old(cols)@[i]@.name != #[trigger] old(
                cols,
            )@[j]@.name,
    ensures
        final(cols)@.len() == old(cols)@.len(),
        forall|i: int|
            0 <= i < old(cols)@.len() ==> #[trigger] final(cols)@[i]@ == (ColumnV {
                references: match fk_for(seq_view(fks@), old(cols)@[i]@.name) {
                    Option::Some(f) => Option::Some(f),
                    Option::None => old(cols)@[i]@.references,
                },
                ..old(cols)@[i]@
            }),
{
    let ghost fkv = seq_view(fks@);
    let n = fks.len();
    let mut f: usize = 0;
    proof {
        assert(fkv.take(0) =~= Seq::<ForeignKeyRowV>::empty());
    }
    while f < n
        invariant
            0 <= f <= n,
            n == fks@.len(),
            fkv == seq_view(fks@),
            cols@.len() == old(cols)@.len(),
            forall|i: int, j: int|
                0 <= i < j < old(cols)@.len() ==> #[trigger] old(cols)@[i]@.name
                    != #[trigger] old(cols)@[j]@.name,
            forall|i: int|
                0 <= i < old(cols)@.len() ==> #[trigger] cols@[i]@ == (ColumnV {
                    references: match fk_for(fkv.take(f as int), old(cols)@[i]@.name) {
                        Option::Some(f) => Option::Some(f),
                        Option::None => old(cols)@[i]@.references,
                    },
                    ..old(cols)@[i]@
                }),
        decreases n - f,
    {
        let fk = &fks[f];
        proof {
            assert(fkv.take(f as int + 1).drop_last() =~= fkv.take(f as int));
            assert(fkv.take(f as int + 1).last() == fks@[f as int]@);
        }
        let target = match find_column(cols, &fk.column) {
            Some(i) => i,
            None => {
                proof {
                    assert forall|i: int| 0 <= i < old(cols)@.len() implies #[trigger] cols@[i]@
                        == (ColumnV {
                        references: match fk_for(fkv.take(f as int + 1), old(cols)@[i]@.name) {
                            Option::Some(g) => Option::Some(g),
                            Option::None => old(cols)@[i]@.references,
                        },
                        ..old(cols)@[i]@
                    }) by {
                        assert(cols@[i]@.name == old(cols)@[i]@.name);
                        assert(fkv.take(f as int + 1).last().column != old(cols)@[i]@.name);
                    }
                }
                f += 1;
                continue;
            },
        };
        let new_fk = ForeignKey {
            table: fk.foreign_table.clone(),
            column: fk.foreign_column.clone(),
            on_delete: clone_opt_string(&fk.on_delete),
            on_update: clone_opt_string(&fk.on_update),
        };
        proof {
            assert(new_fk@ == fk_of_row(fks@[f as int]@));
        }
        let ghost cols0 = cols@;
        cols[target].references = Some(new_fk);
        proof {
            assert(cols@ =~= cols0.update(target as int, cols@[target as int]));
            assert forall|i: int| 0 <= i < old(cols)@.len() implies #[trigger] cols@[i]@
                == (ColumnV {
                references: match fk_for(fkv.take(f as int + 1), old(cols)@[i]@.name) {
                    Option::Some(g) => Option::Some(g),
                    Option::None => old(cols)@[i]@.references,
                },
                ..old(cols)@[i]@
            }) by {
                if i == target as int {
                    assert(cols@[i]@.name == old(cols)@[i]@.name);
                    assert(fkv.take(f as int + 1).last().column == old(cols)@[i]@.name);
                    assert(cols@[i]@.references == Option::Some(fk_of_row(fkv[f as int])));
                } else {
                    assert(cols@[i] == cols0[i]);
                    assert(old(cols)@[i]@.name != old(cols)@[target as int]@.name);
                    assert(fkv.take(f as int + 1).last().column != old(cols)@[i]@.name);
                }
            }
        }
        f += 1;
    }
    proof {
        assert(fkv.take(n as int) =~= fkv);
    }
}

/// Build the index sequence from the raw rows, in row order.
fn build_indexes(rows: &Vec<IndexRow>) -> (r: Vec<Index>)
    ensures
        r@.len() == rows@.len(),
        forall|i: int| 0 <= i < rows@.len() ==> #[trigger] r@[i]@ == index_of_row(rows@[i]@),
{
    let n = rows.len();
    let mut out: Vec<Index> = Vec::new();
    let mut i: usize = 0;
    while i < n
        invariant
            0 <= i <= n,
            n == rows@.len(),
            out@.len() == i,
            forall|k: int| 0 <= k < i ==> #[trigger] out@[k]@ == index_of_row(rows@[k]@),
        decreases n - i,
    {
        let row = &rows[i];
        let ix = Index {
            name: row.name.clone(),
            columns: parse_index_columns(row.columns.as_str()),
            unique: row.unique,
        };
        proof {
            assert(ix@ == index_of_row(rows@[i as int]@));
        }
        out.push(ix);
        i += 1;
    }
    out
}

/// Fold one table's raw query results into its `Table`: columns in catalog
/// order, foreign keys attached by local-column name with later rows
/// winning, index column lists split and trimmed. Returns `None` exactly
/// when the column rows repeat a name, which the catalog never produces for
/// one table.
pub fn assemble_table(
    pk: Vec<String>,
    columns: &Vec<ColumnRow>,
    fks: &Vec<ForeignKeyRow>,
    indexes: &Vec<IndexRow>,
) -> (r: Option<Table>)
    ensures
        column_names_distinct(seq_view(columns@)) ==> r is Some,
        r matches Some(t) ==> t@ == table_of_rows(
            strs_of(pk@),
            seq_view(columns@),
            seq_view(fks@),
            seq_view(indexes@),
        ),
        !column_names_distinct(seq_view(columns@)) ==> r is None,
{
    if !check_columns_distinct(columns) {
        return None;
    }
    let mut cols = build_columns(columns);
    proof {
        assert forall|i: int, j: int| 0 <= i < j < cols@.len() implies #[trigger] cols@[i]@.name
            != #[trigger] cols@[j]@.name by {
            assert(cols@[i]@.name == columns@[i]@.name);
            assert(cols@[j]@.name == columns@[j]@.name);
            assert(seq_view(columns@)[i].name != seq_view(columns@)[j].name);
        }
    }
    attach_foreign_keys(&mut cols, fks);
    let idxs = build_indexes(indexes);
    let t = Table { pk, columns: cols, indexes: idxs };
    proof {
        let spec_t = table_of_rows(
            strs_of(t.pk@),
            seq_view(columns@),
            seq_view(fks@),
            seq_view(indexes@),
        );
        assert(t@.pk =~= spec_t.pk);
        assert forall|i: int| 0 <= i < columns@.len() implies t@.columns[i] == spec_t.columns[i] by {
            assert(t.columns@[i]@.references == match fk_for(seq_view(fks@), columns@[i]@.name) {
                Option::Some(f) => Option::Some(f),
                Option::None => column_of_row(columns@[i]@, Seq::<ForeignKeyRowV>::empty())
                    .references,
            });
        }
        assert(t@.columns =~= spec_t.columns);
        assert(t@.indexes =~= spec_t.indexes);
        assert(t@ == spec_t);
    }
    Some(t)
}

} // verus!
