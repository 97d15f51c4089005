//! The normalized schema model: tables, columns, primary keys, foreign keys
//! and indexes, together with the mathematical views that the contracts of
//! the assembler and the serializer speak about.

use vstd::prelude::*;

verus! {

/// View of an `Option<String>` as an optional character sequence.
pub open spec fn opt_str_view(o: Option<String>) -> Option<Seq<char>> {
    match o {
        Option::Some(s) => Option::Some(s@),
        Option::None => Option::None,
    }
}

/// Mathematical view of a [`ForeignKey`].
pub struct ForeignKeyV {
    pub table: Seq<char>,
    pub column: Seq<char>,
    pub on_delete: Option<Seq<char>>,
    pub on_update: Option<Seq<char>>,
}

/// A single referenced column of a foreign-key constraint. Composite
/// constraints collapse to one `ForeignKey` per local column, each pointing
/// at one remote column.
#[derive(Debug)]
pub struct ForeignKey {
    pub table: String,
    pub column: String,
    pub on_delete: Option<String>,
    pub on_update: Option<String>,
}

impl View for ForeignKey {
    type V = ForeignKeyV;

    open spec fn view(&self) -> ForeignKeyV {
        ForeignKeyV {
            table: self.table@,
            column: self.column@,
            on_delete: opt_str_view(self.on_delete),
            on_update: opt_str_view(self.on_update),
        }
    }
}

/// View of an `Option<ForeignKey>` as an optional [`ForeignKeyV`].
pub open spec fn opt_fk_view(o: Option<ForeignKey>) -> Option<ForeignKeyV> {
    match o {
        Option::Some(f) => Option::Some(f@),
        Option::None => Option::None,
    }
}

/// Mathematical view of a [`Column`].
pub struct ColumnV {
    pub name: Seq<char>,
    pub col_type: Seq<char>,
    pub nullable: bool,
    pub default: Option<Seq<char>>,
    pub references: Option<ForeignKeyV>,
    pub check: Option<Seq<char>>,
}

/// One column of a table. `col_type` holds the source database's own type
/// name verbatim; `check` is modeled but never populated in current scope.
#[derive(Debug)]
pub struct Column {
    pub name: String,
    pub col_type: String,
    pub nullable: bool,
    pub default: Option<String>,
    pub references: Option<ForeignKey>,
    pub check: Option<String>,
}

impl View for Column {
    type V = ColumnV;

    open spec fn view(&self) -> ColumnV {
        ColumnV {
            name: self.name@,
            col_type: self.col_type@,
            nullable: self.nullable,
            default: opt_str_view(self.default),
            references: opt_fk_view(self.references),
            check: opt_str_view(self.check),
        }
    }
}

/// Mathematical view of an [`Index`].
pub struct IndexV {
    pub name: Seq<char>,
    pub columns: Seq<Seq<char>>,
    pub unique: bool,
}

/// A non-primary-key index: its name, its column names in ordinal order,
/// and whether it is unique.
#[derive(Debug)]
pub struct Index {
    pub name: String,
    pub columns: Vec<String>,
    pub unique: bool,
}

/// View of a sequence of strings as a sequence of character sequences.
pub open spec fn strs_of(s: Seq<String>) -> Seq<Seq<char>> {
    s.map_values(|x: String| x@)
}

/// View of a `Vec<String>` as a sequence of character sequences.
pub open spec fn strs_view(v: Vec<String>) -> Seq<Seq<char>> {
    strs_of(v@)
}

/// View of a sequence of viewable values as the sequence of their views.
pub open spec fn seq_view<T: View>(s: Seq<T>) -> Seq<T::V> {
    s.map_values(|x: T| x@)
}

impl View for Index {
    type V = IndexV;

    open spec fn view(&self) -> IndexV {
        IndexV { name: self.name@, columns: strs_view(self.columns), unique: self.unique }
    }
}

/// Mathematical view of a [`Table`].
pub struct TableV {
    pub pk: Seq<Seq<char>>,
    pub columns: Seq<ColumnV>,
    pub indexes: Seq<IndexV>,
}

/// One table of the reflected schema: its primary-key column names in
/// catalog order, its columns in catalog order, and its non-primary-key
/// indexes.
#[derive(Debug)]
pub struct Table {
    pub pk: Vec<String>,
    pub columns: Vec<Column>,
    pub indexes: Vec<Index>,
}

impl View for Table {
    type V = TableV;

    open spec fn view(&self) -> TableV {
        TableV {
            pk: strs_view(self.pk),
            columns: self.columns@.map_values(|c: Column| c@),
            indexes: self.indexes@.map_values(|ix: Index| ix@),
        }
    }
}

/// Mathematical view of a [`TableEntry`].
pub struct TableEntryV {
    pub name: Seq<char>,
    pub table: TableV,
}

/// One named table of a [`Schema`]. The schema keeps its entries in
/// insertion order, with names unique, so that it models a mapping from
/// table name to table while serializing deterministically.
#[derive(Debug)]
pub struct TableEntry {
    pub name: String,
    pub table: Table,
}

impl View for TableEntry {
    type V = TableEntryV;

    open spec fn view(&self) -> TableEntryV {
        TableEntryV { name: self.name@, table: self.table@ }
    }
}

/// Mathematical view of a [`Schema`].
pub struct SchemaV {
    pub version: u32,
    pub tables: Seq<TableEntryV>,
}

impl SchemaV {
    /// Table names are unique: the entry sequence models a mapping from
    /// table name to table.
    pub open spec fn wf(self) -> bool {
        forall|i: int, j: int|
            0 <= i < j < self.tables.len() ==> self.tables[i].name != self.tables[j].name
    }
}

/// The whole reflected schema: a format version and the tables, keyed by
/// name.
#[derive(Debug)]
pub struct Schema {
    pub version: u32,
    pub tables: Vec<TableEntry>,
}

impl View for Schema {
    type V = SchemaV;

    open spec fn view(&self) -> SchemaV {
        SchemaV {
            version: self.version,
            tables: self.tables@.map_values(|e: TableEntry| e@),
        }
    }
}

/// The format version currently emitted.
pub const SCHEMA_VERSION: u32 = 1;

impl Schema {
    /// Well-formedness: table names are unique.
    pub open spec fn wf(&self) -> bool {
        self@.wf()
    }

    /// An empty schema at the current format version.
    pub fn new() -> (r: Schema)
        ensures
            r@.version == SCHEMA_VERSION,
            r@.tables =~= Seq::<TableEntryV>::empty(),
            r.wf(),
    {
        let r = Schema { version: SCHEMA_VERSION, tables: Vec::new() };
        proof {
            assert(r@.tables =~= Seq::<TableEntryV>::empty());
        }
        r
    }

    /// Whether a table of the given name is already present.
    pub fn has_table(&self, name: &String) -> (r: bool)
        ensures
            r == exists|i: int|
                0 <= i < self@.tables.len() && #[trigger] self@.tables[i].name == name@,
    {
        let n = self.tables.len();
        let mut i: usize = 0;
        while i < n
            invariant
                0 <= i <= n,
                n == self@.tables.len(),
                forall|k: int| 0 <= k < i ==> #[trigger] self@.tables[k].name != name@,
            decreases n - i,
        {
            if self.tables[i].name == *name {
                proof {
                    assert(self@.tables[i as int].name == name@);
                }
                return true;
            }
            i += 1;
        }
        false
    }

    /// Insert a table under a name, mapping-style: if the name is already
    /// present its table is replaced in place, otherwise the entry is
    /// appended. Insertion order of fresh names is preserved.
    pub fn insert_table(&mut self, name: String, table: Table)
        requires
            old(self).wf(),
        ensures
            final(self).wf(),
            final(self)@.version == old(self)@.version,
            forall|i: int|
                0 <= i < old(self)@.tables.len() && #[trigger] old(self)@.tables[i].name == name@
                    ==> final(self)@.tables =~= old(self)@.tables.update(
                    i,
                    TableEntryV { name: name@, table: table@ },
                ),
            (forall|i: int|
                0 <= i < old(self)@.tables.len() ==> #[trigger] old(self)@.tables[i].name
                    != name@) ==> final(self)@.tables =~= old(self)@.tables.push(
                TableEntryV { name: name@, table: table@ },
            ),
    {
        let ghost nv = name@;
        let ghost tv = table@;
        let ghost ts = old(self)@.tables;
        let ghost newv = TableEntryV { name: nv, table: tv };
        let n = self.tables.len();
        let mut i: usize = 0;
        while i < n
            invariant
                0 <= i <= n,
                old(self).wf(),
                self.tables@ == old(self).tables@,
                self.version == old(self).version,
                n == ts.len(),
                ts == old(self)@.tables,
                nv == name@,
                tv == table@,
                newv == (TableEntryV { name: nv, table: tv }),
                forall|k: int| 0 <= k < i ==> #[trigger] ts[k].name != nv,
            decreases n - i,
        {
            if self.tables[i].name == name {
                proof {
                    assert(ts[i as int].name == nv);
                }
                self.tables[i] = TableEntry { name, table };
                proof {
                    assert(self.tables@[i as int].name@ == nv);
                    assert(self.tables@[i as int].table@ == tv);
                    assert(self.tables@[i as int]@ == newv);
                    assert(self@.tables =~= ts.update(i as int, newv)) by {
                        assert forall|k: int| 0 <= k < ts.len() implies self@.tables[k]
                            == ts.update(i as int, newv)[k] by {
                            assert(self@.tables[k] == self.tables@[k]@);
                            if k != i {
                                assert(self.tables@[k] == old(self).tables@[k]);
                            }
                        }
                    }
                    assert(self@.wf()) by {
                        assert forall|p: int, q: int|
                            0 <= p < q < self@.tables.len() implies self@.tables[p].name
                            != self@.tables[q].name by {
                            assert(ts[p].name != ts[q].name);
                            if p == i as int {
                                assert(ts[p].name == nv);
                            }
                            if q == i as int {
                                assert(ts[q].name == nv);
                            }
                        }
                    }
                    assert forall|j: int|
                        0 <= j < ts.len() && #[trigger] ts[j].name == nv implies self@.tables
                        =~= ts.update(j, newv) by {
                        if j < i as int {
                            assert(ts[j].name != nv);
                        } else if j > i as int {
                            assert(ts[i as int].name != ts[j].name);
                        }
                    }
                }
                return;
            }
            i += 1;
        }
        self.tables.push(TableEntry { name, table });
        proof {
            assert(self.tables@[ts.len() as int].name@ == nv);
            assert(self.tables@[ts.len() as int].table@ == tv);
            assert(self@.tables =~= ts.push(newv)) by {
                assert forall|k: int| 0 <= k <= ts.len() implies self@.tables[k]
                    == ts.push(newv)[k] by {
                    assert(self@.tables[k] == self.tables@[k]@);
                    if k < ts.len() {
                        assert(self.tables@[k] == old(self).tables@[k]);
                    }
                }
            }
            assert(self@.wf()) by {
                assert forall|p: int, q: int|
                    0 <= p < q < self@.tables.len() implies self@.tables[p].name
                    != self@.tables[q].name by {
                    if q < ts.len() {
                        assert(ts[p].name != ts[q].name);
                    } else {
                        assert(ts[p].name != nv);
                    }
                }
            }
        }
    }
}

} // verus!
