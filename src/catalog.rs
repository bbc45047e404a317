use vstd::prelude::*;

use crate::error::DbError;
use crate::types::{refused_at, explains, row_view, rows_view, DataType, Table, TableModel, TypeError};

verus! {

/// The catalog of tables, held in memory.
pub struct MemoryStorage {
    tables: Vec<Table>,
}

pub open spec fn tables_view(ts: Seq<Table>) -> Seq<TableModel> {
    ts.map_values(|t: Table| t@)
}

/// Every table meets its invariants and no two tables share a name.
pub open spec fn catalog_wf(ts: Seq<TableModel>) -> bool {
    &&& forall|i: int| 0 <= i < ts.len() ==> (#[trigger] ts[i]).wf()
    &&& forall|i: int, j: int|
        0 <= i < ts.len() && 0 <= j < ts.len() && i != j ==> #[trigger] ts[i].name != #[trigger] ts[j].name
}

pub open spec fn has_table(ts: Seq<TableModel>, name: Seq<char>) -> bool {
    exists|i: int| 0 <= i < ts.len() && (#[trigger] ts[i]).name == name
}

/// The position of the table called `name` in a well-formed catalog.
pub open spec fn table_pos(ts: Seq<TableModel>, name: Seq<char>) -> int {
    choose|i: int| 0 <= i < ts.len() && (#[trigger] ts[i]).name == name
}

pub proof fn lemma_table_pos(ts: Seq<TableModel>, name: Seq<char>, i: int)
    requires
        catalog_wf(ts),
        0 <= i < ts.len(),
        ts[i].name == name,
    ensures
        table_pos(ts, name) == i,
{
    let p = table_pos(ts, name);
    assert(0 <= p < ts.len() && ts[p].name == name);
}

fn table_missing() -> (r: DbError)
    ensures
        r is TableError,
{
    DbError::TableError("table does not exist".to_owned())
}

impl View for MemoryStorage {
    type V = Seq<TableModel>;

    closed spec fn view(&self) -> Seq<TableModel> {
        tables_view(self.tables@)
    }
}

impl MemoryStorage {
    pub open spec fn wf(&self) -> bool {
        catalog_wf(self@)
    }

    pub fn new() -> (r: MemoryStorage)
        ensures
            r@.len() == 0,
            r.wf(),
    {
        let r = MemoryStorage { tables: Vec::new() };
        assert(r@ =~= Seq::<TableModel>::empty());
        r
    }

    /// The position of the table with the given name.
    pub fn position(&self, name: &str) -> (r: Option<usize>)
        requires
            self.wf(),
        ensures
            r matches Some(i) ==> i < self@.len() && self@[i as int].name == name@ && table_pos(self@, name@)
                == i,
            r is Some <==> has_table(self@, name@),
    {
        let key = name.to_owned();
        let mut i: usize = 0;
        while i < self.tables.len()
            invariant
                i <= self.tables@.len(),
                self.wf(),
                key@ == name@,
                forall|j: int| 0 <= j < i ==> (#[trigger] self@[j]).name != name@,
            decreases self.tables.len() - i,
        {
            assert(self@[i as int] == self.tables@[i as int]@);
            if self.tables[i].name == key {
                proof {
                    lemma_table_pos(self@, name@, i as int);
                }
                return Some(i);
            }
            i += 1;
        }
        None
    }

    /// Adds a table; fails when a table of that name exists, leaving the catalog unchanged.
    pub fn create_table(&mut self, table: Table) -> (r: Result<(), DbError>)
        requires
            old(self).wf(),
            table@.wf(),
        ensures
            final(self).wf(),
            r is Ok <==> !has_table(old(self)@, table@.name),
            r is Ok ==> final(self)@ == old(self)@.push(table@),
            r is Err ==> final(self)@ == old(self)@,
            r matches Err(e) ==> e is TableError,
    {
        if self.position(table.name.as_str()).is_some() {
            return Err(DbError::TableError("table already exists".to_owned()));
        }
        let ghost t = table@;
        self.tables.push(table);
        assert(self@ =~= old(self)@.push(t));
        Ok(())
    }

    /// Removes the table with the given name.
    pub fn drop_table(&mut self, table_name: &str) -> (r: Result<(), DbError>)
        requires
            old(self).wf(),
        ensures
            final(self).wf(),
            r is Ok <==> has_table(old(self)@, table_name@),
            r is Ok ==> final(self)@ == old(self)@.remove(table_pos(old(self)@, table_name@)),
            r is Err ==> final(self)@ == old(self)@,
            r matches Err(e) ==> e is TableError,
    {
        match self.position(table_name) {
            None => Err(table_missing()),
            Some(i) => {
                let _ = self.tables.remove(i);
                assert(self@ =~= old(self)@.remove(i as int));
                Ok(())
            },
        }
    }

    /// The table with the given name, if any.
    pub fn get_table(&self, table_name: &str) -> (r: Option<&Table>)
        requires
            self.wf(),
        ensures
            r is Some <==> has_table(self@, table_name@),
            r matches Some(t) ==> t@ == self@[table_pos(self@, table_name@)],
    {
        match self.position(table_name) {
            None => None,
            Some(i) => Some(&self.tables[i]),
        }
    }

    /// The names of all tables, in catalog order.
    pub fn list_tables(&self) -> (r: Vec<String>)
        ensures
            r@.len() == self@.len(),
            forall|i: int| 0 <= i < r@.len() ==> (#[trigger] r@[i])@ == self@[i].name,
    {
        let mut r: Vec<String> = Vec::new();
        let mut i: usize = 0;
        while i < self.tables.len()
            invariant
                i <= self.tables@.len(),
                r@.len() == i,
                forall|j: int| 0 <= j < i ==> (#[trigger] r@[j])@ == self@[j].name,
            decreases self.tables.len() - i,
        {
            r.push(self.tables[i].name.clone());
            i += 1;
        }
        r
    }

    /// All tables, in catalog order.
    pub fn get_tables(&self) -> (r: &Vec<Table>)
        ensures
            tables_view(r@) == self@,
    {
        &self.tables
    }

    /// Replaces the table at position `i` by `t`, which must keep its name.
    fn put(&mut self, i: usize, t: Table)
        requires
            old(self).wf(),
            i < old(self)@.len(),
            t@.wf(),
            t@.name == old(self)@[i as int].name,
        ensures
            final(self).wf(),
            final(self)@ == old(self)@.update(i as int, t@),
    {
        let ghost tv = t@;
        let _ = self.tables.remove(i);
        self.tables.insert(i, t);
        assert(self@ =~= old(self)@.update(i as int, tv));
    }

    /// Appends a row to the named table after the table's own validation.
    pub fn insert_row(&mut self, table_name: &str, row: Vec<DataType>) -> (r: Result<(), DbError>)
        requires
            old(self).wf(),
        ensures
            final(self).wf(),
            !has_table(old(self)@, table_name@) ==> (r matches Err(e) && e is TableError),
            has_table(old(self)@, table_name@) ==> {
                let i = table_pos(old(self)@, table_name@);
                let t = old(self)@[i];
                &&& r is Ok <==> t.accepts(row_view(row@))
                &&& r is Ok ==> final(self)@ == old(self)@.update(
                    i,
                    TableModel { rows: t.rows.push(row_view(row@)), ..t },
                )
                &&& r matches Err(e) ==> e matches DbError::TypeError(te) && explains(t, row_view(row@), te)
            },
            r is Err ==> final(self)@ == old(self)@,
    {
        match self.position(table_name) {
            None => Err(table_missing()),
            Some(i) => {
                let mut t = self.tables.remove(i);
                assert(t@ == old(self)@[i as int]);
                let res = t.insert_row(row);
                self.tables.insert(i, t);
                match res {
                    Ok(()) => {
                        assert(self@ =~= old(self)@.update(i as int, self@[i as int]));
                        Ok(())
                    },
                    Err(e) => {
                        assert(self@ =~= old(self)@);
                        Err(DbError::TypeError(e))
                    },
                }
            },
        }
    }

    /// Removes the row at `row_index` from the named table.
    pub fn delete_row(&mut self, table_name: &str, row_index: usize) -> (r: Result<(), DbError>)
        requires
            old(self).wf(),
        ensures
            final(self).wf(),
            r is Ok <==> has_table(old(self)@, table_name@) && row_index < old(self)@[table_pos(
                old(self)@,
                table_name@,
            )].rows.len(),
            r is Ok ==> {
                let i = table_pos(old(self)@, table_name@);
                let t = old(self)@[i];
                final(self)@ == old(self)@.update(i, TableModel { rows: t.rows.remove(row_index as int), ..t })
            },
            r is Err ==> final(self)@ == old(self)@,
            r matches Err(e) ==> e is TableError,
    {
        match self.position(table_name) {
            None => Err(table_missing()),
            Some(i) => {
                if row_index >= self.tables[i].rows.len() {
                    return Err(DbError::TableError("row index out of range".to_owned()));
                }
                let mut t = self.tables.remove(i);
                assert(t@ == old(self)@[i as int]);
                let ghost before = t@;
                let ghost n = t.rows@.len();
                let _ = t.rows.remove(row_index);
                let ghost idx = Seq::new((n - 1) as nat, |j: int| if j < row_index { j } else { j + 1 });
                assert(t@.rows =~= before.rows.remove(row_index as int));
                proof {
                    crate::types::lemma_subset_keeps_wf(before.columns, before.rows, t@.rows, idx);
                }
                self.tables.insert(i, t);
                assert(self@ =~= old(self)@.update(i as int, self@[i as int]));
                Ok(())
            },
        }
    }

    /// Replaces the row at `row_index` of the named table, after checking that the table with
    /// the new row still meets its invariants.
    pub fn update_row(&mut self, table_name: &str, row_index: usize, row: Vec<DataType>) -> (r: Result<
        (),
        DbError,
    >)
        requires
            old(self).wf(),
        ensures
            final(self).wf(),
            !has_table(old(self)@, table_name@) ==> (r matches Err(e) && e is TableError),
            has_table(old(self)@, table_name@) ==> {
                let i = table_pos(old(self)@, table_name@);
                let t = old(self)@[i];
                let rows = t.rows.update(row_index as int, row_view(row@));
                &&& row_index >= t.rows.len() ==> (r matches Err(e) && e is TableError)
                &&& row_index < t.rows.len() ==> (r is Ok <==> crate::types::rows_wf(t.columns, rows))
                &&& r is Ok ==> final(self)@ == old(self)@.update(i, TableModel { rows, ..t })
                &&& r matches Err(e) ==> e is TableError || e is TypeError
            },
            r is Err ==> final(self)@ == old(self)@,
    {
        match self.position(table_name) {
            None => Err(table_missing()),
            Some(i) => {
                if row_index >= self.tables[i].rows.len() {
                    return Err(DbError::TableError("row index out of range".to_owned()));
                }
                assert(self.tables@[i as int]@ == old(self)@[i as int]);
                let mut rows = crate::types::copy_rows(&self.tables[i].rows);
                let ghost rv = row_view(row@);
                rows.set(row_index, row);
                assert(rows_view(rows@) =~= old(self)@[i as int].rows.update(row_index as int, rv));
                self.replace_rows(i, &rows)
            },
        }
    }

    /// Replaces all rows of the table at position `i`, if the new rows meet its invariants.
    pub fn replace_rows(&mut self, i: usize, rows: &Vec<Vec<DataType>>) -> (r: Result<(), DbError>)
        requires
            old(self).wf(),
            i < old(self)@.len(),
        ensures
            final(self).wf(),
            r is Ok <==> crate::types::rows_wf(old(self)@[i as int].columns, rows_view(rows@)),
            r is Ok ==> final(self)@ == old(self)@.update(
                i as int,
                TableModel { rows: rows_view(rows@), ..old(self)@[i as int] },
            ),
            r is Err ==> final(self)@ == old(self)@,
            r matches Err(e) ==> e matches DbError::TypeError(te) && exists|k: int| #[trigger] refused_at(
                old(self)@[i as int].name,
                old(self)@[i as int].columns,
                rows_view(rows@),
                k,
                te,
            ),
    {
        let t = &self.tables[i];
        assert(t@ == old(self)@[i as int]);
        let name = t.name.clone();
        let columns = crate::types::copy_columns(&t.columns);
        match Table::with_rows(name, columns, rows) {
            Err(e) => Err(DbError::TypeError(e)),
            Ok(nt) => {
                self.put(i, nt);
                Ok(())
            },
        }
    }

    /// Copies of all tables, in catalog order (what a persistent store writes out).
    pub fn snapshot(&self) -> (r: Vec<Table>)
        ensures
            tables_view(r@) == self@,
    {
        let mut r: Vec<Table> = Vec::new();
        let mut i: usize = 0;
        while i < self.tables.len()
            invariant
                i <= self.tables@.len(),
                r@.len() == i,
                forall|k: int| 0 <= k < i ==> (#[trigger] r@[k])@ == self@[k],
            decreases self.tables.len() - i,
        {
            r.push(self.tables[i].copy());
            i += 1;
        }
        assert(tables_view(r@) =~= self@);
        r
    }

    /// Replaces the whole catalog by the given tables (as read back from a persistent
    /// store), after checking that each meets its invariants and that names are unique;
    /// on error the catalog is unchanged.
    pub fn replace_all(&mut self, tables: Vec<Table>) -> (r: Result<(), DbError>)
        requires
            old(self).wf(),
        ensures
            final(self).wf(),
            r is Ok <==> catalog_wf(tables_view(tables@)),
            r is Ok ==> final(self)@ == tables_view(tables@),
            r is Err ==> final(self)@ == old(self)@,
            r matches Err(e) ==> e is Serialization,
    {
        let mut fresh = MemoryStorage::new();
        let ghost all = tables_view(tables@);
        let mut i: usize = 0;
        while i < tables.len()
            invariant
                i <= tables@.len(),
                all == tables_view(tables@),
                self.wf(),
                self@ == old(self)@,
                fresh.wf(),
                fresh@ == all.take(i as int),
            decreases tables.len() - i,
        {
            let t = &tables[i];
            assert(all[i as int] == t@);
            let checked = Table::with_rows(t.name.clone(), crate::types::copy_columns(&t.columns), &t.rows);
            let table = match checked {
                Ok(table) => table,
                Err(_) => {
                    assert(!all[i as int].wf());
                    return Err(DbError::Serialization("stored table violates its constraints".to_owned()));
                },
            };
            assert(table@ == all[i as int]);
            if fresh.create_table(table).is_err() {
                proof {
                    let j = table_pos(fresh@, all[i as int].name);
                    assert(0 <= j < i && all[j].name == all[i as int].name);
                    assert(fresh@[j] == all[j]);
                }
                return Err(DbError::Serialization("duplicate table name".to_owned()));
            }
            assert(all.take(i + 1) =~= all.take(i as int).push(all[i as int]));
            i += 1;
        }
        assert(all.take(tables@.len() as int) =~= all);
        *self = fresh;
        Ok(())
    }

    /// Nothing to persist for an in-memory catalog.
    pub fn save(&self) -> (r: Result<(), DbError>)
        ensures
            r is Ok,
    {
        Ok(())
    }

    /// Nothing to reload for an in-memory catalog.
    pub fn load(&mut self) -> (r: Result<(), DbError>)
        ensures
            r is Ok,
            final(self)@ == old(self)@,
    {
        Ok(())
    }
}

/// A catalog of tables: the operations a store offers to the engine. Row validation is the
/// tables' own, so every store keeps the table invariants.
pub trait Storage {
    /// The tables, in catalog order.
    spec fn tables(&self) -> Seq<TableModel>;

    spec fn valid(&self) -> bool;

    fn create_table(&mut self, table: Table) -> (r: Result<(), DbError>)
        requires
            old(self).valid(),
            table@.wf(),
        ensures
            final(self).valid(),
            r is Ok <==> !has_table(old(self).tables(), table@.name),
            r is Ok ==> final(self).tables() == old(self).tables().push(table@),
            r is Err ==> final(self).tables() == old(self).tables(),
    ;

    fn drop_table(&mut self, table_name: &str) -> (r: Result<(), DbError>)
        requires
            old(self).valid(),
        ensures
            final(self).valid(),
            r is Ok <==> has_table(old(self).tables(), table_name@),
            r is Ok ==> final(self).tables() == old(self).tables().remove(table_pos(old(self).tables(), table_name@)),
            r is Err ==> final(self).tables() == old(self).tables(),
    ;

    fn get_table(&self, table_name: &str) -> (r: Option<&Table>)
        requires
            self.valid(),
        ensures
            r is Some <==> has_table(self.tables(), table_name@),
            r matches Some(t) ==> t@ == self.tables()[table_pos(self.tables(), table_name@)],
    ;

    fn list_tables(&self) -> (r: Vec<String>)
        ensures
            r@.len() == self.tables().len(),
            forall|i: int| 0 <= i < r@.len() ==> (#[trigger] r@[i])@ == self.tables()[i].name,
    ;

    fn insert_row(&mut self, table_name: &str, row: Vec<DataType>) -> (r: Result<(), DbError>)
        requires
            old(self).valid(),
        ensures
            final(self).valid(),
            !has_table(old(self).tables(), table_name@) ==> r is Err,
            has_table(old(self).tables(), table_name@) ==> {
                let i = table_pos(old(self).tables(), table_name@);
                let t = old(self).tables()[i];
                &&& r is Ok <==> t.accepts(row_view(row@))
                &&& r is Ok ==> final(self).tables() == old(self).tables().update(
                    i,
                    TableModel { rows: t.rows.push(row_view(row@)), ..t },
                )
            },
            r is Err ==> final(self).tables() == old(self).tables(),
    ;

    fn delete_row(&mut self, table_name: &str, row_index: usize) -> (r: Result<(), DbError>)
        requires
            old(self).valid(),
        ensures
            final(self).valid(),
            r is Ok <==> has_table(old(self).tables(), table_name@) && row_index < old(self).tables()[table_pos(
                old(self).tables(),
                table_name@,
            )].rows.len(),
            r is Ok ==> {
                let i = table_pos(old(self).tables(), table_name@);
                let t = old(self).tables()[i];
                final(self).tables() == old(self).tables().update(
                    i,
                    TableModel { rows: t.rows.remove(row_index as int), ..t },
                )
            },
            r is Err ==> final(self).tables() == old(self).tables(),
    ;

    fn update_row(&mut self, table_name: &str, row_index: usize, row: Vec<DataType>) -> (r: Result<(), DbError>)
        requires
            old(self).valid(),
        ensures
            final(self).valid(),
            !has_table(old(self).tables(), table_name@) ==> r is Err,
            has_table(old(self).tables(), table_name@) ==> {
                let i = table_pos(old(self).tables(), table_name@);
                let t = old(self).tables()[i];
                let rows = t.rows.update(row_index as int, row_view(row@));
                &&& row_index >= t.rows.len() ==> r is Err
                &&& row_index < t.rows.len() ==> (r is Ok <==> crate::types::rows_wf(t.columns, rows))
                &&& r is Ok ==> final(self).tables() == old(self).tables().update(i, TableModel { rows, ..t })
            },
            r is Err ==> final(self).tables() == old(self).tables(),
    ;

    /// Whether the store is backed by files.
    fn is_file_storage(&self) -> bool;
}

impl Storage for MemoryStorage {
    open spec fn tables(&self) -> Seq<TableModel> {
        self@
    }

    open spec fn valid(&self) -> bool {
        self.wf()
    }

    fn create_table(&mut self, table: Table) -> (r: Result<(), DbError>) {
        MemoryStorage::create_table(self, table)
    }

    fn drop_table(&mut self, table_name: &str) -> (r: Result<(), DbError>) {
        MemoryStorage::drop_table(self, table_name)
    }

    fn get_table(&self, table_name: &str) -> (r: Option<&Table>) {
        MemoryStorage::get_table(self, table_name)
    }

    fn list_tables(&self) -> (r: Vec<String>) {
        MemoryStorage::list_tables(self)
    }

    fn insert_row(&mut self, table_name: &str, row: Vec<DataType>) -> (r: Result<(), DbError>) {
        MemoryStorage::insert_row(self, table_name, row)
    }

    fn delete_row(&mut self, table_name: &str, row_index: usize) -> (r: Result<(), DbError>) {
        MemoryStorage::delete_row(self, table_name, row_index)
    }

    fn update_row(&mut self, table_name: &str, row_index: usize, row: Vec<DataType>) -> (r: Result<(), DbError>) {
        MemoryStorage::update_row(self, table_name, row_index, row)
    }

    fn is_file_storage(&self) -> bool {
        false
    }
}

} // verus!
