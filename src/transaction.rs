use vstd::prelude::*;

use crate::catalog::{has_table, table_pos, MemoryStorage};
use crate::error::DbError;
use crate::types::{row_view, rows_wf, Column, DataType, Table, TableModel, Value};

verus! {

#[derive(Debug, Clone, Copy, PartialEq, Eq, Structural)]
pub enum TransactionState {
    Active,
    Committed,
    RolledBack,
}

/// A row change recorded for a table, applied at commit.
enum TableChange {
    Insert(Vec<DataType>),
    Update { row_index: usize, row: Vec<DataType> },
    Delete(usize),
}

pub enum ChangeModel {
    Insert(Seq<Value>),
    Update(int, Seq<Value>),
    Delete(int),
}

spec fn change_view(c: TableChange) -> ChangeModel {
    match c {
        TableChange::Insert(row) => ChangeModel::Insert(row_view(row@)),
        TableChange::Update { row_index, row } => ChangeModel::Update(row_index as int, row_view(row@)),
        TableChange::Delete(i) => ChangeModel::Delete(i as int),
    }
}

/// One recorded change applied to the catalog: the new catalog and whether it applied.
/// An insert must be accepted by the table; an update must keep the table invariants; an
/// update or delete past the last row is skipped; an absent table fails.
pub open spec fn apply_change(ts: Seq<TableModel>, name: Seq<char>, c: ChangeModel) -> (Seq<TableModel>, bool) {
    if !has_table(ts, name) {
        (ts, false)
    } else {
        let i = table_pos(ts, name);
        let t = ts[i];
        match c {
            ChangeModel::Insert(row) => if t.accepts(row) {
                (ts.update(i, TableModel { rows: t.rows.push(row), ..t }), true)
            } else {
                (ts, false)
            },
            ChangeModel::Update(k, row) => if 0 <= k < t.rows.len() {
                let rows = t.rows.update(k, row);
                if rows_wf(t.columns, rows) {
                    (ts.update(i, TableModel { rows, ..t }), true)
                } else {
                    (ts, false)
                }
            } else {
                (ts, true)
            },
            ChangeModel::Delete(k) => if 0 <= k < t.rows.len() {
                (ts.update(i, TableModel { rows: t.rows.remove(k), ..t }), true)
            } else {
                (ts, true)
            },
        }
    }
}

/// The first `n` changes applied in order, stopping at the first that fails.
pub open spec fn apply_changes(ts: Seq<TableModel>, changes: Seq<(Seq<char>, ChangeModel)>, n: int) -> (
    Seq<TableModel>,
    bool,
)
    decreases n,
{
    if n <= 0 {
        (ts, true)
    } else {
        let (u, ok) = apply_changes(ts, changes, n - 1);
        if ok {
            apply_change(u, changes[n - 1].0, changes[n - 1].1)
        } else {
            (u, false)
        }
    }
}

/// A group of row changes that is applied to the catalog on commit; table creation and
/// removal take effect at once.
pub struct Transaction {
    state: TransactionState,
    changes: Vec<(String, TableChange)>,
}

impl Transaction {
    /// The recorded changes, in order.
    pub closed spec fn pending(&self) -> Seq<(Seq<char>, ChangeModel)> {
        self.changes@.map_values(|c: (String, TableChange)| (c.0@, change_view(c.1)))
    }

    pub closed spec fn state(&self) -> TransactionState {
        self.state
    }

    pub fn new() -> (r: Transaction)
        ensures
            r.pending().len() == 0,
            r.state() == TransactionState::Active,
    {
        let r = Transaction { state: TransactionState::Active, changes: Vec::new() };
        assert(r.pending() =~= Seq::<(Seq<char>, ChangeModel)>::empty());
        r
    }

    fn inactive() -> (r: DbError)
        ensures
            r is TransactionError,
    {
        DbError::TransactionError("transaction is not active".to_owned())
    }

    /// Creates a table at once.
    pub fn create_table(&mut self, storage: &mut MemoryStorage, name: String, columns: Vec<Column>) -> (r: Result<
        (),
        DbError,
    >)
        requires
            old(storage).wf(),
        ensures
            final(storage).wf(),
            final(self).pending() == old(self).pending(),
            old(self).state() != TransactionState::Active ==> r is Err && final(storage)@ == old(storage)@,
            old(self).state() == TransactionState::Active ==> (r is Ok <==> !has_table(old(storage)@, name@)),
            r is Ok ==> final(storage)@ == old(storage)@.push(
                TableModel { name: name@, columns: crate::types::columns_view(columns@), rows: Seq::empty() },
            ),
            r is Err ==> final(storage)@ == old(storage)@,
    {
        if self.state != TransactionState::Active {
            return Err(Self::inactive());
        }
        storage.create_table(Table::new(name, columns))
    }

    /// Drops a table at once.
    pub fn drop_table(&mut self, storage: &mut MemoryStorage, table_name: &str) -> (r: Result<(), DbError>)
        requires
            old(storage).wf(),
        ensures
            final(storage).wf(),
            final(self).pending() == old(self).pending(),
            old(self).state() != TransactionState::Active ==> r is Err && final(storage)@ == old(storage)@,
            old(self).state() == TransactionState::Active ==> (r is Ok <==> has_table(old(storage)@, table_name@)),
            r is Ok ==> final(storage)@ == old(storage)@.remove(table_pos(old(storage)@, table_name@)),
            r is Err ==> final(storage)@ == old(storage)@,
    {
        if self.state != TransactionState::Active {
            return Err(Self::inactive());
        }
        storage.drop_table(table_name)
    }

    fn record(&mut self, table_name: &str, change: TableChange)
        ensures
            final(self).state() == old(self).state(),
            final(self).pending() == old(self).pending().push((table_name@, change_view(change))),
    {
        let ghost cv = change_view(change);
        self.changes.push((table_name.to_owned(), change));
        assert(self.pending() =~= old(self).pending().push((table_name@, cv)));
    }

    /// Records a row to insert at commit.
    pub fn insert_row(&mut self, table_name: &str, row: Vec<DataType>) -> (r: Result<(), DbError>)
        ensures
            r is Ok,
            final(self).state() == old(self).state(),
            final(self).pending() == old(self).pending().push((table_name@, ChangeModel::Insert(row_view(row@)))),
    {
        self.record(table_name, TableChange::Insert(row));
        Ok(())
    }

    /// Records a row replacement to apply at commit.
    pub fn update_row(&mut self, table_name: &str, row_index: usize, row: Vec<DataType>) -> (r: Result<(), DbError>)
        ensures
            r is Ok,
            final(self).state() == old(self).state(),
            final(self).pending() == old(self).pending().push(
                (table_name@, ChangeModel::Update(row_index as int, row_view(row@))),
            ),
    {
        self.record(table_name, TableChange::Update { row_index, row });
        Ok(())
    }

    /// Records a row removal to apply at commit.
    pub fn delete_row(&mut self, table_name: &str, row_index: usize) -> (r: Result<(), DbError>)
        ensures
            r is Ok,
            final(self).state() == old(self).state(),
            final(self).pending() == old(self).pending().push((table_name@, ChangeModel::Delete(row_index as int))),
    {
        self.record(table_name, TableChange::Delete(row_index));
        Ok(())
    }

    /// Applies the recorded changes in order; the first failing change stops the commit,
    /// and the changes before it stay applied.
    pub fn commit(self, storage: &mut MemoryStorage) -> (r: Result<(), DbError>)
        requires
            old(storage).wf(),
        ensures
            final(storage).wf(),
            final(storage)@ == apply_changes(old(storage)@, self.pending(), self.pending().len() as int).0,
            r is Ok <==> apply_changes(old(storage)@, self.pending(), self.pending().len() as int).1,
    {
        let ghost ps = self.pending();
        let mut j: usize = 0;
        while j < self.changes.len()
            invariant
                j <= self.changes@.len(),
                ps == self.pending(),
                ps.len() == self.changes@.len(),
                storage.wf(),
                apply_changes(old(storage)@, ps, j as int) == (storage@, true),
            decreases self.changes.len() - j,
        {
            let (name, change) = &self.changes[j];
            assert(ps[j as int] == (name@, change_view(*change)));
            let ghost before = storage@;
            let res = match change {
                TableChange::Insert(row) => storage.insert_row(name.as_str(), crate::types::copy_row(row)),
                TableChange::Update { row_index, row } => {
                    match storage.position(name.as_str()) {
                        None => Err(DbError::TableError("table does not exist".to_owned())),
                        Some(p) => {
                            if *row_index < storage.get_tables()[p].rows.len() {
                                storage.update_row(name.as_str(), *row_index, crate::types::copy_row(row))
                            } else {
                                Ok(())
                            }
                        },
                    }
                },
                TableChange::Delete(row_index) => {
                    match storage.position(name.as_str()) {
                        None => Err(DbError::TableError("table does not exist".to_owned())),
                        Some(p) => {
                            if *row_index < storage.get_tables()[p].rows.len() {
                                storage.delete_row(name.as_str(), *row_index)
                            } else {
                                Ok(())
                            }
                        },
                    }
                },
            };
            if res.is_err() {
                proof {
                    lemma_changes_stop(old(storage)@, ps, j + 1, ps.len() as int);
                }
                return res;
            }
            j += 1;
        }
        Ok(())
    }

    /// Discards the recorded changes.
    pub fn rollback(self) -> (r: Result<(), DbError>)
        ensures
            r is Ok,
    {
        Ok(())
    }
}

proof fn lemma_changes_stop(ts: Seq<TableModel>, changes: Seq<(Seq<char>, ChangeModel)>, k: int, n: int)
    requires
        0 <= k <= n,
        !apply_changes(ts, changes, k).1,
    ensures
        apply_changes(ts, changes, n) == apply_changes(ts, changes, k),
    decreases n - k,
{
    if k < n {
        lemma_changes_stop(ts, changes, k, n - 1);
    }
}

} // verus!
