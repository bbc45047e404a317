use vstd::prelude::*;

use crate::catalog::{catalog_wf, has_table, table_pos, tables_view, MemoryStorage};
use crate::error::{brief_text, detailed_text, DbError};
use crate::executor::{executes, SqlExecutor};
use crate::lexer::lex;
use crate::parser::{ends_at, significant, statement_end, statement_matches, SqlParser};
use crate::sql::SqlStatement;
use crate::transaction::Transaction;
use crate::types::{columns_view, Column, DataType, Table, TableModel};

verus! {

/// What running one SQL text does to a catalog and what it returns: a lexing error (with
/// its message) or a text that is not one statement changes nothing and fails with a
/// `SqlError`; otherwise the statement that the text spells is executed.
pub open spec fn sql_effect(sql: Seq<char>, before: Seq<TableModel>, after: Seq<TableModel>, r: Result<String, DbError>) -> bool {
    match lex(sql, 0) {
        Err(m) => after == before && (r matches Err(e) && e matches DbError::SqlError(m2) && m2@ == m),
        Ok(toks) => {
            let ts = significant(toks);
            if statement_end(ts) matches Some(q) && ends_at(ts, q) {
                exists|s: SqlStatement| statement_matches(ts, s, statement_end(ts)->0) && #[trigger] executes(
                    s,
                    before,
                    after,
                    r,
                )
            } else {
                after == before && (r matches Err(e) && e is SqlError)
            }
        },
    }
}

/// The text part of a result that also carries a flag.
pub open spec fn text_of(r: Result<(String, bool), DbError>) -> Result<String, DbError> {
    match r {
        Ok((t, _)) => Ok(t),
        Err(e) => Err(e),
    }
}

/// Where a database keeps its tables.
pub enum StorageType {
    /// A directory of table files, managed by the embedding program.
    File(String),
    /// Memory only.
    Memory,
}

/// How errors are shown to the user.
#[derive(Debug, Clone, Copy, PartialEq, Eq, Structural)]
pub enum ErrorDisplayMode {
    /// Short fixed messages; constraint violations keep their full text.
    Brief,
    /// Full messages with context.
    Detailed,
}

/// A database: a catalog of tables driven by SQL text.
pub struct Database {
    storage: MemoryStorage,
    sql_parser: SqlParser,
    error_mode: ErrorDisplayMode,
    path: Option<String>,
}

impl View for Database {
    type V = Seq<TableModel>;

    closed spec fn view(&self) -> Seq<TableModel> {
        self.storage@
    }
}

impl Database {
    pub closed spec fn wf(&self) -> bool {
        self.storage.wf()
    }

    pub closed spec fn mode(&self) -> ErrorDisplayMode {
        self.error_mode
    }

    /// The directory of a file-backed database.
    pub closed spec fn location(&self) -> Option<Seq<char>> {
        match self.path {
            Some(p) => Some(p@),
            None => None,
        }
    }

    pub fn new(storage_type: StorageType) -> (r: Database)
        ensures
            r.wf(),
            r@.len() == 0,
            r.mode() == ErrorDisplayMode::Brief,
            r.location() == (match storage_type {
                StorageType::File(p) => Some(p@),
                StorageType::Memory => None,
            }),
    {
        let path = match storage_type {
            StorageType::File(p) => Some(p),
            StorageType::Memory => None,
        };
        Database { storage: MemoryStorage::new(), sql_parser: SqlParser::new(), error_mode: ErrorDisplayMode::Brief, path }
    }

    pub fn set_error_mode(&mut self, mode: ErrorDisplayMode)
        ensures
            final(self).mode() == mode,
            final(self)@ == old(self)@,
            final(self).wf() == old(self).wf(),
    {
        self.error_mode = mode;
    }

    pub fn get_error_mode(&self) -> (r: ErrorDisplayMode)
        ensures
            r == self.mode(),
    {
        self.error_mode
    }

    /// Switches between brief and detailed error display and returns the new mode.
    pub fn toggle_error_mode(&mut self) -> (r: ErrorDisplayMode)
        ensures
            r == final(self).mode(),
            r == (if old(self).mode() == ErrorDisplayMode::Brief {
                ErrorDisplayMode::Detailed
            } else {
                ErrorDisplayMode::Brief
            }),
            final(self)@ == old(self)@,
            final(self).wf() == old(self).wf(),
    {
        self.error_mode = match self.error_mode {
            ErrorDisplayMode::Brief => ErrorDisplayMode::Detailed,
            ErrorDisplayMode::Detailed => ErrorDisplayMode::Brief,
        };
        self.error_mode
    }

    /// The message for an error in the current display mode.
    pub fn format_error(&self, error: &DbError) -> (r: String)
        ensures
            r@ == (if self.mode() == ErrorDisplayMode::Brief {
                brief_text(*error)
            } else {
                detailed_text(*error)
            }),
    {
        match self.error_mode {
            ErrorDisplayMode::Brief => error.brief_message(),
            ErrorDisplayMode::Detailed => error.detailed_message(),
        }
    }

    /// Parses and executes one statement; returns the text it prints (a result table, or
    /// nothing). Text that does not lex or parse changes nothing.
    pub fn execute_sql(&mut self, sql: &str) -> (r: Result<String, DbError>)
        requires
            old(self).wf(),
        ensures
            final(self).wf(),
            final(self).mode() == old(self).mode(),
            sql_effect(sql@, old(self)@, final(self)@, r),
    {
        let statement = match self.sql_parser.parse(sql) {
            Ok(s) => s,
            Err(e) => {
                return Err(e);
            },
        };
        let ghost st = statement;
        let mut executor = SqlExecutor::new();
        let r = executor.execute(&mut self.storage, statement);
        assert(executes(st, old(self)@, self@, r));
        proof {
            if let Ok(toks) = lex(sql@, 0) {
                let ts = significant(toks);
                assert(statement_matches(ts, st, statement_end(ts)->0));
            }
        }
        r
    }

    /// Like `execute_sql`, also telling whether a result table was produced.
    pub fn execute_sql_with_output(&mut self, sql: &str) -> (r: Result<(String, bool), DbError>)
        requires
            old(self).wf(),
        ensures
            final(self).wf(),
            final(self).mode() == old(self).mode(),
            sql_effect(sql@, old(self)@, final(self)@, text_of(r)),
            r matches Ok((text, shown)) ==> shown == (text@.len() > 0),
    {
        let text = self.execute_sql(sql)?;
        let shown = text.unicode_len() > 0;
        Ok((text, shown))
    }

    pub fn create_table(&mut self, name: String, columns: Vec<Column>) -> (r: Result<(), DbError>)
        requires
            old(self).wf(),
        ensures
            final(self).wf(),
            final(self).mode() == old(self).mode(),
            r is Ok <==> !has_table(old(self)@, name@),
            r matches Err(e) ==> e is TableError,
            r is Ok ==> final(self)@ == old(self)@.push(
                TableModel { name: name@, columns: columns_view(columns@), rows: Seq::empty() },
            ),
            r is Err ==> final(self)@ == old(self)@,
    {
        self.storage.create_table(Table::new(name, columns))
    }

    pub fn drop_table(&mut self, table_name: &str) -> (r: Result<(), DbError>)
        requires
            old(self).wf(),
        ensures
            final(self).wf(),
            final(self).mode() == old(self).mode(),
            r is Ok <==> has_table(old(self)@, table_name@),
            r matches Err(e) ==> e is TableError,
            r is Ok ==> final(self)@ == old(self)@.remove(table_pos(old(self)@, table_name@)),
            r is Err ==> final(self)@ == old(self)@,
    {
        self.storage.drop_table(table_name)
    }

    pub fn get_table(&self, table_name: &str) -> (r: Result<Option<&Table>, DbError>)
        requires
            self.wf(),
        ensures
            r matches Ok(o) && (o is Some <==> has_table(self@, table_name@)),
            r matches Ok(Some(t)) ==> t@ == self@[table_pos(self@, table_name@)],
    {
        Ok(self.storage.get_table(table_name))
    }

    pub fn list_tables(&self) -> (r: Result<Vec<String>, DbError>)
        ensures
            r matches Ok(names) && names@.len() == self@.len(),
            r matches Ok(names) ==> forall|i: int| 0 <= i < names@.len() ==> (#[trigger] names@[i])@ == self@[i].name,
    {
        Ok(self.storage.list_tables())
    }

    /// Appends a row to a table after validation.
    pub fn insert_row(&mut self, table_name: &str, row: Vec<DataType>) -> (r: Result<(), DbError>)
        requires
            old(self).wf(),
        ensures
            final(self).wf(),
            final(self).mode() == old(self).mode(),
            !has_table(old(self)@, table_name@) ==> (r matches Err(e) && e is TableError),
            has_table(old(self)@, table_name@) ==> {
                let i = table_pos(old(self)@, table_name@);
                let t = old(self)@[i];
                &&& r is Ok <==> t.accepts(crate::types::row_view(row@))
                &&& r matches Err(e) ==> e matches DbError::TypeError(te) && crate::types::explains(
                    t,
                    crate::types::row_view(row@),
                    te,
                )
                &&& r is Ok ==> final(self)@ == old(self)@.update(
                    i,
                    TableModel { rows: t.rows.push(crate::types::row_view(row@)), ..t },
                )
            },
            r is Err ==> final(self)@ == old(self)@,
    {
        self.storage.insert_row(table_name, row)
    }

    pub fn delete_row(&mut self, table_name: &str, row_index: usize) -> (r: Result<(), DbError>)
        requires
            old(self).wf(),
        ensures
            final(self).wf(),
            final(self).mode() == old(self).mode(),
            r is Ok <==> has_table(old(self)@, table_name@) && row_index < old(self)@[table_pos(
                old(self)@,
                table_name@,
            )].rows.len(),
            r is Ok ==> {
                let i = table_pos(old(self)@, table_name@);
                let t = old(self)@[i];
                final(self)@ == old(self)@.update(i, TableModel { rows: t.rows.remove(row_index as int), ..t })
            },
            r is Err ==> final(self)@ == old(self)@,
            r matches Err(e) ==> e is TableError,
    {
        self.storage.delete_row(table_name, row_index)
    }

    pub fn update_row(&mut self, table_name: &str, row_index: usize, row: Vec<DataType>) -> (r: Result<(), DbError>)
        requires
            old(self).wf(),
        ensures
            final(self).wf(),
            final(self).mode() == old(self).mode(),
            !has_table(old(self)@, table_name@) ==> r is Err,
            has_table(old(self)@, table_name@) ==> {
                let i = table_pos(old(self)@, table_name@);
                let t = old(self)@[i];
                let rows = t.rows.update(row_index as int, crate::types::row_view(row@));
                &&& row_index >= t.rows.len() ==> r is Err
                &&& row_index < t.rows.len() ==> (r is Ok <==> crate::types::rows_wf(t.columns, rows))
                &&& r is Ok ==> final(self)@ == old(self)@.update(i, TableModel { rows, ..t })
            },
            r is Err ==> final(self)@ == old(self)@,
    {
        self.storage.update_row(table_name, row_index, row)
    }

    /// Copies of all tables, for the embedding program to persist.
    pub fn save(&self) -> (r: Result<Vec<Table>, DbError>)
        ensures
            r matches Ok(ts) && tables_view(ts@) == self@,
    {
        Ok(self.storage.snapshot())
    }

    /// Replaces all tables by those read back from persistent storage, after checking
    /// their invariants and that names are unique; on error nothing changes.
    pub fn load(&mut self, tables: Vec<Table>) -> (r: Result<(), DbError>)
        requires
            old(self).wf(),
        ensures
            final(self).wf(),
            final(self).mode() == old(self).mode(),
            r is Ok <==> catalog_wf(tables_view(tables@)),
            r is Ok ==> final(self)@ == tables_view(tables@),
            r is Err ==> final(self)@ == old(self)@,
    {
        self.storage.replace_all(tables)
    }

    /// Starts a transaction over this database's catalog; see `commit_transaction`.
    pub fn begin_transaction(&mut self) -> (r: Transaction)
        ensures
            r.pending().len() == 0,
            final(self)@ == old(self)@,
            final(self).wf() == old(self).wf(),
            final(self).mode() == old(self).mode(),
    {
        Transaction::new()
    }

    /// Applies a transaction's recorded changes to this database.
    pub fn commit_transaction(&mut self, transaction: Transaction) -> (r: Result<(), DbError>)
        requires
            old(self).wf(),
        ensures
            final(self).wf(),
            final(self).mode() == old(self).mode(),
            final(self)@ == crate::transaction::apply_changes(
                old(self)@,
                transaction.pending(),
                transaction.pending().len() as int,
            ).0,
    {
        transaction.commit(&mut self.storage)
    }

    /// The directory of a file-backed database; `db` for one held in memory.
    pub fn get_storage_path(&self) -> (r: String)
        ensures
            r@ == (match self.location() {
                Some(p) => p,
                None => "db"@,
            }),
    {
        match &self.path {
            Some(p) => p.clone(),
            None => get_default_db_path(),
        }
    }

    /// The catalog, for reading.
    pub fn storage(&self) -> (r: &MemoryStorage)
        ensures
            r@ == self@,
            r.wf() == self.wf(),
    {
        &self.storage
    }
}

/// The default database directory.
pub fn get_default_db_path() -> (r: String)
    ensures
        r@ == "db"@,
{
    "db".to_owned()
}

} // verus!
