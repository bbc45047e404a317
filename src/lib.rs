//! An embeddable relational micro-database driven by a small subset of SQL: a lexer, a
//! recursive-descent parser, a catalog of typed tables that enforces its constraints on
//! every change, an executor, and a table formatter, each with a verified contract.

use vstd::prelude::*;

pub mod catalog;
pub mod db;
pub mod error;
pub mod eval;
pub mod executor;
pub mod formatter;
pub mod laws;
pub mod lexer;
pub mod order;
pub mod parser;
pub mod script;
pub mod sql;
pub mod text;
pub mod transaction;
pub mod types;

pub use catalog::{MemoryStorage, Storage};
pub use db::{get_default_db_path, Database, ErrorDisplayMode, StorageType};
pub use error::DbError;
pub use eval::{evaluate_expression_without_storage, evaluate_where_clause};
pub use executor::SqlExecutor;
pub use formatter::TableFormatter;
pub use lexer::{Lexer, Token, TokenOf};
pub use parser::{Parser, SqlParser};
pub use script::{execute_sql, remove_comments, run_script, split_statements, SqlResult};
pub use sql::{ArithmeticOperator, Expression, Operator, OrderBy, SortDirection, SqlStatement, WhereClause};
pub use transaction::{Transaction, TransactionState};
pub use types::{Column, ColumnType, DataType, Table, TypeError};

verus! {

} // verus!
