use vstd::prelude::*;

use crate::text::{nat_text, push_nat, push_str};
use crate::types::{value_text, ColumnType, TypeError};

verus! {

/// Every failure the engine reports.
#[derive(Debug, Clone)]
pub enum DbError {
    /// The storage medium failed; the message comes from the medium.
    IoError(String),
    /// A persisted document was malformed.
    Serialization(String),
    /// A table is absent or duplicated, or a row index is out of range.
    TableError(String),
    /// A row was refused by a table.
    TypeError(TypeError),
    /// Lexing, parsing or evaluation failed.
    SqlError(String),
    /// Reserved for transaction failures.
    TransactionError(String),
}

pub open spec fn column_type_text(t: ColumnType) -> Seq<char> {
    match t {
        ColumnType::Int(_) => "INT"@,
        ColumnType::Varchar(n) => "VARCHAR("@ + nat_text(n as nat) + ")"@,
    }
}

pub open spec fn type_error_text(e: TypeError) -> Seq<char> {
    match e {
        TypeError::TypeMismatch { expected, actual } => "Type mismatch: expected "@ + column_type_text(
            expected,
        ) + ", found "@ + value_text(actual@),
        TypeError::StringLengthExceeded { max_length, actual_length } => "String too long: maximum length "@
            + nat_text(max_length as nat) + ", actual length "@ + nat_text(actual_length as nat),
        TypeError::NullValue(name) => "Error: Field '"@ + name@ + "' doesn't have a default value"@,
        TypeError::PrimaryKeyViolation(v) => "Error: Duplicate entry '"@ + v@ + "' for key 'PRIMARY'"@,
    }
}

pub open spec fn detailed_text(e: DbError) -> Seq<char> {
    match e {
        DbError::IoError(m) => "IO error: "@ + m@,
        DbError::Serialization(m) => "Serialization error: "@ + m@,
        DbError::TableError(m) => "Table error: "@ + m@,
        DbError::TypeError(t) => type_error_text(t),
        DbError::SqlError(m) => "SQL syntax error: "@ + m@,
        DbError::TransactionError(m) => "Transaction error: "@ + m@,
    }
}

pub open spec fn brief_text(e: DbError) -> Seq<char> {
    match e {
        DbError::IoError(_) => "Error: IO error"@,
        DbError::Serialization(_) => "Error: Serialization error"@,
        DbError::TableError(_) => "Error: Table error"@,
        DbError::TypeError(t) => type_error_text(t),
        DbError::SqlError(_) => "Error: Syntax error"@,
        DbError::TransactionError(_) => "Error: Transaction error"@,
    }
}

fn column_type_string(t: ColumnType) -> (r: String)
    ensures
        r@ == column_type_text(t),
{
    match t {
        ColumnType::Int(_) => "INT".to_owned(),
        ColumnType::Varchar(n) => {
            let mut s = "VARCHAR(".to_owned();
            push_nat(&mut s, n as u64);
            push_str(&mut s, ")");
            s
        },
    }
}

impl TypeError {
    /// The message shown for this error, in either display mode.
    pub fn message(&self) -> (r: String)
        ensures
            r@ == type_error_text(*self),
    {
        match self {
            TypeError::TypeMismatch { expected, actual } => {
                let mut s = "Type mismatch: expected ".to_owned();
                let t = column_type_string(*expected);
                push_str(&mut s, t.as_str());
                push_str(&mut s, ", found ");
                let v = actual.to_text();
                push_str(&mut s, v.as_str());
                s
            },
            TypeError::StringLengthExceeded { max_length, actual_length } => {
                let mut s = "String too long: maximum length ".to_owned();
                push_nat(&mut s, *max_length as u64);
                push_str(&mut s, ", actual length ");
                push_nat(&mut s, *actual_length as u64);
                s
            },
            TypeError::NullValue(name) => {
                let mut s = "Error: Field '".to_owned();
                push_str(&mut s, name.as_str());
                push_str(&mut s, "' doesn't have a default value");
                s
            },
            TypeError::PrimaryKeyViolation(v) => {
                let mut s = "Error: Duplicate entry '".to_owned();
                push_str(&mut s, v.as_str());
                push_str(&mut s, "' for key 'PRIMARY'");
                s
            },
        }
    }
}

fn prefixed(prefix: &str, m: &String) -> (r: String)
    ensures
        r@ == prefix@ + m@,
{
    let mut s = prefix.to_owned();
    push_str(&mut s, m.as_str());
    s
}

impl DbError {
    /// The full message, with the error's context.
    pub fn detailed_message(&self) -> (r: String)
        ensures
            r@ == detailed_text(*self),
    {
        match self {
            DbError::IoError(m) => prefixed("IO error: ", m),
            DbError::Serialization(m) => prefixed("Serialization error: ", m),
            DbError::TableError(m) => prefixed("Table error: ", m),
            DbError::TypeError(t) => t.message(),
            DbError::SqlError(m) => prefixed("SQL syntax error: ", m),
            DbError::TransactionError(m) => prefixed("Transaction error: ", m),
        }
    }

    /// A short fixed message per kind; constraint violations keep their full text.
    pub fn brief_message(&self) -> (r: String)
        ensures
            r@ == brief_text(*self),
    {
        match self {
            DbError::IoError(_) => "Error: IO error".to_owned(),
            DbError::Serialization(_) => "Error: Serialization error".to_owned(),
            DbError::TableError(_) => "Error: Table error".to_owned(),
            DbError::TypeError(t) => t.message(),
            DbError::SqlError(_) => "Error: Syntax error".to_owned(),
            DbError::TransactionError(_) => "Error: Transaction error".to_owned(),
        }
    }
}

} // verus!
