use vstd::prelude::*;

use crate::types::{Column, DataType, Value};

verus! {

/// A parsed SQL statement.
#[derive(Debug)]
pub enum SqlStatement {
    CreateTable { name: String, columns: Vec<Column> },
    DropTable { name: String },
    DropTables { names: Vec<String> },
    Insert { table: String, values: Vec<DataType> },
    InsertMultiple { table: String, rows: Vec<Vec<DataType>> },
    InsertWithColumns { table: String, columns: Vec<String>, rows: Vec<Vec<DataType>> },
    Update { table: String, set: Vec<(String, DataType)>, where_clause: Option<WhereClause> },
    Delete { table: String, where_clause: Option<WhereClause> },
    Select {
        columns: Vec<String>,
        table: String,
        where_clause: Option<WhereClause>,
        order_by: Option<OrderBy>,
    },
    /// A projection without `FROM`, evaluated once on an empty row.
    SelectExpression { expressions: Vec<Expression> },
    SelectWithExpressions {
        expressions: Vec<Expression>,
        table: String,
        where_clause: Option<WhereClause>,
        order_by: Option<OrderBy>,
    },
}

/// A row filter.
#[derive(Debug)]
pub enum WhereClause {
    /// `column op literal`, or `column IS [NOT] NULL`.
    Simple { column: String, operator: Operator, value: DataType },
    /// `expr op expr`.
    Expression { left: Expression, operator: Operator, right: Expression },
    And { left: Box<WhereClause>, right: Box<WhereClause> },
    Or { left: Box<WhereClause>, right: Box<WhereClause> },
}

/// The mathematical content of a condition.
pub enum WhereModel {
    Simple(Seq<char>, Operator, Value),
    Compare(ExprModel, Operator, ExprModel),
    And(Box<WhereModel>, Box<WhereModel>),
    Or(Box<WhereModel>, Box<WhereModel>),
}

pub open spec fn where_model(w: WhereClause) -> WhereModel
    decreases w,
{
    match w {
        WhereClause::Simple { column, operator, value } => WhereModel::Simple(column@, operator, value@),
        WhereClause::Expression { left, operator, right } => WhereModel::Compare(
            expr_model(left),
            operator,
            expr_model(right),
        ),
        WhereClause::And { left, right } => WhereModel::And(
            Box::new(where_model(*left)),
            Box::new(where_model(*right)),
        ),
        WhereClause::Or { left, right } => WhereModel::Or(
            Box::new(where_model(*left)),
            Box::new(where_model(*right)),
        ),
    }
}

#[derive(Debug, Clone, Copy, PartialEq, Eq, Structural)]
pub enum Operator {
    Eq,
    Ne,
    Gt,
    Lt,
    Ge,
    Le,
    IsNull,
    IsNotNull,
}

/// An arithmetic expression over literals and column references.
#[derive(Debug)]
pub enum Expression {
    Literal(DataType),
    Column(String),
    Binary { left: Box<Expression>, operator: ArithmeticOperator, right: Box<Expression> },
}

/// The mathematical content of an expression.
pub enum ExprModel {
    Literal(Value),
    Column(Seq<char>),
    Binary(Box<ExprModel>, ArithmeticOperator, Box<ExprModel>),
}

pub open spec fn expr_model(e: Expression) -> ExprModel
    decreases e,
{
    match e {
        Expression::Literal(v) => ExprModel::Literal(v@),
        Expression::Column(name) => ExprModel::Column(name@),
        Expression::Binary { left, operator, right } => ExprModel::Binary(
            Box::new(expr_model(*left)),
            operator,
            Box::new(expr_model(*right)),
        ),
    }
}

#[derive(Debug, Clone, Copy, PartialEq, Eq, Structural)]
pub enum ArithmeticOperator {
    Add,
    Subtract,
    Multiply,
    Divide,
}

#[derive(Debug, Clone, Copy, PartialEq, Eq, Structural)]
pub enum SortDirection {
    Asc,
    Desc,
}

#[derive(Debug)]
pub struct OrderBy {
    pub column: String,
    pub direction: SortDirection,
}

} // verus!
