use vstd::prelude::*;

use crate::error::DbError;
use crate::lexer::{lex, Lexer, Token, TokenModel, TokenOf};
use crate::sql::{
    expr_model, where_model, ArithmeticOperator, ExprModel, Expression, Operator, OrderBy, SortDirection,
    SqlStatement, WhereClause, WhereModel,
};
use crate::types::{Column, ColumnType, DataType, Value};

verus! {

/// A number naming each kind of token; payloads are not considered.
pub open spec fn tag_of(t: TokenModel) -> u8 {
    match t {
        TokenOf::Create => 0,
        TokenOf::Table => 1,
        TokenOf::Drop => 2,
        TokenOf::Insert => 3,
        TokenOf::Into => 4,
        TokenOf::Values => 5,
        TokenOf::Update => 6,
        TokenOf::SetKeyword => 7,
        TokenOf::Delete => 8,
        TokenOf::From => 9,
        TokenOf::Where => 10,
        TokenOf::Select => 11,
        TokenOf::Primary => 12,
        TokenOf::Key => 13,
        TokenOf::And => 14,
        TokenOf::Or => 15,
        TokenOf::Is => 16,
        TokenOf::Not => 17,
        TokenOf::Null => 18,
        TokenOf::Order => 19,
        TokenOf::By => 20,
        TokenOf::Asc => 21,
        TokenOf::Desc => 22,
        TokenOf::Eq => 23,
        TokenOf::Ne => 24,
        TokenOf::Gt => 25,
        TokenOf::Lt => 26,
        TokenOf::Ge => 27,
        TokenOf::Le => 28,
        TokenOf::Plus => 29,
        TokenOf::Minus => 30,
        TokenOf::Asterisk => 31,
        TokenOf::Slash => 32,
        TokenOf::Comma => 33,
        TokenOf::Semicolon => 34,
        TokenOf::LParen => 35,
        TokenOf::RParen => 36,
        TokenOf::Identifier(_) => 37,
        TokenOf::String(_) => 38,
        TokenOf::Number(_) => 39,
        TokenOf::Comment(_) => 40,
        TokenOf::MultiLineComment(_) => 41,
    }
}

fn tag(t: &Token) -> (r: u8)
    ensures
        r == tag_of(t@),
{
    match t {
            TokenOf::Create => 0,
            TokenOf::Table => 1,
            TokenOf::Drop => 2,
            TokenOf::Insert => 3,
            TokenOf::Into => 4,
            TokenOf::Values => 5,
            TokenOf::Update => 6,
            TokenOf::SetKeyword => 7,
            TokenOf::Delete => 8,
            TokenOf::From => 9,
            TokenOf::Where => 10,
            TokenOf::Select => 11,
            TokenOf::Primary => 12,
            TokenOf::Key => 13,
            TokenOf::And => 14,
            TokenOf::Or => 15,
            TokenOf::Is => 16,
            TokenOf::Not => 17,
            TokenOf::Null => 18,
            TokenOf::Order => 19,
            TokenOf::By => 20,
            TokenOf::Asc => 21,
            TokenOf::Desc => 22,
            TokenOf::Eq => 23,
            TokenOf::Ne => 24,
            TokenOf::Gt => 25,
            TokenOf::Lt => 26,
            TokenOf::Ge => 27,
            TokenOf::Le => 28,
            TokenOf::Plus => 29,
            TokenOf::Minus => 30,
            TokenOf::Asterisk => 31,
            TokenOf::Slash => 32,
            TokenOf::Comma => 33,
            TokenOf::Semicolon => 34,
            TokenOf::LParen => 35,
            TokenOf::RParen => 36,
            TokenOf::Identifier(_) => 37,
            TokenOf::String(_) => 38,
            TokenOf::Number(_) => 39,
            TokenOf::Comment(_) => 40,
            TokenOf::MultiLineComment(_) => 41,
    }
}

pub open spec fn is_comment(t: TokenModel) -> bool {
    t is Comment || t is MultiLineComment
}

/// The tokens that matter to the parser: comments removed.
pub open spec fn significant(ts: Seq<TokenModel>) -> Seq<TokenModel> {
    ts.filter(|t: TokenModel| !is_comment(t))
}

pub open spec fn primary_key_count(columns: Seq<Column>, n: int) -> int
    decreases n,
{
    if n <= 0 {
        0
    } else {
        primary_key_count(columns, n - 1) + if columns[n - 1].primary_key { 1int } else { 0 }
    }
}

/// Some expression is more than a bare column reference.
pub open spec fn not_all_columns(es: Seq<Expression>) -> bool {
    exists|i: int| 0 <= i < es.len() && !(#[trigger] es[i] is Column)
}

/// The projection is a single column named `*`.
pub open spec fn is_star_name(es: Seq<Expression>) -> bool {
    es.len() == 1 && (es[0] matches Expression::Column(c) && c@ == seq!['*'])
}

/// The statement kind that a leading keyword announces, with the shape the grammar
/// guarantees.
pub open spec fn well_formed(first: TokenModel, s: SqlStatement) -> bool {
    match s {
        SqlStatement::CreateTable { columns, .. } => first is Create && columns@.len() >= 1 && primary_key_count(
            columns@,
            columns@.len() as int,
        ) <= 1,
        SqlStatement::DropTable { .. } => first is Drop,
        SqlStatement::DropTables { names } => first is Drop && names@.len() >= 2,
        SqlStatement::Insert { .. } => first is Insert,
        SqlStatement::InsertMultiple { rows, .. } => first is Insert && rows@.len() >= 2,
        SqlStatement::InsertWithColumns { columns, rows, .. } => first is Insert && columns@.len() >= 1
            && rows@.len() >= 1,
        SqlStatement::Update { set, .. } => first is Update && set@.len() >= 1,
        SqlStatement::Delete { .. } => first is Delete,
        SqlStatement::Select { columns, .. } => first is Select && columns@.len() >= 1,
        SqlStatement::SelectExpression { expressions } => first is Select && expressions@.len() >= 1,
        SqlStatement::SelectWithExpressions { expressions, .. } => first is Select && expressions@.len() >= 1
            && (not_all_columns(expressions@) || is_star_name(expressions@)),
    }
}

// ---------------------------------------------------------------- expression grammar
//
//   expr    := term (('+' | '-') term)*
//   term    := primary (('*' | '/') primary)*
//   primary := number | string | NULL | name | '(' expr ')'
//
// Each function gives the expression read from position `p` and the position after it.

pub open spec fn primary_at(ts: Seq<TokenModel>, p: int) -> Option<(ExprModel, int)>
    decreases ts.len() - p, 0nat,
{
    if p < 0 || p >= ts.len() {
        None
    } else {
        match ts[p] {
            TokenOf::Number(n) => Some((ExprModel::Literal(Value::Int(n)), p + 1)),
            TokenOf::String(s) => Some((ExprModel::Literal(Value::Text(s)), p + 1)),
            TokenOf::Null => Some((ExprModel::Literal(Value::Null), p + 1)),
            TokenOf::Identifier(x) => Some((ExprModel::Column(x), p + 1)),
            TokenOf::LParen => match expr_at(ts, p + 1) {
                Some((e, q)) => if p < q < ts.len() && ts[q] is RParen {
                    Some((e, q + 1))
                } else {
                    None
                },
                None => None,
            },
            _ => None,
        }
    }
}

pub open spec fn product_op(t: TokenModel) -> Option<ArithmeticOperator> {
    match t {
        TokenOf::Asterisk => Some(ArithmeticOperator::Multiply),
        TokenOf::Slash => Some(ArithmeticOperator::Divide),
        _ => None,
    }
}

pub open spec fn sum_op(t: TokenModel) -> Option<ArithmeticOperator> {
    match t {
        TokenOf::Plus => Some(ArithmeticOperator::Add),
        TokenOf::Minus => Some(ArithmeticOperator::Subtract),
        _ => None,
    }
}

/// The rest of a term after `acc`: further factors combine to the left.
pub open spec fn term_rest(ts: Seq<TokenModel>, p: int, acc: ExprModel) -> Option<(ExprModel, int)>
    decreases ts.len() - p, 1nat,
{
    if 0 <= p < ts.len() && product_op(ts[p]) is Some {
        match primary_at(ts, p + 1) {
            Some((r, q)) => if p < q <= ts.len() {
                term_rest(ts, q, ExprModel::Binary(Box::new(acc), product_op(ts[p])->0, Box::new(r)))
            } else {
                None
            },
            None => None,
        }
    } else {
        Some((acc, p))
    }
}

pub open spec fn term_at(ts: Seq<TokenModel>, p: int) -> Option<(ExprModel, int)>
    decreases ts.len() - p, 2nat,
{
    match primary_at(ts, p) {
        Some((l, q)) => if p < q <= ts.len() {
            term_rest(ts, q, l)
        } else {
            None
        },
        None => None,
    }
}

/// The rest of an expression after `acc`: further terms combine to the left.
pub open spec fn expr_rest(ts: Seq<TokenModel>, p: int, acc: ExprModel) -> Option<(ExprModel, int)>
    decreases ts.len() - p, 3nat,
{
    if 0 <= p < ts.len() && sum_op(ts[p]) is Some {
        match term_at(ts, p + 1) {
            Some((r, q)) => if p < q <= ts.len() {
                expr_rest(ts, q, ExprModel::Binary(Box::new(acc), sum_op(ts[p])->0, Box::new(r)))
            } else {
                None
            },
            None => None,
        }
    } else {
        Some((acc, p))
    }
}

pub open spec fn expr_at(ts: Seq<TokenModel>, p: int) -> Option<(ExprModel, int)>
    decreases ts.len() - p, 4nat,
{
    match term_at(ts, p) {
        Some((l, q)) => if p < q <= ts.len() {
            expr_rest(ts, q, l)
        } else {
            None
        },
        None => None,
    }
}

// ---------------------------------------------------------------- condition grammar
//
//   or_cond   := and_cond [OR or_cond]
//   and_cond  := condition [AND and_cond]
//   condition := '(' or_cond ')' | expr IS [NOT] NULL | expr cmp expr

pub open spec fn comparison_op(t: TokenModel) -> Option<Operator> {
    match t {
        TokenOf::Eq => Some(Operator::Eq),
        TokenOf::Ne => Some(Operator::Ne),
        TokenOf::Gt => Some(Operator::Gt),
        TokenOf::Lt => Some(Operator::Lt),
        TokenOf::Ge => Some(Operator::Ge),
        TokenOf::Le => Some(Operator::Le),
        _ => None,
    }
}

/// A comparison, kept in the simple form when a column is compared with a literal.
pub open spec fn comparison(l: ExprModel, op: Operator, r: ExprModel) -> WhereModel {
    match (l, r) {
        (ExprModel::Column(c), ExprModel::Literal(v)) => WhereModel::Simple(c, op, v),
        _ => WhereModel::Compare(l, op, r),
    }
}

pub open spec fn or_at(ts: Seq<TokenModel>, p: int) -> Option<(WhereModel, int)>
    decreases ts.len() - p, 2nat,
{
    match and_at(ts, p) {
        Some((l, q)) => if p <= q < ts.len() && ts[q] is Or {
            match or_at(ts, q + 1) {
                Some((r, q2)) => Some((WhereModel::Or(Box::new(l), Box::new(r)), q2)),
                None => None,
            }
        } else {
            Some((l, q))
        },
        None => None,
    }
}

pub open spec fn and_at(ts: Seq<TokenModel>, p: int) -> Option<(WhereModel, int)>
    decreases ts.len() - p, 1nat,
{
    match condition_at(ts, p) {
        Some((l, q)) => if p <= q < ts.len() && ts[q] is And {
            match and_at(ts, q + 1) {
                Some((r, q2)) => Some((WhereModel::And(Box::new(l), Box::new(r)), q2)),
                None => None,
            }
        } else {
            Some((l, q))
        },
        None => None,
    }
}

pub open spec fn condition_at(ts: Seq<TokenModel>, p: int) -> Option<(WhereModel, int)>
    decreases ts.len() - p, 0nat,
{
    if 0 <= p < ts.len() && ts[p] is LParen {
        match or_at(ts, p + 1) {
            Some((c, q)) => if 0 <= q < ts.len() && ts[q] is RParen {
                Some((c, q + 1))
            } else {
                None
            },
            None => None,
        }
    } else {
        match expr_at(ts, p) {
            None => None,
            Some((l, q)) => if 0 <= q < ts.len() && ts[q] is Is {
                let negated = q + 1 < ts.len() && ts[q + 1] is Not;
                let n = if negated { q + 2 } else { q + 1 };
                if 0 <= n < ts.len() && ts[n] is Null {
                    let op = if negated { Operator::IsNotNull } else { Operator::IsNull };
                    Some((comparison(l, op, ExprModel::Literal(Value::Null)), n + 1))
                } else {
                    None
                }
            } else if 0 <= q < ts.len() && comparison_op(ts[q]) is Some {
                match expr_at(ts, q + 1) {
                    Some((r, q2)) => Some((comparison(l, comparison_op(ts[q])->0, r), q2)),
                    None => None,
                }
            } else {
                None
            },
        }
    }
}

// ---------------------------------------------------------------- INSERT grammar
//
//   insert := INSERT INTO name ['(' name (',' name)* ')'] VALUES tuple (',' tuple)*
//   tuple  := '(' value (',' value)* ')'

pub open spec fn value_at(ts: Seq<TokenModel>, p: int) -> Option<Value> {
    if 0 <= p < ts.len() {
        match ts[p] {
            TokenOf::Number(n) => Some(Value::Int(n)),
            TokenOf::String(s) => Some(Value::Text(s)),
            TokenOf::Null => Some(Value::Null),
            _ => None,
        }
    } else {
        None
    }
}

/// The values of a tuple after `acc`, through the closing parenthesis.
pub open spec fn values_rest(ts: Seq<TokenModel>, p: int, acc: Seq<Value>) -> Option<(Seq<Value>, int)>
    decreases ts.len() - p,
{
    match value_at(ts, p) {
        None => None,
        Some(v) => if p + 1 < ts.len() && ts[p + 1] is Comma {
            values_rest(ts, p + 2, acc.push(v))
        } else if p + 1 < ts.len() && ts[p + 1] is RParen {
            Some((acc.push(v), p + 2))
        } else {
            None
        },
    }
}

pub open spec fn tuple_at(ts: Seq<TokenModel>, p: int) -> Option<(Seq<Value>, int)> {
    if 0 <= p < ts.len() && ts[p] is LParen {
        values_rest(ts, p + 1, Seq::empty())
    } else {
        None
    }
}

/// Further tuples after `acc`, each introduced by a comma.
pub open spec fn tuples_rest(ts: Seq<TokenModel>, p: int, acc: Seq<Seq<Value>>) -> Option<(Seq<Seq<Value>>, int)>
    decreases ts.len() - p,
{
    if 0 <= p < ts.len() && ts[p] is Comma {
        match tuple_at(ts, p + 1) {
            Some((t, q)) => if p < q <= ts.len() {
                tuples_rest(ts, q, acc.push(t))
            } else {
                None
            },
            None => None,
        }
    } else {
        Some((acc, p))
    }
}

/// The names of a column list after `acc`, through the closing parenthesis.
pub open spec fn names_rest(ts: Seq<TokenModel>, p: int, acc: Seq<Seq<char>>) -> Option<(Seq<Seq<char>>, int)>
    decreases ts.len() - p,
{
    if 0 <= p < ts.len() && ts[p] is Identifier {
        let acc2 = acc.push(ts[p]->Identifier_0);
        if p + 1 < ts.len() && ts[p + 1] is Comma {
            names_rest(ts, p + 2, acc2)
        } else if p + 1 < ts.len() && ts[p + 1] is RParen {
            Some((acc2, p + 2))
        } else {
            None
        }
    } else {
        None
    }
}

/// What an INSERT says: the table, the named columns (if listed), and the rows.
pub struct InsertModel {
    pub table: Seq<char>,
    pub columns: Option<Seq<Seq<char>>>,
    pub rows: Seq<Seq<Value>>,
}

pub open spec fn insert_at(ts: Seq<TokenModel>, p: int) -> Option<(InsertModel, int)> {
    if 0 <= p && p + 2 < ts.len() && ts[p] is Insert && ts[p + 1] is Into && ts[p + 2] is Identifier {
        let table = ts[p + 2]->Identifier_0;
        let listed = if p + 3 < ts.len() && ts[p + 3] is LParen {
            match names_rest(ts, p + 4, Seq::empty()) {
                Some((names, q)) => Some((Some(names), q)),
                None => None,
            }
        } else {
            Some((None, p + 3))
        };
        match listed {
            None => None,
            Some((columns, q)) => if 0 <= q < ts.len() && ts[q] is Values {
                match tuple_at(ts, q + 1) {
                    Some((first, q2)) => match tuples_rest(ts, q2, seq![first]) {
                        Some((rows, q3)) => Some((InsertModel { table, columns, rows }, q3)),
                        None => None,
                    },
                    None => None,
                }
            } else {
                None
            },
        }
    } else {
        None
    }
}

pub open spec fn rows_model(rows: Seq<Vec<DataType>>) -> Seq<Seq<Value>> {
    crate::types::rows_view(rows)
}

/// The INSERT that a statement is, if it is one.
pub open spec fn insert_model(s: SqlStatement) -> Option<InsertModel> {
    match s {
        SqlStatement::Insert { table, values } => Some(
            InsertModel { table: table@, columns: None, rows: seq![crate::types::row_view(values@)] },
        ),
        SqlStatement::InsertMultiple { table, rows } => Some(
            InsertModel { table: table@, columns: None, rows: rows_model(rows@) },
        ),
        SqlStatement::InsertWithColumns { table, columns, rows } => Some(
            InsertModel {
                table: table@,
                columns: Some(columns@.map_values(|c: String| c@)),
                rows: rows_model(rows@),
            },
        ),
        _ => None,
    }
}

// ---------------------------------------------------------------- SELECT grammar
//
//   select := SELECT '*' FROM name [WHERE or_cond] [ORDER BY name [ASC | DESC]]
//           | SELECT expr (',' expr)* [FROM name [WHERE or_cond] [ORDER BY name [ASC | DESC]]]

pub open spec fn where_opt(ts: Seq<TokenModel>, p: int) -> Option<(Option<WhereModel>, int)> {
    if 0 <= p < ts.len() && ts[p] is Where {
        match or_at(ts, p + 1) {
            Some((w, q)) => Some((Some(w), q)),
            None => None,
        }
    } else {
        Some((None, p))
    }
}

pub open spec fn order_opt(ts: Seq<TokenModel>, p: int) -> Option<(Option<(Seq<char>, SortDirection)>, int)> {
    if 0 <= p < ts.len() && ts[p] is Order {
        if p + 2 < ts.len() && ts[p + 1] is By && ts[p + 2] is Identifier {
            let c = ts[p + 2]->Identifier_0;
            if p + 3 < ts.len() && ts[p + 3] is Desc {
                Some((Some((c, SortDirection::Desc)), p + 4))
            } else if p + 3 < ts.len() && ts[p + 3] is Asc {
                Some((Some((c, SortDirection::Asc)), p + 4))
            } else {
                Some((Some((c, SortDirection::Asc)), p + 3))
            }
        } else {
            None
        }
    } else {
        Some((None, p))
    }
}

/// Further comma-separated expressions after `acc`.
pub open spec fn exprs_rest(ts: Seq<TokenModel>, p: int, acc: Seq<ExprModel>) -> Option<(Seq<ExprModel>, int)>
    decreases ts.len() - p,
{
    if 0 <= p < ts.len() && ts[p] is Comma {
        match expr_at(ts, p + 1) {
            Some((e, q)) => if p < q <= ts.len() {
                exprs_rest(ts, q, acc.push(e))
            } else {
                None
            },
            None => None,
        }
    } else {
        Some((acc, p))
    }
}

/// What a query says: its projection (`None` for `*`), its table (`None` without `FROM`),
/// its condition and its ordering.
pub struct SelectModel {
    pub items: Option<Seq<ExprModel>>,
    pub table: Option<Seq<char>>,
    pub where_clause: Option<WhereModel>,
    pub order_by: Option<(Seq<char>, SortDirection)>,
}

/// `FROM name [WHERE ...] [ORDER BY ...]` at `p`, for the given projection.
pub open spec fn from_clause(ts: Seq<TokenModel>, p: int, items: Option<Seq<ExprModel>>) -> Option<(SelectModel, int)> {
    if 0 <= p && p + 1 < ts.len() && ts[p] is From && ts[p + 1] is Identifier {
        match where_opt(ts, p + 2) {
            Some((w, q)) => match order_opt(ts, q) {
                Some((o, q2)) => Some(
                    (SelectModel { items, table: Some(ts[p + 1]->Identifier_0), where_clause: w, order_by: o }, q2),
                ),
                None => None,
            },
            None => None,
        }
    } else {
        None
    }
}

pub open spec fn select_at(ts: Seq<TokenModel>, p: int) -> Option<(SelectModel, int)> {
    if 0 <= p < ts.len() && ts[p] is Select {
        if p + 1 < ts.len() && ts[p + 1] is Asterisk {
            from_clause(ts, p + 2, None)
        } else {
            match expr_at(ts, p + 1) {
                Some((first, q)) => match exprs_rest(ts, q, seq![first]) {
                    Some((items, q2)) => if 0 <= q2 < ts.len() && ts[q2] is From {
                        from_clause(ts, q2, Some(items))
                    } else {
                        Some((SelectModel { items: Some(items), table: None, where_clause: None, order_by: None }, q2))
                    },
                    None => None,
                },
                None => None,
            }
        }
    } else {
        None
    }
}

pub open spec fn where_opt_model(w: Option<WhereClause>) -> Option<WhereModel> {
    match w {
        Some(c) => Some(where_model(c)),
        None => None,
    }
}

pub open spec fn exprs_model(es: Seq<Expression>) -> Seq<ExprModel> {
    es.map_values(|e: Expression| expr_model(e))
}

pub open spec fn order_model(o: Option<OrderBy>) -> Option<(Seq<char>, SortDirection)> {
    match o {
        Some(ob) => Some((ob.column@, ob.direction)),
        None => None,
    }
}

/// The query that a statement is, if it is one.
pub open spec fn select_model(s: SqlStatement) -> Option<SelectModel> {
    match s {
        SqlStatement::Select { columns, table, where_clause, order_by } => Some(
            SelectModel {
                items: if columns@.len() == 1 && columns@[0]@ == seq!['*'] {
                    None
                } else {
                    Some(columns@.map_values(|c: String| ExprModel::Column(c@)))
                },
                table: Some(table@),
                where_clause: where_opt_model(where_clause),
                order_by: order_model(order_by),
            },
        ),
        SqlStatement::SelectExpression { expressions } => Some(
            SelectModel { items: Some(exprs_model(expressions@)), table: None, where_clause: None, order_by: None },
        ),
        SqlStatement::SelectWithExpressions { expressions, table, where_clause, order_by } => Some(
            SelectModel {
                items: Some(exprs_model(expressions@)),
                table: Some(table@),
                where_clause: where_opt_model(where_clause),
                order_by: order_model(order_by),
            },
        ),
        _ => None,
    }
}

// ---------------------------------------------------------------- UPDATE and DELETE grammar
//
//   update := UPDATE name SET name '=' value (',' name '=' value)* [WHERE or_cond]
//   delete := DELETE FROM name [WHERE or_cond]

pub open spec fn assignment_at(ts: Seq<TokenModel>, p: int) -> Option<(Seq<char>, Value)> {
    if 0 <= p && p + 1 < ts.len() && ts[p] is Identifier && ts[p + 1] is Eq {
        match value_at(ts, p + 2) {
            Some(v) => Some((ts[p]->Identifier_0, v)),
            None => None,
        }
    } else {
        None
    }
}

/// Further assignments after `acc`, each introduced by a comma.
pub open spec fn assignments_rest(ts: Seq<TokenModel>, p: int, acc: Seq<(Seq<char>, Value)>) -> Option<
    (Seq<(Seq<char>, Value)>, int),
>
    decreases ts.len() - p,
{
    if 0 <= p < ts.len() && ts[p] is Comma {
        match assignment_at(ts, p + 1) {
            Some(a) => assignments_rest(ts, p + 4, acc.push(a)),
            None => None,
        }
    } else {
        Some((acc, p))
    }
}

pub struct UpdateModel {
    pub table: Seq<char>,
    pub set: Seq<(Seq<char>, Value)>,
    pub where_clause: Option<WhereModel>,
}

pub open spec fn update_at(ts: Seq<TokenModel>, p: int) -> Option<(UpdateModel, int)> {
    if 0 <= p && p + 2 < ts.len() && ts[p] is Update && ts[p + 1] is Identifier && ts[p + 2] is SetKeyword {
        match assignment_at(ts, p + 3) {
            Some(a) => match assignments_rest(ts, p + 6, seq![a]) {
                Some((set, q)) => match where_opt(ts, q) {
                    Some((w, q2)) => Some(
                        (UpdateModel { table: ts[p + 1]->Identifier_0, set, where_clause: w }, q2),
                    ),
                    None => None,
                },
                None => None,
            },
            None => None,
        }
    } else {
        None
    }
}

pub open spec fn delete_at(ts: Seq<TokenModel>, p: int) -> Option<((Seq<char>, Option<WhereModel>), int)> {
    if 0 <= p && p + 2 < ts.len() && ts[p] is Delete && ts[p + 1] is From && ts[p + 2] is Identifier {
        match where_opt(ts, p + 3) {
            Some((w, q)) => Some(((ts[p + 2]->Identifier_0, w), q)),
            None => None,
        }
    } else {
        None
    }
}

pub open spec fn set_model(set: Seq<(String, DataType)>) -> Seq<(Seq<char>, Value)> {
    set.map_values(|a: (String, DataType)| (a.0@, a.1@))
}

// ---------------------------------------------------------------- CREATE and DROP grammar
//
//   create := CREATE TABLE name '(' column (',' column)* ')'      (at most one PRIMARY KEY)
//   column := name type [NOT [NULL] | NULL] [PRIMARY KEY]
//   type   := INT ['(' number ')'] | VARCHAR '(' number ')'       (type names in any case)
//   drop   := DROP TABLE name (',' name)*

pub open spec fn size_at(ts: Seq<TokenModel>, p: int) -> Option<usize> {
    if 0 <= p && p + 2 < ts.len() && ts[p] is LParen && ts[p + 1] is Number && ts[p + 1]->Number_0 >= 0
        && ts[p + 2] is RParen {
        Some(ts[p + 1]->Number_0 as usize)
    } else {
        None
    }
}

pub open spec fn column_type_at(ts: Seq<TokenModel>, p: int) -> Option<(ColumnType, int)> {
    if 0 <= p < ts.len() && ts[p] is Identifier {
        let k = crate::lexer::upper(ts[p]->Identifier_0);
        if k == "INT"@ {
            if p + 1 < ts.len() && ts[p + 1] is LParen {
                match size_at(ts, p + 1) {
                    Some(n) => Some((ColumnType::Int(Some(n)), p + 4)),
                    None => None,
                }
            } else {
                Some((ColumnType::Int(None), p + 1))
            }
        } else if k == "VARCHAR"@ {
            match size_at(ts, p + 1) {
                Some(n) => Some((ColumnType::Varchar(n), p + 4)),
                None => None,
            }
        } else {
            None
        }
    } else {
        None
    }
}

/// `NOT [NULL]` makes a column non-nullable; `NULL` or nothing leaves it nullable.
pub open spec fn nullable_at(ts: Seq<TokenModel>, p: int) -> (bool, int) {
    if 0 <= p < ts.len() && ts[p] is Not {
        (false, if p + 1 < ts.len() && ts[p + 1] is Null { p + 2 } else { p + 1 })
    } else if 0 <= p < ts.len() && ts[p] is Null {
        (true, p + 1)
    } else {
        (true, p)
    }
}

pub open spec fn primary_key_at(ts: Seq<TokenModel>, p: int) -> Option<(bool, int)> {
    if 0 <= p < ts.len() && ts[p] is Primary {
        if p + 1 < ts.len() && ts[p + 1] is Key {
            Some((true, p + 2))
        } else {
            None
        }
    } else {
        Some((false, p))
    }
}

pub open spec fn column_at(ts: Seq<TokenModel>, p: int) -> Option<(crate::types::ColumnModel, int)> {
    if 0 <= p < ts.len() && ts[p] is Identifier {
        match column_type_at(ts, p + 1) {
            Some((t, q)) => {
                let (nullable, q2) = nullable_at(ts, q);
                match primary_key_at(ts, q2) {
                    Some((pk, q3)) => Some(
                        (
                            crate::types::ColumnModel {
                                name: ts[p]->Identifier_0,
                                data_type: t,
                                nullable,
                                primary_key: pk,
                            },
                            q3,
                        ),
                    ),
                    None => None,
                }
            },
            None => None,
        }
    } else {
        None
    }
}

/// The columns of a column list after `acc`, from the separator after a column through the
/// closing parenthesis.
pub open spec fn columns_rest(ts: Seq<TokenModel>, p: int, acc: Seq<crate::types::ColumnModel>) -> Option<
    (Seq<crate::types::ColumnModel>, int),
>
    decreases ts.len() - p,
{
    if 0 <= p < ts.len() && ts[p] is Comma {
        match column_at(ts, p + 1) {
            Some((c, q)) => if p < q <= ts.len() {
                columns_rest(ts, q, acc.push(c))
            } else {
                None
            },
            None => None,
        }
    } else if 0 <= p < ts.len() && ts[p] is RParen {
        Some((acc, p + 1))
    } else {
        None
    }
}

pub open spec fn key_count(cs: Seq<crate::types::ColumnModel>, n: int) -> int
    decreases n,
{
    if n <= 0 {
        0
    } else {
        key_count(cs, n - 1) + if cs[n - 1].primary_key { 1int } else { 0 }
    }
}

/// No two columns share a name.
pub open spec fn distinct_names(cs: Seq<crate::types::ColumnModel>) -> bool {
    forall|i: int, j: int| 0 <= i < j < cs.len() ==> #[trigger] cs[i].name != #[trigger] cs[j].name
}

pub open spec fn create_at(ts: Seq<TokenModel>, p: int) -> Option<((Seq<char>, Seq<crate::types::ColumnModel>), int)> {
    if 0 <= p && p + 3 < ts.len() && ts[p] is Create && ts[p + 1] is Table && ts[p + 2] is Identifier
        && ts[p + 3] is LParen {
        match column_at(ts, p + 4) {
            Some((c, q)) => match columns_rest(ts, q, seq![c]) {
                Some((cs, q2)) => if key_count(cs, cs.len() as int) <= 1 && distinct_names(cs) {
                    Some(((ts[p + 2]->Identifier_0, cs), q2))
                } else {
                    None
                },
                None => None,
            },
            None => None,
        }
    } else {
        None
    }
}

/// Further table names after `acc`, each introduced by a comma.
pub open spec fn table_names_rest(ts: Seq<TokenModel>, p: int, acc: Seq<Seq<char>>) -> Option<(Seq<Seq<char>>, int)>
    decreases ts.len() - p,
{
    if 0 <= p < ts.len() && ts[p] is Comma {
        if p + 1 < ts.len() && ts[p + 1] is Identifier {
            table_names_rest(ts, p + 2, acc.push(ts[p + 1]->Identifier_0))
        } else {
            None
        }
    } else {
        Some((acc, p))
    }
}

pub open spec fn drop_at(ts: Seq<TokenModel>, p: int) -> Option<(Seq<Seq<char>>, int)> {
    if 0 <= p && p + 2 < ts.len() && ts[p] is Drop && ts[p + 1] is Table && ts[p + 2] is Identifier {
        table_names_rest(ts, p + 3, seq![ts[p + 2]->Identifier_0])
    } else {
        None
    }
}

// ---------------------------------------------------------------- statements

/// Where the statement that starts the token sequence ends, by its first keyword.
pub open spec fn statement_end(ts: Seq<TokenModel>) -> Option<int> {
    if ts.len() == 0 {
        None
    } else {
        match ts[0] {
            TokenOf::Create => match create_at(ts, 0) {
                Some((_, q)) => Some(q),
                None => None,
            },
            TokenOf::Drop => match drop_at(ts, 0) {
                Some((_, q)) => Some(q),
                None => None,
            },
            TokenOf::Insert => match insert_at(ts, 0) {
                Some((_, q)) => Some(q),
                None => None,
            },
            TokenOf::Update => match update_at(ts, 0) {
                Some((_, q)) => Some(q),
                None => None,
            },
            TokenOf::Delete => match delete_at(ts, 0) {
                Some((_, q)) => Some(q),
                None => None,
            },
            TokenOf::Select => match select_at(ts, 0) {
                Some((_, q)) => Some(q),
                None => None,
            },
            _ => None,
        }
    }
}

/// The statement `s` is what the tokens say, ending at `end`.
pub open spec fn statement_matches(ts: Seq<TokenModel>, s: SqlStatement, end: int) -> bool {
    match s {
        SqlStatement::CreateTable { name, columns } => create_at(ts, 0) == Some(
            ((name@, crate::types::columns_view(columns@)), end),
        ),
        SqlStatement::DropTable { name } => drop_at(ts, 0) == Some((seq![name@], end)),
        SqlStatement::DropTables { names } => drop_at(ts, 0) == Some((names@.map_values(|n: String| n@), end)),
        SqlStatement::Update { table, set, where_clause } => update_at(ts, 0) == Some(
            (UpdateModel { table: table@, set: set_model(set@), where_clause: where_opt_model(where_clause) }, end),
        ),
        SqlStatement::Delete { table, where_clause } => delete_at(ts, 0) == Some(
            ((table@, where_opt_model(where_clause)), end),
        ),
        SqlStatement::Insert { .. } | SqlStatement::InsertMultiple { .. } | SqlStatement::InsertWithColumns {
            ..
        } => insert_model(s) is Some && insert_at(ts, 0) == Some((insert_model(s)->0, end)),
        _ => select_model(s) is Some && select_at(ts, 0) == Some((select_model(s)->0, end)),
    }
}

/// After the statement: nothing, or a single `;`.
pub open spec fn ends_at(ts: Seq<TokenModel>, q: int) -> bool {
    q == ts.len() || (q + 1 == ts.len() && 0 <= q && ts[q] is Semicolon)
}

pub open spec fn token_models(ts: Seq<Token>) -> Seq<TokenModel> {
    ts.map_values(|t: Token| t@)
}

fn syntax(m: &str) -> (r: DbError)
    ensures
        r is SqlError,
{
    DbError::SqlError(m.to_owned())
}

/// A recursive-descent parser over a token sequence.
pub struct Parser {
    tokens: Vec<Token>,
    position: usize,
}

impl Parser {
    pub fn new() -> Parser {
        Parser { tokens: Vec::new(), position: 0 }
    }

    /// Parses one statement from a token sequence (comments are ignored). An optional `;`
    /// may end the statement; anything after it is an error.
    pub fn parse(&mut self, tokens: Vec<Token>) -> (r: Result<SqlStatement, DbError>)
        ensures
            ({
                let ts = significant(tokens@.map_values(|t: Token| t@));
                &&& r is Ok <==> (statement_end(ts) matches Some(q) && ends_at(ts, q))
                &&& r matches Ok(s) ==> well_formed(ts[0], s) && statement_matches(ts, s, statement_end(ts)->0)
                &&& r matches Err(e) ==> e is SqlError
            }),
    {
        let ghost all = tokens@.map_values(|t: Token| t@);
        let mut kept: Vec<Token> = Vec::new();
        let mut i: usize = 0;
        let source = tokens;
        assert(all.take(0).filter(|t: TokenModel| !is_comment(t)) =~= Seq::<TokenModel>::empty());
        while i < source.len()
            invariant
                i <= source@.len(),
                all == source@.map_values(|t: Token| t@),
                kept@.map_values(|t: Token| t@) == all.take(i as int).filter(|t: TokenModel| !is_comment(t)),
            decreases source.len() - i,
        {
            let t = source[i].copy();
            let ghost before = kept@.map_values(|t: Token| t@);
            assert(all.take(i + 1).drop_last() =~= all.take(i as int));
            assert(all.take(i + 1).last() == t@);
            proof {
                reveal(Seq::filter);
            }
            if !(t.is_comment_token()) {
                kept.push(t);
                assert(kept@.map_values(|t: Token| t@) =~= before.push(t@));
            }
            i += 1;
        }
        assert(all.take(source@.len() as int) =~= all);
        self.tokens = kept;
        self.position = 0;
        let ghost ts = token_models(self.tokens@);
        assert(ts == significant(all));
        if self.tokens.len() == 0 {
            return Err(syntax("empty statement"));
        }
        let r = self.parse_statement();
        match r {
            Ok(s) => {
                let ghost q = self.position as int;
                proof {
                    if q < ts.len() {
                        assert(ts[q] == self.tokens@[q]@);
                    }
                }
                // an optional semicolon, then nothing
                if self.peek_is(&TokenOf::Semicolon) {
                    self.advance();
                }
                if self.position < self.tokens.len() {
                    return Err(syntax("unexpected token after statement"));
                }
                Ok(s)
            },
            Err(e) => Err(e),
        }
    }
}


spec fn moved(a: Parser, b: Parser) -> bool {
    &&& b.tokens@ == a.tokens@
    &&& a.position <= b.position <= b.tokens@.len()
}

spec fn valid(p: Parser) -> bool {
    p.position <= p.tokens@.len()
}

impl Parser {
    fn peek_is(&self, t: &Token) -> (r: bool)
        ensures
            r <==> self.position < self.tokens@.len() && tag_of(self.tokens@[self.position as int]@) == tag_of(t@),
    {
        self.position < self.tokens.len() && tag(&self.tokens[self.position]) == tag(t)
    }

    fn advance(&mut self)
        requires
            valid(*old(self)),
        ensures
            moved(*old(self), *final(self)),
            old(self).position < old(self).tokens@.len() ==> final(self).position == old(self).position + 1,
    {
        if self.position < self.tokens.len() {
            self.position = self.position + 1;
        }
    }

    fn next(&mut self) -> (r: Option<Token>)
        requires
            valid(*old(self)),
        ensures
            moved(*old(self), *final(self)),
            r is Some ==> final(self).position == old(self).position + 1,
            r matches Some(t) ==> t@ == old(self).tokens@[old(self).position as int]@,
            r is None <==> old(self).position >= old(self).tokens@.len(),
    {
        if self.position < self.tokens.len() {
            let t = self.tokens[self.position].copy();
            self.position = self.position + 1;
            Some(t)
        } else {
            None
        }
    }

    fn expect(&mut self, expected: &Token) -> (r: Result<(), DbError>)
        requires
            valid(*old(self)),
        ensures
            moved(*old(self), *final(self)),
            r is Ok ==> final(self).position == old(self).position + 1,
            r is Ok <==> old(self).position < old(self).tokens@.len() && tag_of(
                old(self).tokens@[old(self).position as int]@,
            ) == tag_of(expected@),
            r matches Err(e) ==> e is SqlError,
    {
        if self.peek_is(expected) {
            self.advance();
            Ok(())
        } else {
            Err(syntax("unexpected token"))
        }
    }

    fn identifier(&mut self) -> (r: Result<String, DbError>)
        requires
            valid(*old(self)),
        ensures
            moved(*old(self), *final(self)),
            r is Ok ==> final(self).position == old(self).position + 1,
            r is Ok <==> old(self).position < old(self).tokens@.len() && old(self).tokens@[old(
                self,
            ).position as int]@ is Identifier,
            r matches Ok(n) ==> old(self).tokens@[old(self).position as int]@ == TokenModel::Identifier(n@),
            r matches Err(e) ==> e is SqlError,
    {
        match self.next() {
            Some(TokenOf::Identifier(name)) => Ok(name),
            _ => Err(syntax("expected a name")),
        }
    }

    fn parse_statement(&mut self) -> (r: Result<SqlStatement, DbError>)
        requires
            valid(*old(self)),
            old(self).position == 0,
            old(self).tokens@.len() > 0,
        ensures
            moved(*old(self), *final(self)),
            r is Ok <==> statement_end(token_models(old(self).tokens@)) is Some,
            r matches Ok(s) ==> well_formed(old(self).tokens@[0]@, s) && statement_matches(
                token_models(old(self).tokens@),
                s,
                final(self).position as int,
            ) && statement_end(token_models(old(self).tokens@)) == Some(final(self).position as int),
            r matches Err(e) ==> e is SqlError,
    {
        let ghost ts = token_models(self.tokens@);
        assert(ts[0] == self.tokens@[0]@);
        let first = &self.tokens[0];
        match first {
            TokenOf::Create => self.parse_create_table(),
            TokenOf::Drop => self.parse_drop_table(),
            TokenOf::Insert => self.parse_insert(),
            TokenOf::Update => self.parse_update(),
            TokenOf::Delete => self.parse_delete(),
            TokenOf::Select => self.parse_select(),
            _ => Err(syntax("unexpected start of statement")),
        }
    }

    fn parse_create_table(&mut self) -> (r: Result<SqlStatement, DbError>)
        requires
            valid(*old(self)),
        ensures
            moved(*old(self), *final(self)),
            r is Ok <==> create_at(token_models(old(self).tokens@), old(self).position as int) is Some,
            r matches Ok(s) ==> well_formed(TokenOf::Create, s) && (s matches SqlStatement::CreateTable {
                name,
                columns,
            } && create_at(token_models(old(self).tokens@), old(self).position as int) == Some(
                ((name@, crate::types::columns_view(columns@)), final(self).position as int),
            )),
            r matches Err(e) ==> e is SqlError,
    {
        let ghost ts = token_models(self.tokens@);
        let ghost p = self.position as int;
        proof {
            if p < ts.len() {
                assert(ts[p] == self.tokens@[p]@);
            }
            if p + 1 < ts.len() {
                assert(ts[p + 1] == self.tokens@[p + 1]@);
            }
            if p + 2 < ts.len() {
                assert(ts[p + 2] == self.tokens@[p + 2]@);
            }
            if p + 3 < ts.len() {
                assert(ts[p + 3] == self.tokens@[p + 3]@);
            }
        }
        self.expect(&TokenOf::Create)?;
        self.expect(&TokenOf::Table)?;
        let name = self.identifier()?;
        self.expect(&TokenOf::LParen)?;
        let mut columns: Vec<Column> = Vec::new();
        let first = self.parse_column()?;
        let ghost fc = first@;
        let ghost q = self.position as int;
        columns.push(first);
        assert(crate::types::columns_view(columns@) =~= seq![fc]);
        loop
            invariant_except_break
                columns_rest(ts, q, seq![fc]) == columns_rest(
                    ts,
                    self.position as int,
                    crate::types::columns_view(columns@),
                ),
            invariant
                valid(*self),
                moved(*old(self), *self),
                ts == token_models(self.tokens@),
                p == old(self).position,
                columns@.len() >= 1,
                create_at(ts, p) == match columns_rest(ts, q, seq![fc]) {
                    Some((cs, q2)) => if key_count(cs, cs.len() as int) <= 1 && distinct_names(cs) {
                        Some(((name@, cs), q2))
                    } else {
                        None
                    },
                    None => None,
                },
            ensures
                valid(*self),
                moved(*old(self), *self),
                ts == token_models(self.tokens@),
                p == old(self).position,
                columns@.len() >= 1,
                columns_rest(ts, q, seq![fc]) == Some((crate::types::columns_view(columns@), self.position as int)),
                create_at(ts, p) == match columns_rest(ts, q, seq![fc]) {
                    Some((cs, q2)) => if key_count(cs, cs.len() as int) <= 1 && distinct_names(cs) {
                        Some(((name@, cs), q2))
                    } else {
                        None
                    },
                    None => None,
                },
            decreases self.tokens@.len() - self.position,
        {
            let ghost c = self.position as int;
            let ghost before = crate::types::columns_view(columns@);
            proof {
                if c < ts.len() {
                    assert(ts[c] == self.tokens@[c]@);
                }
            }
            if self.peek_is(&TokenOf::Comma) {
                self.advance();
                let col = match self.parse_column() {
                    Ok(col) => col,
                    Err(e) => {
                        assert(columns_rest(ts, c, before) is None);
                        return Err(e);
                    },
                };
                let ghost cm = col@;
                assert(columns_rest(ts, c, before) == columns_rest(ts, self.position as int, before.push(cm)));
                columns.push(col);
                assert(crate::types::columns_view(columns@) =~= before.push(cm));
            } else if self.peek_is(&TokenOf::RParen) {
                assert(columns_rest(ts, c, before) == Some((before, c + 1)));
                self.advance();
                break;
            } else {
                assert(columns_rest(ts, c, before) is None);
                return Err(syntax("expected ',' or ')' in column list"));
            }
        }
        let ghost cs = crate::types::columns_view(columns@);
        let mut count: usize = 0;
        let mut i: usize = 0;
        while i < columns.len()
            invariant
                i <= columns@.len(),
                cs == crate::types::columns_view(columns@),
                count as int == primary_key_count(columns@, i as int),
                count as int == key_count(cs, i as int),
                count <= i,
            decreases columns.len() - i,
        {
            if columns[i].primary_key {
                count = count + 1;
            }
            i += 1;
        }
        if count > 1 {
            return Err(syntax("a table has at most one primary key"));
        }
        let ghost fin = self.position as int;
        assert(create_at(ts, p) == (if distinct_names(cs) { Some(((name@, cs), fin)) } else { None }));
        let mut a: usize = 0;
        while a < columns.len()
            invariant
                a <= columns@.len(),
                cs == crate::types::columns_view(columns@),
                moved(*old(self), *self),
                valid(*self),
                fin == self.position,
                ts == token_models(old(self).tokens@),
                p == old(self).position,
                create_at(ts, p) == (if distinct_names(cs) { Some(((name@, cs), fin)) } else { None }),
                forall|x: int, y: int| 0 <= x < y < cs.len() && x < a ==> #[trigger] cs[x].name != #[trigger] cs[y].name,
            decreases columns.len() - a,
        {
            let mut b: usize = a + 1;
            while b < columns.len()
                invariant
                    a < columns@.len(),
                    a + 1 <= b <= columns@.len(),
                    cs == crate::types::columns_view(columns@),
                    moved(*old(self), *self),
                    valid(*self),
                    fin == self.position,
                    ts == token_models(old(self).tokens@),
                    p == old(self).position,
                    create_at(ts, p) == (if distinct_names(cs) { Some(((name@, cs), fin)) } else { None }),
                    forall|x: int, y: int| 0 <= x < y < cs.len() && x < a ==> #[trigger] cs[x].name != #[trigger] cs[y].name,
                    forall|y: int| a < y < b ==> cs[a as int].name != #[trigger] cs[y].name,
                decreases columns.len() - b,
            {
                assert(cs[a as int].name == columns@[a as int].name@ && cs[b as int].name == columns@[b as int].name@);
                if columns[a].name == columns[b].name {
                    assert(!distinct_names(cs));
                    return Err(syntax("duplicate column name"));
                }
                b += 1;
            }
            a += 1;
        }
        assert(distinct_names(cs));
        Ok(SqlStatement::CreateTable { name, columns })
    }

    /// `name type [NOT [NULL] | NULL] [PRIMARY KEY]`
    fn parse_column(&mut self) -> (r: Result<Column, DbError>)
        requires
            valid(*old(self)),
        ensures
            moved(*old(self), *final(self)),
            r is Ok <==> column_at(token_models(old(self).tokens@), old(self).position as int) is Some,
            r matches Ok(c) ==> column_at(token_models(old(self).tokens@), old(self).position as int) == Some(
                (c@, final(self).position as int),
            ),
            r matches Err(e) ==> e is SqlError,
    {
        let ghost ts = token_models(self.tokens@);
        let ghost p = self.position as int;
        proof {
            if p < ts.len() {
                assert(ts[p] == self.tokens@[p]@);
            }
        }
        let column_name = self.identifier()?;
        let data_type = self.parse_column_type()?;
        let nullable = self.parse_nullable();
        let primary_key = self.parse_primary_key()?;
        Ok(Column { name: column_name, data_type, nullable, primary_key })
    }

    fn parse_column_type(&mut self) -> (r: Result<ColumnType, DbError>)
        requires
            valid(*old(self)),
        ensures
            moved(*old(self), *final(self)),
            r is Ok <==> column_type_at(token_models(old(self).tokens@), old(self).position as int) is Some,
            r matches Ok(t) ==> column_type_at(token_models(old(self).tokens@), old(self).position as int) == Some(
                (t, final(self).position as int),
            ),
            r matches Err(e) ==> e is SqlError,
    {
        let ghost ts = token_models(self.tokens@);
        let ghost p = self.position as int;
        proof {
            if p < ts.len() {
                assert(ts[p] == self.tokens@[p]@);
            }
            if p + 1 < ts.len() {
                assert(ts[p + 1] == self.tokens@[p + 1]@);
            }
        }
        let kind = self.identifier()?;
        if crate::lexer::eq_ignore_case(&kind, "INT") {
            if self.peek_is(&TokenOf::LParen) {
                let bits = self.size()?;
                Ok(ColumnType::Int(Some(bits)))
            } else {
                Ok(ColumnType::Int(None))
            }
        } else if crate::lexer::eq_ignore_case(&kind, "VARCHAR") {
            let length = self.size()?;
            Ok(ColumnType::Varchar(length))
        } else {
            Err(syntax("unknown data type"))
        }
    }

    /// `( number )`
    fn size(&mut self) -> (r: Result<usize, DbError>)
        requires
            valid(*old(self)),
        ensures
            moved(*old(self), *final(self)),
            r is Ok <==> size_at(token_models(old(self).tokens@), old(self).position as int) is Some,
            r matches Ok(n) ==> size_at(token_models(old(self).tokens@), old(self).position as int) == Some(n)
                && final(self).position == old(self).position + 3,
            r matches Err(e) ==> e is SqlError,
    {
        let ghost ts = token_models(self.tokens@);
        let ghost p = self.position as int;
        proof {
            if p < ts.len() {
                assert(ts[p] == self.tokens@[p]@);
            }
            if p + 1 < ts.len() {
                assert(ts[p + 1] == self.tokens@[p + 1]@);
            }
            if p + 2 < ts.len() {
                assert(ts[p + 2] == self.tokens@[p + 2]@);
            }
        }
        self.expect(&TokenOf::LParen)?;
        let n = match self.next() {
            Some(TokenOf::Number(n)) => if n >= 0 {
                n
            } else {
                return Err(syntax("expected a size"));
            },
            _ => {
                return Err(syntax("expected a size"));
            },
        };
        self.expect(&TokenOf::RParen)?;
        Ok(n as usize)
    }

    /// `NOT [NULL]` makes a column non-nullable; `NULL` or nothing leaves it nullable.
    fn parse_nullable(&mut self) -> (r: bool)
        requires
            valid(*old(self)),
        ensures
            moved(*old(self), *final(self)),
            nullable_at(token_models(old(self).tokens@), old(self).position as int) == (
                r,
                final(self).position as int,
            ),
    {
        let ghost ts = token_models(self.tokens@);
        let ghost p = self.position as int;
        proof {
            if p < ts.len() {
                assert(ts[p] == self.tokens@[p]@);
            }
            if p + 1 < ts.len() {
                assert(ts[p + 1] == self.tokens@[p + 1]@);
            }
        }
        if self.peek_is(&TokenOf::Not) {
            self.advance();
            if self.peek_is(&TokenOf::Null) {
                self.advance();
            }
            false
        } else {
            if self.peek_is(&TokenOf::Null) {
                self.advance();
            }
            true
        }
    }

    fn parse_primary_key(&mut self) -> (r: Result<bool, DbError>)
        requires
            valid(*old(self)),
        ensures
            moved(*old(self), *final(self)),
            r is Ok <==> primary_key_at(token_models(old(self).tokens@), old(self).position as int) is Some,
            r matches Ok(b) ==> primary_key_at(token_models(old(self).tokens@), old(self).position as int) == Some(
                (b, final(self).position as int),
            ),
            r matches Err(e) ==> e is SqlError,
    {
        let ghost ts = token_models(self.tokens@);
        let ghost p = self.position as int;
        proof {
            if p < ts.len() {
                assert(ts[p] == self.tokens@[p]@);
            }
            if p + 1 < ts.len() {
                assert(ts[p + 1] == self.tokens@[p + 1]@);
            }
        }
        if self.peek_is(&TokenOf::Primary) {
            self.advance();
            self.expect(&TokenOf::Key)?;
            Ok(true)
        } else {
            Ok(false)
        }
    }

    fn parse_drop_table(&mut self) -> (r: Result<SqlStatement, DbError>)
        requires
            valid(*old(self)),
        ensures
            moved(*old(self), *final(self)),
            r is Ok <==> drop_at(token_models(old(self).tokens@), old(self).position as int) is Some,
            r matches Ok(s) ==> well_formed(TokenOf::Drop, s) && drop_at(
                token_models(old(self).tokens@),
                old(self).position as int,
            ) == Some(
                (
                    match s {
                        SqlStatement::DropTable { name } => seq![name@],
                        SqlStatement::DropTables { names } => names@.map_values(|n: String| n@),
                        _ => Seq::empty(),
                    },
                    final(self).position as int,
                ),
            ),
            r matches Err(e) ==> e is SqlError,
    {
        let ghost ts = token_models(self.tokens@);
        let ghost p = self.position as int;
        proof {
            if p < ts.len() {
                assert(ts[p] == self.tokens@[p]@);
            }
            if p + 1 < ts.len() {
                assert(ts[p + 1] == self.tokens@[p + 1]@);
            }
            if p + 2 < ts.len() {
                assert(ts[p + 2] == self.tokens@[p + 2]@);
            }
            if p + 3 < ts.len() {
                assert(ts[p + 3] == self.tokens@[p + 3]@);
            }
        }
        self.expect(&TokenOf::Drop)?;
        self.expect(&TokenOf::Table)?;
        let name = self.identifier()?;
        let ghost nm = name@;
        if !self.peek_is(&TokenOf::Comma) {
            return Ok(SqlStatement::DropTable { name });
        }
        let mut names: Vec<String> = Vec::new();
        names.push(name);
        assert(names@.map_values(|n: String| n@) =~= seq![nm]);
        while self.peek_is(&TokenOf::Comma)
            invariant
                valid(*self),
                moved(*old(self), *self),
                names@.len() >= 1,
                ts == token_models(self.tokens@),
                p == old(self).position,
                drop_at(ts, p) == table_names_rest(ts, self.position as int, names@.map_values(|n: String| n@)),
            decreases self.tokens@.len() - self.position,
        {
            let ghost c = self.position as int;
            let ghost before = names@.map_values(|n: String| n@);
            proof {
                assert(ts[c] == self.tokens@[c]@);
                if c + 1 < ts.len() {
                    assert(ts[c + 1] == self.tokens@[c + 1]@);
                }
            }
            self.advance();
            let n = match self.identifier() {
                Ok(n) => n,
                Err(e) => {
                    assert(table_names_rest(ts, c, before) is None);
                    return Err(e);
                },
            };
            let ghost nv = n@;
            names.push(n);
            assert(names@.map_values(|n: String| n@) =~= before.push(nv));
        }
        let ghost e = self.position as int;
        proof {
            if e < ts.len() {
                assert(ts[e] == self.tokens@[e]@);
            }
        }
        if names.len() == 1 {
            let only = names.pop().unwrap();
            return Ok(SqlStatement::DropTable { name: only });
        }
        Ok(SqlStatement::DropTables { names })
    }

    fn parse_value(&mut self) -> (r: Result<DataType, DbError>)
        requires
            valid(*old(self)),
        ensures
            moved(*old(self), *final(self)),
            r is Ok <==> value_at(token_models(old(self).tokens@), old(self).position as int) is Some,
            r matches Ok(v) ==> value_at(token_models(old(self).tokens@), old(self).position as int) == Some(v@)
                && final(self).position == old(self).position + 1,
            r matches Err(e) ==> e is SqlError,
    {
        let ghost ts = token_models(self.tokens@);
        let ghost p = self.position as int;
        proof {
            if p < ts.len() {
                assert(ts[p] == self.tokens@[p]@);
            }
        }
        match self.next() {
            Some(TokenOf::Number(n)) => Ok(DataType::Int(n)),
            Some(TokenOf::String(s)) => Ok(DataType::Varchar(s)),
            Some(TokenOf::Null) => Ok(DataType::Null),
            _ => Err(syntax("expected a value")),
        }
    }

    /// `( value, ... )`
    fn parse_tuple(&mut self) -> (r: Result<Vec<DataType>, DbError>)
        requires
            valid(*old(self)),
        ensures
            moved(*old(self), *final(self)),
            r is Ok ==> final(self).position > old(self).position,
            r is Ok <==> tuple_at(token_models(old(self).tokens@), old(self).position as int) is Some,
            r matches Ok(vs) ==> tuple_at(token_models(old(self).tokens@), old(self).position as int) == Some(
                (crate::types::row_view(vs@), final(self).position as int),
            ),
            r matches Err(e) ==> e is SqlError,
    {
        let ghost ts = token_models(self.tokens@);
        let ghost start = self.position as int;
        proof {
            if start < ts.len() {
                assert(ts[start] == self.tokens@[start]@);
            }
        }
        self.expect(&TokenOf::LParen)?;
        let mut values: Vec<DataType> = Vec::new();
        assert(crate::types::row_view(values@) =~= Seq::<Value>::empty());
        loop
            invariant_except_break
                tuple_at(ts, start) == values_rest(ts, self.position as int, crate::types::row_view(values@)),
            invariant
                valid(*self),
                moved(*old(self), *self),
                self.position > old(self).position,
                ts == token_models(self.tokens@),
                start == old(self).position,
            ensures
                valid(*self),
                moved(*old(self), *self),
                self.position > old(self).position,
                tuple_at(ts, start) == Some((crate::types::row_view(values@), self.position as int)),
            decreases self.tokens@.len() - self.position,
        {
            let ghost p = self.position as int;
            let ghost before = crate::types::row_view(values@);
            let v = self.parse_value()?;
            proof {
                if p + 1 < ts.len() {
                    assert(ts[p + 1] == self.tokens@[p + 1]@);
                }
            }
            let ghost vv = v@;
            values.push(v);
            assert(crate::types::row_view(values@) =~= before.push(vv));
            assert(value_at(ts, p) == Some(vv));
            if self.peek_is(&TokenOf::Comma) {
                assert(values_rest(ts, p, before) == values_rest(ts, p + 2, before.push(vv)));
                self.advance();
            } else if self.peek_is(&TokenOf::RParen) {
                assert(values_rest(ts, p, before) == Some((before.push(vv), p + 2)));
                self.advance();
                break;
            } else {
                assert(values_rest(ts, p, before) is None);
                return Err(syntax("expected ',' or ')' in values"));
            }
        }
        Ok(values)
    }

    fn parse_insert(&mut self) -> (r: Result<SqlStatement, DbError>)
        requires
            valid(*old(self)),
        ensures
            moved(*old(self), *final(self)),
            r is Ok <==> insert_at(token_models(old(self).tokens@), old(self).position as int) is Some,
            r matches Ok(s) ==> well_formed(TokenOf::Insert, s) && insert_at(
                token_models(old(self).tokens@),
                old(self).position as int,
            ) == Some((insert_model(s)->0, final(self).position as int)) && insert_model(s) is Some,
            r matches Err(e) ==> e is SqlError,
    {
        let ghost ts = token_models(self.tokens@);
        let ghost p = self.position as int;
        proof {
            if p + 3 < ts.len() {
                assert(ts[p] == self.tokens@[p]@);
                assert(ts[p + 1] == self.tokens@[p + 1]@);
                assert(ts[p + 2] == self.tokens@[p + 2]@);
                assert(ts[p + 3] == self.tokens@[p + 3]@);
            } else if p + 2 < ts.len() {
                assert(ts[p] == self.tokens@[p]@);
                assert(ts[p + 1] == self.tokens@[p + 1]@);
                assert(ts[p + 2] == self.tokens@[p + 2]@);
            } else if p + 1 < ts.len() {
                assert(ts[p] == self.tokens@[p]@);
                assert(ts[p + 1] == self.tokens@[p + 1]@);
            } else if p < ts.len() {
                assert(ts[p] == self.tokens@[p]@);
            }
        }
        self.expect(&TokenOf::Insert)?;
        self.expect(&TokenOf::Into)?;
        let table = self.identifier()?;
        let mut columns: Vec<String> = Vec::new();
        let named = self.peek_is(&TokenOf::LParen);
        let ghost listed: Option<(Option<Seq<Seq<char>>>, int)>;
        let ghost prefix_ok = 0 <= p && p + 2 < ts.len() && ts[p] is Insert && ts[p + 1] is Into && ts[p
            + 2] is Identifier && ts[p + 2]->Identifier_0 == table@;
        assert(prefix_ok);
        if named {
            assert(p + 3 < ts.len() && ts[p + 3] is LParen);
            self.advance();
            let ghost ns = p + 4;
            assert(columns@.map_values(|c: String| c@) =~= Seq::<Seq<char>>::empty());
            loop
                invariant_except_break
                    names_rest(ts, ns, Seq::empty()) == names_rest(
                        ts,
                        self.position as int,
                        columns@.map_values(|c: String| c@),
                    ),
                invariant
                    valid(*self),
                    moved(*old(self), *self),
                    self.position >= ns,
                    ts == token_models(self.tokens@),
                    ns == p + 4,
                    p == old(self).position,
                    prefix_ok,
                    p + 3 < ts.len() && ts[p + 3] is LParen,
                    0 <= p && p + 2 < ts.len() && ts[p] is Insert && ts[p + 1] is Into && ts[p + 2] is Identifier,
                ensures
                    valid(*self),
                    moved(*old(self), *self),
                    ts == token_models(self.tokens@),
                    names_rest(ts, ns, Seq::empty()) == Some(
                        (columns@.map_values(|c: String| c@), self.position as int),
                    ),
                    columns@.len() >= 1,
                decreases self.tokens@.len() - self.position,
            {
                let ghost q = self.position as int;
                proof {
                    if q + 1 < ts.len() {
                        assert(ts[q] == self.tokens@[q]@);
                        assert(ts[q + 1] == self.tokens@[q + 1]@);
                    } else if q < ts.len() {
                        assert(ts[q] == self.tokens@[q]@);
                    }
                }
                let ghost before = columns@.map_values(|c: String| c@);
                let name = self.identifier()?;
                let ghost nv = name@;
                columns.push(name);
                assert(columns@.map_values(|c: String| c@) =~= before.push(nv));
                assert(ts[q] == TokenModel::Identifier(nv));
                if self.peek_is(&TokenOf::Comma) {
                    assert(names_rest(ts, q, before) == names_rest(ts, q + 2, before.push(nv)));
                    self.advance();
                } else if self.peek_is(&TokenOf::RParen) {
                    assert(names_rest(ts, q, before) == Some((before.push(nv), q + 2)));
                    self.advance();
                    break;
                } else {
                    assert(names_rest(ts, q, before) is None);
                    return Err(syntax("expected ',' or ')' in column list"));
                }
            }
            proof {
                assert(columns@.map_values(|c: String| c@).len() == columns@.len());
                listed = Some((Some(columns@.map_values(|c: String| c@)), self.position as int));
            }
        } else {
            proof {
                listed = Some((None, p + 3));
            }
        }
        let ghost q = self.position as int;
        proof {
            if q < ts.len() {
                assert(ts[q] == self.tokens@[q]@);
            }
        }
        self.expect(&TokenOf::Values)?;
        let mut rows: Vec<Vec<DataType>> = Vec::new();
        let first = self.parse_tuple()?;
        let ghost fv = crate::types::row_view(first@);
        let ghost q2 = self.position as int;
        let ghost cols = match listed {
            Some((c, _)) => c,
            None => None,
        };
        assert(insert_at(ts, p) == match tuples_rest(ts, q2, seq![fv]) {
            Some((rs, q3)) => Some((InsertModel { table: table@, columns: cols, rows: rs }, q3)),
            None => None,
        });
        rows.push(first);
        assert(rows_model(rows@) =~= seq![fv]);
        while self.peek_is(&TokenOf::Comma)
            invariant
                insert_at(ts, p) == match tuples_rest(ts, q2, seq![fv]) {
                    Some((rs, q3)) => Some((InsertModel { table: table@, columns: cols, rows: rs }, q3)),
                    None => None,
                },
                valid(*self),
                moved(*old(self), *self),
                rows@.len() >= 1,
                ts == token_models(self.tokens@),
                tuples_rest(ts, q2, seq![fv]) == tuples_rest(ts, self.position as int, rows_model(rows@)),
                rows_model(rows@)[0] == fv,
                p == old(self).position,
            decreases self.tokens@.len() - self.position,
        {
            let ghost c = self.position as int;
            assert(ts[c] == self.tokens@[c]@);
            let ghost before = rows_model(rows@);
            self.advance();
            let t = match self.parse_tuple() {
                Ok(t) => t,
                Err(e) => {
                    assert(tuples_rest(ts, c, before) is None);
                    return Err(e);
                },
            };
            let ghost tv = crate::types::row_view(t@);
            assert(tuples_rest(ts, c, before) == tuples_rest(ts, self.position as int, before.push(tv)));
            rows.push(t);
            assert(rows_model(rows@) =~= before.push(tv));
        }
        proof {
            let c = self.position as int;
            if c < ts.len() {
                assert(ts[c] == self.tokens@[c]@);
            }
        }
        assert(tuples_rest(ts, self.position as int, rows_model(rows@)) == Some(
            (rows_model(rows@), self.position as int),
        ));
        assert(insert_at(ts, p) == Some(
            (InsertModel { table: table@, columns: cols, rows: rows_model(rows@) }, self.position as int),
        ));
        if named {
            Ok(SqlStatement::InsertWithColumns { table, columns, rows })
        } else if rows.len() == 1 {
            assert(rows_model(rows@) =~= seq![fv]);
            let values = rows.pop().unwrap();
            assert(crate::types::row_view(values@) == fv);
            Ok(SqlStatement::Insert { table, values })
        } else {
            Ok(SqlStatement::InsertMultiple { table, rows })
        }
    }

    fn parse_update(&mut self) -> (r: Result<SqlStatement, DbError>)
        requires
            valid(*old(self)),
        ensures
            moved(*old(self), *final(self)),
            r is Ok <==> update_at(token_models(old(self).tokens@), old(self).position as int) is Some,
            r matches Ok(s) ==> well_formed(TokenOf::Update, s) && (s matches SqlStatement::Update {
                table,
                set,
                where_clause,
            } && update_at(token_models(old(self).tokens@), old(self).position as int) == Some(
                (
                    UpdateModel { table: table@, set: set_model(set@), where_clause: where_opt_model(where_clause) },
                    final(self).position as int,
                ),
            )),
            r matches Err(e) ==> e is SqlError,
    {
        let ghost ts = token_models(self.tokens@);
        let ghost p = self.position as int;
        proof {
            if p < ts.len() {
                assert(ts[p] == self.tokens@[p]@);
            }
            if p + 1 < ts.len() {
                assert(ts[p + 1] == self.tokens@[p + 1]@);
            }
            if p + 2 < ts.len() {
                assert(ts[p + 2] == self.tokens@[p + 2]@);
            }
        }
        self.expect(&TokenOf::Update)?;
        let table = self.identifier()?;
        self.expect(&TokenOf::SetKeyword)?;
        let mut set: Vec<(String, DataType)> = Vec::new();
        let first = self.parse_assignment()?;
        let ghost fa = (first.0@, first.1@);
        set.push(first);
        assert(set_model(set@) =~= seq![fa]);
        while self.peek_is(&TokenOf::Comma)
            invariant
                valid(*self),
                moved(*old(self), *self),
                set@.len() >= 1,
                ts == token_models(self.tokens@),
                p == old(self).position,
                update_at(ts, p) == match assignments_rest(ts, p + 6, seq![fa]) {
                    Some((st, q)) => match where_opt(ts, q) {
                        Some((w, q2)) => Some((UpdateModel { table: table@, set: st, where_clause: w }, q2)),
                        None => None,
                    },
                    None => None,
                },
                assignments_rest(ts, p + 6, seq![fa]) == assignments_rest(ts, self.position as int, set_model(set@)),
            decreases self.tokens@.len() - self.position,
        {
            let ghost c = self.position as int;
            assert(ts[c] == self.tokens@[c]@);
            let ghost before = set_model(set@);
            self.advance();
            let a = match self.parse_assignment() {
                Ok(a) => a,
                Err(e) => {
                    assert(assignments_rest(ts, c, before) is None);
                    return Err(e);
                },
            };
            let ghost am = (a.0@, a.1@);
            assert(assignments_rest(ts, c, before) == assignments_rest(ts, c + 4, before.push(am)));
            set.push(a);
            assert(set_model(set@) =~= before.push(am));
        }
        let ghost q = self.position as int;
        proof {
            if q < ts.len() {
                assert(ts[q] == self.tokens@[q]@);
            }
        }
        assert(assignments_rest(ts, q, set_model(set@)) == Some((set_model(set@), q)));
        let where_clause = self.parse_optional_where()?;
        Ok(SqlStatement::Update { table, set, where_clause })
    }

    /// `column = value`
    fn parse_assignment(&mut self) -> (r: Result<(String, DataType), DbError>)
        requires
            valid(*old(self)),
        ensures
            moved(*old(self), *final(self)),
            r is Ok <==> assignment_at(token_models(old(self).tokens@), old(self).position as int) is Some,
            r matches Ok(a) ==> assignment_at(token_models(old(self).tokens@), old(self).position as int) == Some(
                (a.0@, a.1@),
            ) && final(self).position == old(self).position + 3,
            r matches Err(e) ==> e is SqlError,
    {
        let ghost ts = token_models(self.tokens@);
        let ghost p = self.position as int;
        proof {
            if p < ts.len() {
                assert(ts[p] == self.tokens@[p]@);
            }
            if p + 1 < ts.len() {
                assert(ts[p + 1] == self.tokens@[p + 1]@);
            }
        }
        let column = self.identifier()?;
        self.expect(&TokenOf::Eq)?;
        let value = self.parse_value()?;
        Ok((column, value))
    }

    fn parse_delete(&mut self) -> (r: Result<SqlStatement, DbError>)
        requires
            valid(*old(self)),
        ensures
            moved(*old(self), *final(self)),
            r is Ok <==> delete_at(token_models(old(self).tokens@), old(self).position as int) is Some,
            r matches Ok(s) ==> well_formed(TokenOf::Delete, s) && (s matches SqlStatement::Delete {
                table,
                where_clause,
            } && delete_at(token_models(old(self).tokens@), old(self).position as int) == Some(
                ((table@, where_opt_model(where_clause)), final(self).position as int),
            )),
            r matches Err(e) ==> e is SqlError,
    {
        let ghost ts = token_models(self.tokens@);
        let ghost p = self.position as int;
        proof {
            if p < ts.len() {
                assert(ts[p] == self.tokens@[p]@);
            }
            if p + 1 < ts.len() {
                assert(ts[p + 1] == self.tokens@[p + 1]@);
            }
            if p + 2 < ts.len() {
                assert(ts[p + 2] == self.tokens@[p + 2]@);
            }
        }
        self.expect(&TokenOf::Delete)?;
        self.expect(&TokenOf::From)?;
        let table = self.identifier()?;
        let where_clause = self.parse_optional_where()?;
        Ok(SqlStatement::Delete { table, where_clause })
    }

    fn parse_optional_where(&mut self) -> (r: Result<Option<WhereClause>, DbError>)
        requires
            valid(*old(self)),
        ensures
            moved(*old(self), *final(self)),
            r is Ok <==> where_opt(token_models(old(self).tokens@), old(self).position as int) is Some,
            r matches Ok(w) ==> where_opt(token_models(old(self).tokens@), old(self).position as int) == Some(
                (where_opt_model(w), final(self).position as int),
            ),
            r matches Err(e) ==> e is SqlError,
    {
        let ghost ts = token_models(self.tokens@);
        let ghost p = self.position as int;
        proof {
            if p < ts.len() {
                assert(ts[p] == self.tokens@[p]@);
            }
        }
        if self.peek_is(&TokenOf::Where) {
            self.advance();
            Ok(Some(self.parse_or_condition()?))
        } else {
            Ok(None)
        }
    }

    fn parse_order_by(&mut self) -> (r: Result<Option<OrderBy>, DbError>)
        requires
            valid(*old(self)),
        ensures
            moved(*old(self), *final(self)),
            r is Ok <==> order_opt(token_models(old(self).tokens@), old(self).position as int) is Some,
            r matches Ok(o) ==> order_opt(token_models(old(self).tokens@), old(self).position as int) == Some(
                (order_model(o), final(self).position as int),
            ),
            r matches Err(e) ==> e is SqlError,
    {
        let ghost ts = token_models(self.tokens@);
        let ghost p = self.position as int;
        proof {
            if p < ts.len() {
                assert(ts[p] == self.tokens@[p]@);
            }
            if p + 1 < ts.len() {
                assert(ts[p + 1] == self.tokens@[p + 1]@);
            }
            if p + 2 < ts.len() {
                assert(ts[p + 2] == self.tokens@[p + 2]@);
            }
            if p + 3 < ts.len() {
                assert(ts[p + 3] == self.tokens@[p + 3]@);
            }
        }
        if !self.peek_is(&TokenOf::Order) {
            return Ok(None);
        }
        self.advance();
        self.expect(&TokenOf::By)?;
        let column = self.identifier()?;
        let direction = if self.peek_is(&TokenOf::Desc) {
            self.advance();
            SortDirection::Desc
        } else {
            if self.peek_is(&TokenOf::Asc) {
                self.advance();
            }
            SortDirection::Asc
        };
        Ok(Some(OrderBy { column, direction }))
    }

    /// `FROM name [WHERE ...] [ORDER BY ...]`
    fn parse_from(&mut self) -> (r: Result<(String, Option<WhereClause>, Option<OrderBy>), DbError>)
        requires
            valid(*old(self)),
        ensures
            moved(*old(self), *final(self)),
            ({
                let ts = token_models(old(self).tokens@);
                let p = old(self).position as int;
                &&& r is Ok <==> from_clause(ts, p, None) is Some
                &&& r matches Ok((t, w, o)) ==> from_clause(ts, p, None) == Some(
                    (
                        SelectModel {
                            items: None,
                            table: Some(t@),
                            where_clause: where_opt_model(w),
                            order_by: order_model(o),
                        },
                        final(self).position as int,
                    ),
                )
            }),
            r matches Err(e) ==> e is SqlError,
    {
        let ghost ts = token_models(self.tokens@);
        let ghost p = self.position as int;
        proof {
            if p < ts.len() {
                assert(ts[p] == self.tokens@[p]@);
            }
            if p + 1 < ts.len() {
                assert(ts[p + 1] == self.tokens@[p + 1]@);
            }
        }
        self.expect(&TokenOf::From)?;
        let table = self.identifier()?;
        let where_clause = self.parse_optional_where()?;
        let order_by = self.parse_order_by()?;
        Ok((table, where_clause, order_by))
    }

    fn parse_select(&mut self) -> (r: Result<SqlStatement, DbError>)
        requires
            valid(*old(self)),
        ensures
            moved(*old(self), *final(self)),
            r is Ok <==> select_at(token_models(old(self).tokens@), old(self).position as int) is Some,
            r matches Ok(s) ==> well_formed(TokenOf::Select, s) && select_model(s) is Some && select_at(
                token_models(old(self).tokens@),
                old(self).position as int,
            ) == Some((select_model(s)->0, final(self).position as int)),
            r matches Err(e) ==> e is SqlError,
    {
        let ghost ts = token_models(self.tokens@);
        let ghost p = self.position as int;
        proof {
            if p < ts.len() {
                assert(ts[p] == self.tokens@[p]@);
            }
            if p + 1 < ts.len() {
                assert(ts[p + 1] == self.tokens@[p + 1]@);
            }
        }
        self.expect(&TokenOf::Select)?;
        if self.peek_is(&TokenOf::Asterisk) {
            self.advance();
            let (table, where_clause, order_by) = self.parse_from()?;
            let mut columns: Vec<String> = Vec::new();
            let star = "*".to_owned();
            proof {
                reveal_strlit("*");
            }
            assert(star@ =~= seq!['*']);
            columns.push(star);
            return Ok(SqlStatement::Select { columns, table, where_clause, order_by });
        }
        let mut expressions: Vec<Expression> = Vec::new();
        let first = self.parse_expression()?;
        let ghost fm = expr_model(first);
        let ghost q = self.position as int;
        expressions.push(first);
        assert(exprs_model(expressions@) =~= seq![fm]);
        while self.peek_is(&TokenOf::Comma)
            invariant
                valid(*self),
                moved(*old(self), *self),
                expressions@.len() >= 1,
                ts == token_models(self.tokens@),
                p == old(self).position,
                0 <= p < ts.len() && ts[p] is Select,
                !(p + 1 < ts.len() && ts[p + 1] is Asterisk),
                expr_at(ts, p + 1) == Some((fm, q)),
                exprs_rest(ts, q, seq![fm]) == exprs_rest(ts, self.position as int, exprs_model(expressions@)),
            decreases self.tokens@.len() - self.position,
        {
            let ghost c = self.position as int;
            assert(ts[c] == self.tokens@[c]@);
            let ghost before = exprs_model(expressions@);
            self.advance();
            let e = match self.parse_expression() {
                Ok(e) => e,
                Err(err) => {
                    assert(exprs_rest(ts, c, before) is None);
                    return Err(err);
                },
            };
            let ghost em = expr_model(e);
            assert(exprs_rest(ts, c, before) == exprs_rest(ts, self.position as int, before.push(em)));
            expressions.push(e);
            assert(exprs_model(expressions@) =~= before.push(em));
        }
        let ghost q2 = self.position as int;
        let ghost items = exprs_model(expressions@);
        proof {
            if q2 < ts.len() {
                assert(ts[q2] == self.tokens@[q2]@);
            }
        }
        assert(exprs_rest(ts, q, seq![fm]) == Some((items, q2)));
        if !self.peek_is(&TokenOf::From) {
            return Ok(SqlStatement::SelectExpression { expressions });
        }
        let (table, where_clause, order_by) = self.parse_from()?;
        assert(from_clause(ts, q2, Some(items)) == Some(
            (
                SelectModel {
                    items: Some(items),
                    table: Some(table@),
                    where_clause: where_opt_model(where_clause),
                    order_by: order_model(order_by),
                },
                self.position as int,
            ),
        ));
        match column_names_of(&expressions) {
            Some(columns) => {
                if is_star_list(&columns) {
                    // a caller-made `*` name is kept as an expression, not read as "all columns"
                    assert(expressions@[0] == Expression::Column(columns@[0]));
                    return Ok(SqlStatement::SelectWithExpressions { expressions, table, where_clause, order_by });
                }
                assert forall|i: int| 0 <= i < items.len() implies #[trigger] items[i] == ExprModel::Column(
                    columns@[i]@,
                ) by {
                    assert(expressions@[i] == Expression::Column(columns@[i]));
                }
                assert(columns@.map_values(|c: String| ExprModel::Column(c@)) =~= items);
                Ok(SqlStatement::Select { columns, table, where_clause, order_by })
            },
            None => Ok(SqlStatement::SelectWithExpressions { expressions, table, where_clause, order_by }),
        }
    }

    fn parse_or_condition(&mut self) -> (r: Result<WhereClause, DbError>)
        requires
            valid(*old(self)),
        ensures
            moved(*old(self), *final(self)),
            r is Ok <==> or_at(token_models(old(self).tokens@), old(self).position as int) is Some,
            r matches Ok(w) ==> or_at(token_models(old(self).tokens@), old(self).position as int) == Some(
                (where_model(w), final(self).position as int),
            ),
            r matches Err(e) ==> e is SqlError,
        decreases old(self).tokens@.len() - old(self).position, 2nat,
    {
        let ghost ts = token_models(self.tokens@);
        let left = self.parse_and_condition()?;
        let ghost q = self.position as int;
        proof {
            if q < ts.len() {
                assert(ts[q] == self.tokens@[q]@);
            }
        }
        if self.peek_is(&TokenOf::Or) {
            self.advance();
            let right = self.parse_or_condition()?;
            Ok(WhereClause::Or { left: Box::new(left), right: Box::new(right) })
        } else {
            Ok(left)
        }
    }

    fn parse_and_condition(&mut self) -> (r: Result<WhereClause, DbError>)
        requires
            valid(*old(self)),
        ensures
            moved(*old(self), *final(self)),
            r is Ok <==> and_at(token_models(old(self).tokens@), old(self).position as int) is Some,
            r matches Ok(w) ==> and_at(token_models(old(self).tokens@), old(self).position as int) == Some(
                (where_model(w), final(self).position as int),
            ),
            r matches Err(e) ==> e is SqlError,
        decreases old(self).tokens@.len() - old(self).position, 1nat,
    {
        let ghost ts = token_models(self.tokens@);
        let left = self.parse_condition()?;
        let ghost q = self.position as int;
        proof {
            if q < ts.len() {
                assert(ts[q] == self.tokens@[q]@);
            }
        }
        if self.peek_is(&TokenOf::And) {
            self.advance();
            let right = self.parse_and_condition()?;
            Ok(WhereClause::And { left: Box::new(left), right: Box::new(right) })
        } else {
            Ok(left)
        }
    }

    /// A parenthesized condition, `expr IS [NOT] NULL`, or a comparison of two expressions
    /// (kept in the simple form when it compares a column with a literal).
    fn parse_condition(&mut self) -> (r: Result<WhereClause, DbError>)
        requires
            valid(*old(self)),
        ensures
            moved(*old(self), *final(self)),
            r is Ok <==> condition_at(token_models(old(self).tokens@), old(self).position as int) is Some,
            r matches Ok(w) ==> condition_at(token_models(old(self).tokens@), old(self).position as int) == Some(
                (where_model(w), final(self).position as int),
            ),
            r matches Err(e) ==> e is SqlError,
        decreases old(self).tokens@.len() - old(self).position, 0nat,
    {
        let ghost ts = token_models(self.tokens@);
        let ghost p = self.position as int;
        proof {
            if p < ts.len() {
                assert(ts[p] == self.tokens@[p]@);
            }
        }
        if self.peek_is(&TokenOf::LParen) {
            self.advance();
            let condition = self.parse_or_condition()?;
            let ghost q = self.position as int;
            proof {
                if q < ts.len() {
                    assert(ts[q] == self.tokens@[q]@);
                }
            }
            self.expect(&TokenOf::RParen)?;
            return Ok(condition);
        }
        let left = self.parse_expression()?;
        let ghost q = self.position as int;
        proof {
            if q < ts.len() {
                assert(ts[q] == self.tokens@[q]@);
            }
            if q + 1 < ts.len() {
                assert(ts[q + 1] == self.tokens@[q + 1]@);
            }
            if q + 2 < ts.len() {
                assert(ts[q + 2] == self.tokens@[q + 2]@);
            }
        }
        if self.peek_is(&TokenOf::Is) {
            self.advance();
            let negated = self.peek_is(&TokenOf::Not);
            if negated {
                self.advance();
            }
            self.expect(&TokenOf::Null)?;
            let operator = if negated { Operator::IsNotNull } else { Operator::IsNull };
            return match left {
                Expression::Column(column) => Ok(WhereClause::Simple { column, operator, value: DataType::Null }),
                other => Ok(
                    WhereClause::Expression { left: other, operator, right: Expression::Literal(DataType::Null) },
                ),
            };
        }
        let operator = match self.next() {
            Some(TokenOf::Eq) => Operator::Eq,
            Some(TokenOf::Ne) => Operator::Ne,
            Some(TokenOf::Gt) => Operator::Gt,
            Some(TokenOf::Lt) => Operator::Lt,
            Some(TokenOf::Ge) => Operator::Ge,
            Some(TokenOf::Le) => Operator::Le,
            _ => {
                return Err(syntax("expected a comparison operator"));
            },
        };
        let right = self.parse_expression()?;
        match (left, right) {
            (Expression::Column(column), Expression::Literal(value)) => Ok(
                WhereClause::Simple { column, operator, value },
            ),
            (l, r) => Ok(WhereClause::Expression { left: l, operator, right: r }),
        }
    }

    /// A sum or difference of terms, associating to the left.
    fn parse_expression(&mut self) -> (r: Result<Expression, DbError>)
        requires
            valid(*old(self)),
        ensures
            moved(*old(self), *final(self)),
            r is Ok ==> final(self).position > old(self).position,
            r is Ok <==> expr_at(token_models(old(self).tokens@), old(self).position as int) is Some,
            r matches Ok(e) ==> expr_at(token_models(old(self).tokens@), old(self).position as int) == Some(
                (expr_model(e), final(self).position as int),
            ),
            r matches Err(e) ==> e is SqlError,
        decreases old(self).tokens@.len() - old(self).position, 4nat,
    {
        let ghost ts = token_models(self.tokens@);
        let ghost start = self.position as int;
        let mut left = self.parse_term()?;
        loop
            invariant
                valid(*self),
                moved(*old(self), *self),
                self.position > old(self).position,
                ts == token_models(self.tokens@),
                start == old(self).position,
                expr_at(ts, start) == expr_rest(ts, self.position as int, expr_model(left)),
            ensures
                valid(*self),
                moved(*old(self), *self),
                self.position > old(self).position,
                expr_at(ts, start) == Some((expr_model(left), self.position as int)),
            decreases self.tokens@.len() - self.position,
        {
            let ghost p = self.position as int;
            let operator = if self.peek_is(&TokenOf::Plus) {
                ArithmeticOperator::Add
            } else if self.peek_is(&TokenOf::Minus) {
                ArithmeticOperator::Subtract
            } else {
                assert(!(0 <= p < ts.len() && sum_op(ts[p]) is Some)) by {
                    if 0 <= p < ts.len() {
                        assert(ts[p] == self.tokens@[p]@);
                    }
                }
                assert(expr_rest(ts, p, expr_model(left)) == Some((expr_model(left), p)));
                break;
            };
            assert(ts[p] == self.tokens@[p]@);
            assert(sum_op(ts[p]) == Some(operator));
            self.advance();
            let right = match self.parse_term() {
                Ok(r) => r,
                Err(e) => {
                    return Err(e);
                },
            };
            left = Expression::Binary { left: Box::new(left), operator, right: Box::new(right) };
        }
        Ok(left)
    }

    /// A product or quotient of primaries, associating to the left.
    fn parse_term(&mut self) -> (r: Result<Expression, DbError>)
        requires
            valid(*old(self)),
        ensures
            moved(*old(self), *final(self)),
            r is Ok ==> final(self).position > old(self).position,
            r is Ok <==> term_at(token_models(old(self).tokens@), old(self).position as int) is Some,
            r matches Ok(e) ==> term_at(token_models(old(self).tokens@), old(self).position as int) == Some(
                (expr_model(e), final(self).position as int),
            ),
            r matches Err(e) ==> e is SqlError,
        decreases old(self).tokens@.len() - old(self).position, 2nat,
    {
        let ghost ts = token_models(self.tokens@);
        let ghost start = self.position as int;
        let mut left = self.parse_primary()?;
        loop
            invariant
                valid(*self),
                moved(*old(self), *self),
                self.position > old(self).position,
                ts == token_models(self.tokens@),
                start == old(self).position,
                term_at(ts, start) == term_rest(ts, self.position as int, expr_model(left)),
            ensures
                valid(*self),
                moved(*old(self), *self),
                self.position > old(self).position,
                term_at(ts, start) == Some((expr_model(left), self.position as int)),
            decreases self.tokens@.len() - self.position,
        {
            let ghost p = self.position as int;
            let operator = if self.peek_is(&TokenOf::Asterisk) {
                ArithmeticOperator::Multiply
            } else if self.peek_is(&TokenOf::Slash) {
                ArithmeticOperator::Divide
            } else {
                assert(!(0 <= p < ts.len() && product_op(ts[p]) is Some)) by {
                    if 0 <= p < ts.len() {
                        assert(ts[p] == self.tokens@[p]@);
                    }
                }
                assert(term_rest(ts, p, expr_model(left)) == Some((expr_model(left), p)));
                break;
            };
            assert(ts[p] == self.tokens@[p]@);
            assert(product_op(ts[p]) == Some(operator));
            self.advance();
            let right = match self.parse_primary() {
                Ok(r) => r,
                Err(e) => {
                    return Err(e);
                },
            };
            left = Expression::Binary { left: Box::new(left), operator, right: Box::new(right) };
        }
        Ok(left)
    }

    /// A literal, a column name, or a parenthesized expression.
    fn parse_primary(&mut self) -> (r: Result<Expression, DbError>)
        requires
            valid(*old(self)),
        ensures
            moved(*old(self), *final(self)),
            r is Ok ==> final(self).position > old(self).position,
            r is Ok <==> primary_at(token_models(old(self).tokens@), old(self).position as int) is Some,
            r matches Ok(e) ==> primary_at(token_models(old(self).tokens@), old(self).position as int) == Some(
                (expr_model(e), final(self).position as int),
            ),
            r matches Err(e) ==> e is SqlError,
        decreases old(self).tokens@.len() - old(self).position, 0nat,
    {
        let ghost ts = token_models(self.tokens@);
        let ghost p = self.position as int;
        proof {
            if p < ts.len() {
                assert(ts[p] == self.tokens@[p]@);
            }
        }
        match self.next() {
            Some(TokenOf::Number(n)) => Ok(Expression::Literal(DataType::Int(n))),
            Some(TokenOf::String(s)) => Ok(Expression::Literal(DataType::Varchar(s))),
            Some(TokenOf::Null) => Ok(Expression::Literal(DataType::Null)),
            Some(TokenOf::Identifier(name)) => Ok(Expression::Column(name)),
            Some(TokenOf::LParen) => {
                let e = self.parse_expression()?;
                let ghost q = self.position as int;
                proof {
                    if q < ts.len() {
                        assert(ts[q] == self.tokens@[q]@);
                    }
                }
                self.expect(&TokenOf::RParen)?;
                Ok(e)
            },
            _ => Err(syntax("expected an expression")),
        }
    }
}

/// The column names, when every expression is a bare column reference.
fn column_names_of(es: &Vec<Expression>) -> (r: Option<Vec<String>>)
    ensures
        r matches Some(v) ==> v@.len() == es@.len() && forall|i: int|
            0 <= i < es@.len() ==> #[trigger] es@[i] == Expression::Column(v@[i]),
        r is None ==> exists|i: int| 0 <= i < es@.len() && !(#[trigger] es@[i] is Column),
{
    let mut names: Vec<String> = Vec::new();
    let mut i: usize = 0;
    while i < es.len()
        invariant
            i <= es@.len(),
            names@.len() == i,
            forall|k: int| 0 <= k < i ==> #[trigger] es@[k] == Expression::Column(names@[k]),
        decreases es.len() - i,
    {
        match &es[i] {
            Expression::Column(name) => names.push(name.clone()),
            _ => {
                assert(!(es@[i as int] is Column));
                return None;
            },
        }
        i += 1;
    }
    Some(names)
}

fn is_star_list(columns: &Vec<String>) -> (r: bool)
    ensures
        r == (columns@.len() == 1 && columns@[0]@ == seq!['*']),
{
    if columns.len() != 1 {
        return false;
    }
    let star = "*".to_owned();
    proof {
        reveal_strlit("*");
    }
    assert(star@ =~= seq!['*']);
    columns[0] == star
}

/// Lexes and parses SQL text.
pub struct SqlParser {
    lexer: Lexer,
    parser: Parser,
}

impl SqlParser {
    pub fn new() -> SqlParser {
        SqlParser { lexer: Lexer::new(), parser: Parser::new() }
    }

    /// The statement in `sql`; lexing fails exactly where the lexer's specification does.
    pub fn parse(&mut self, sql: &str) -> (r: Result<SqlStatement, DbError>)
        ensures
            lex(sql@, 0) matches Err(m) ==> r matches Err(e) && e matches DbError::SqlError(m2) && m2@ == m,
            lex(sql@, 0) matches Ok(toks) ==> ({
                let ts = significant(toks);
                &&& r is Ok <==> (statement_end(ts) matches Some(q) && ends_at(ts, q))
                &&& r matches Ok(s) ==> well_formed(ts[0], s) && statement_matches(ts, s, statement_end(ts)->0)
            }),
            r matches Err(e) ==> e is SqlError,
    {
        let tokens = self.lexer.tokenize(sql)?;
        self.parser.parse(tokens)
    }
}

} // verus!
