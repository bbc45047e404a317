use vstd::prelude::*;

use crate::error::DbError;
use crate::sql::{ArithmeticOperator, Expression, Operator, WhereClause};
use crate::text::chars_of;
use crate::types::{columns_view, row_view, Column, ColumnModel, DataType, Value};

verus! {

/// The position of the first column named `name`, searching from `start`.
pub open spec fn column_index_from(columns: Seq<ColumnModel>, name: Seq<char>, start: int) -> Option<int>
    decreases columns.len() - start,
{
    if start < 0 || start >= columns.len() {
        None
    } else if columns[start].name == name {
        Some(start)
    } else {
        column_index_from(columns, name, start + 1)
    }
}

pub open spec fn column_index(columns: Seq<ColumnModel>, name: Seq<char>) -> Option<int> {
    column_index_from(columns, name, 0)
}

pub proof fn lemma_column_index_from(columns: Seq<ColumnModel>, name: Seq<char>, start: int)
    requires
        0 <= start <= columns.len(),
    ensures
        match column_index_from(columns, name, start) {
            Some(k) => start <= k < columns.len() && columns[k].name == name && forall|i: int|
                start <= i < k ==> (#[trigger] columns[i]).name != name,
            None => forall|i: int| start <= i < columns.len() ==> (#[trigger] columns[i]).name != name,
        },
    decreases columns.len() - start,
{
    if start < columns.len() && columns[start].name != name {
        lemma_column_index_from(columns, name, start + 1);
    }
}

/// Finds the first column with the given name.
pub fn find_column(columns: &Vec<Column>, name: &String) -> (r: Option<usize>)
    ensures
        r matches Some(k) ==> column_index(columns_view(columns@), name@) == Some(k as int),
        r is None ==> column_index(columns_view(columns@), name@) is None,
{
    let ghost cs = columns_view(columns@);
    proof {
        lemma_column_index_from(cs, name@, 0);
    }
    let mut i: usize = 0;
    while i < columns.len()
        invariant
            i <= columns.len(),
            cs == columns_view(columns@),
            forall|j: int| 0 <= j < i ==> (#[trigger] cs[j]).name != name@,
            match column_index_from(cs, name@, 0) {
                Some(k) => 0 <= k < cs.len() && cs[k].name == name@ && forall|j: int|
                    0 <= j < k ==> (#[trigger] cs[j]).name != name@,
                None => forall|j: int| 0 <= j < cs.len() ==> (#[trigger] cs[j]).name != name@,
            },
        decreases columns.len() - i,
    {
        if columns[i].name == *name {
            assert(cs[i as int].name == name@);
            return Some(i);
        }
        i += 1;
    }
    None
}

/// The position of the first `.` in `s` from `i` on.
pub open spec fn dot_from(s: Seq<char>, i: int) -> Option<int>
    decreases s.len() - i,
{
    if i < 0 || i >= s.len() {
        None
    } else if s[i] == '.' {
        Some(i)
    } else {
        dot_from(s, i + 1)
    }
}

/// The column a name refers to: for a qualified name `table.column` the part after the
/// first `.` (up to any further `.`), otherwise the name itself.
pub open spec fn column_part(name: Seq<char>) -> Seq<char> {
    match dot_from(name, 0) {
        None => name,
        Some(k) => match dot_from(name, k + 1) {
            None => name.subrange(k + 1, name.len() as int),
            Some(j) => name.subrange(k + 1, j),
        },
    }
}

/// Every qualified column name in `e` names the table `table`.
pub open spec fn qualifiers_match(e: Expression, table: Seq<char>) -> bool
    decreases e,
{
    match e {
        Expression::Literal(_) => true,
        Expression::Column(name) => match dot_from(name@, 0) {
            None => true,
            Some(k) => name@.subrange(0, k) == table,
        },
        Expression::Binary { left, right, .. } => qualifiers_match(*left, table) && qualifiers_match(*right, table),
    }
}

proof fn lemma_dot_from(s: Seq<char>, i: int)
    requires
        0 <= i <= s.len(),
    ensures
        match dot_from(s, i) {
            Some(k) => i <= k < s.len() && s[k] == '.' && forall|j: int| i <= j < k ==> s[j] != '.',
            None => forall|j: int| i <= j < s.len() ==> s[j] != '.',
        },
    decreases s.len() - i,
{
    if i < s.len() && s[i] != '.' {
        lemma_dot_from(s, i + 1);
    }
}

fn find_dot(s: &Vec<char>, i: usize) -> (r: Option<usize>)
    requires
        i <= s@.len(),
    ensures
        r matches Some(k) ==> dot_from(s@, i as int) == Some(k as int),
        r is None ==> dot_from(s@, i as int) is None,
{
    let mut j = i;
    while j < s.len()
        invariant
            i <= j <= s@.len(),
            dot_from(s@, i as int) == dot_from(s@, j as int),
        decreases s.len() - j,
    {
        if s[j] == '.' {
            return Some(j);
        }
        j += 1;
    }
    None
}

/// The column part of a possibly qualified name.
pub fn column_name_of(name: &String) -> (r: String)
    ensures
        r@ == column_part(name@),
{
    let cs = chars_of(name.as_str());
    match find_dot(&cs, 0) {
        None => name.clone(),
        Some(k) => {
            proof {
                lemma_dot_from(cs@, 0);
            }
            match find_dot(&cs, k + 1) {
                None => crate::text::string_of(&cs, k + 1, cs.len()),
                Some(j) => {
                    proof {
                        lemma_dot_from(cs@, k + 1);
                    }
                    crate::text::string_of(&cs, k + 1, j)
                },
            }
        },
    }
}

/// Whether every qualified column name in `e` names `table`.
pub fn qualifiers_match_exec(e: &Expression, table: &String) -> (r: bool)
    ensures
        r == qualifiers_match(*e, table@),
    decreases e,
{
    match e {
        Expression::Literal(_) => true,
        Expression::Column(name) => {
            let cs = chars_of(name.as_str());
            match find_dot(&cs, 0) {
                None => true,
                Some(k) => {
                    proof {
                        lemma_dot_from(cs@, 0);
                    }
                    let q = crate::text::string_of(&cs, 0, k);
                    q == *table
                },
            }
        },
        Expression::Binary { left, right, .. } => qualifiers_match_exec(left, table) && qualifiers_match_exec(
            right,
            table,
        ),
    }
}

/// Truncating integer division, as machine division rounds.
pub open spec fn trunc_div(a: int, b: int) -> int {
    let q = (if a < 0 { -a } else { a }) / (if b < 0 { -b } else { b });
    if (a < 0) == (b < 0) { q } else { -q }
}

pub open spec fn apply_int(op: ArithmeticOperator, a: int, b: int) -> int {
    match op {
        ArithmeticOperator::Add => a + b,
        ArithmeticOperator::Subtract => a - b,
        ArithmeticOperator::Multiply => a * b,
        ArithmeticOperator::Divide => trunc_div(a, b),
    }
}

pub open spec fn fits_i32(x: int) -> bool {
    i32::MIN <= x <= i32::MAX
}

/// The result of a binary operation on two evaluated operands; `None` is an evaluation error.
/// Division by zero fails; otherwise a NULL operand gives NULL; two integers give their
/// integer result, which must fit 32 bits; any other mixture fails.
pub open spec fn arith(op: ArithmeticOperator, l: Value, r: Value) -> Option<Value> {
    if op == ArithmeticOperator::Divide && r == Value::Int(0) {
        None
    } else if l is Null || r is Null {
        Some(Value::Null)
    } else {
        match (l, r) {
            (Value::Int(a), Value::Int(b)) => {
                let x = apply_int(op, a as int, b as int);
                if fits_i32(x) {
                    Some(Value::Int(x as i32))
                } else {
                    None
                }
            },
            _ => None,
        }
    }
}

/// The value of an expression on a row described by `columns`; `None` is an evaluation error
/// (unknown column, division by zero, overflow, unsupported operand types).
pub open spec fn eval(e: Expression, row: Seq<Value>, columns: Seq<ColumnModel>) -> Option<Value>
    decreases e,
{
    match e {
        Expression::Literal(v) => Some(v@),
        Expression::Column(name) => match column_index(columns, column_part(name@)) {
            Some(i) => if i < row.len() {
                Some(row[i])
            } else {
                None
            },
            None => None,
        },
        Expression::Binary { left, operator, right } => match (
            eval(*left, row, columns),
            eval(*right, row, columns),
        ) {
            (Some(a), Some(b)) => arith(operator, a, b),
            _ => None,
        },
    }
}

fn arith_error() -> (r: DbError)
    ensures
        r is SqlError,
{
    DbError::SqlError("invalid arithmetic operation".to_owned())
}

/// Applies an arithmetic operator to two values.
pub fn apply_arithmetic(op: ArithmeticOperator, l: DataType, r: DataType) -> (res: Result<DataType, DbError>)
    ensures
        res is Ok <==> arith(op, l@, r@) is Some,
        res matches Ok(v) ==> v@ == arith(op, l@, r@)->0,
        res matches Err(e) ==> e is SqlError,
{
    if op == ArithmeticOperator::Divide {
        if let DataType::Int(0) = r {
            return Err(DbError::SqlError("division by zero".to_owned()));
        }
    }
    match (l, r) {
        (DataType::Null, _) => Ok(DataType::Null),
        (_, DataType::Null) => Ok(DataType::Null),
        (DataType::Int(a), DataType::Int(b)) => {
            let a64 = a as i64;
            let b64 = b as i64;
            let x: i64 = match op {
                ArithmeticOperator::Add => a64 + b64,
                ArithmeticOperator::Subtract => a64 - b64,
                ArithmeticOperator::Multiply => {
                    assert(-2147483648 * 2147483648 <= a64 * b64 <= 2147483648 * 2147483648)
                        by (nonlinear_arith)
                        requires
                            -2147483648 <= a64 <= 2147483647,
                            -2147483648 <= b64 <= 2147483647,
                    ;
                    a64 * b64
                },
                ArithmeticOperator::Divide => {
                    let ua: i64 = if a64 < 0 { -a64 } else { a64 };
                    let ub: i64 = if b64 < 0 { -b64 } else { b64 };
                    let q = ua / ub;
                    if (a64 < 0) == (b64 < 0) { q } else { -q }
                },
            };
            if x < i32::MIN as i64 || x > i32::MAX as i64 {
                Err(arith_error())
            } else {
                Ok(DataType::Int(x as i32))
            }
        },
        _ => Err(DbError::SqlError("unsupported operand types".to_owned())),
    }
}

/// Evaluates an expression against one row, resolving columns by name in `columns`.
pub fn evaluate_expression_without_storage(
    expr: &Expression,
    row: &Vec<DataType>,
    columns: &Vec<Column>,
) -> (r: Result<DataType, DbError>)
    ensures
        r is Ok <==> eval(*expr, row_view(row@), columns_view(columns@)) is Some,
        r matches Ok(v) ==> v@ == eval(*expr, row_view(row@), columns_view(columns@))->0,
        r matches Err(e) ==> e is SqlError,
    decreases expr,
{
    match expr {
        Expression::Literal(value) => Ok(value.copy()),
        Expression::Column(name) => {
            let c = column_name_of(name);
            match find_column(columns, &c) {
                Some(i) => {
                    if i < row.len() {
                        Ok(row[i].copy())
                    } else {
                        Err(DbError::SqlError("column index out of range".to_owned()))
                    }
                },
                None => Err(DbError::SqlError("unknown column".to_owned())),
            }
        },
        Expression::Binary { left, operator, right } => {
            let l = evaluate_expression_without_storage(left, row, columns)?;
            let r = evaluate_expression_without_storage(right, row, columns)?;
            apply_arithmetic(*operator, l, r)
        },
    }
}

/// Lexicographic order on character sequences, by code point.
pub open spec fn text_lt(a: Seq<char>, b: Seq<char>) -> bool
    decreases a.len(),
{
    if a.len() == 0 {
        b.len() > 0
    } else if b.len() == 0 {
        false
    } else if a[0] != b[0] {
        (a[0] as u32) < (b[0] as u32)
    } else {
        text_lt(a.drop_first(), b.drop_first())
    }
}

/// Compares two character sequences lexicographically.
pub fn chars_less(a: &Vec<char>, b: &Vec<char>) -> (r: bool)
    ensures
        r == text_lt(a@, b@),
{
    let mut i: usize = 0;
    assert(a@.subrange(0, a@.len() as int) =~= a@);
    assert(b@.subrange(0, b@.len() as int) =~= b@);
    while i < a.len() && i < b.len()
        invariant
            i <= a@.len(),
            i <= b@.len(),
            a@.subrange(0, i as int) == b@.subrange(0, i as int),
            text_lt(a@, b@) == text_lt(a@.subrange(i as int, a@.len() as int), b@.subrange(i as int, b@.len() as int)),
        decreases a.len() - i,
    {
        if a[i] != b[i] {
            return (a[i] as u32) < (b[i] as u32);
        }
        let ghost sa = a@.subrange(i as int, a@.len() as int);
        let ghost sb = b@.subrange(i as int, b@.len() as int);
        assert(sa.drop_first() =~= a@.subrange(i + 1, a@.len() as int));
        assert(sb.drop_first() =~= b@.subrange(i + 1, b@.len() as int));
        assert(a@.subrange(0, i + 1) =~= a@.subrange(0, i as int).push(a@[i as int]));
        assert(b@.subrange(0, i + 1) =~= b@.subrange(0, i as int).push(b@[i as int]));
        i += 1;
    }
    i < b.len()
}

/// Compares two texts lexicographically.
pub fn text_less(a: &String, b: &String) -> (r: bool)
    ensures
        r == text_lt(a@, b@),
{
    let ca = chars_of(a.as_str());
    let cb = chars_of(b.as_str());
    chars_less(&ca, &cb)
}

/// The outcome of comparing two values; `None` is a type error (ordering across variants).
pub open spec fn compare(op: Operator, l: Value, r: Value) -> Option<bool> {
    match op {
        Operator::Eq => Some(l == r),
        Operator::Ne => Some(l != r),
        Operator::IsNull => Some(l is Null),
        Operator::IsNotNull => Some(!(l is Null)),
        _ => match (l, r) {
            (Value::Int(a), Value::Int(b)) => Some(
                match op {
                    Operator::Gt => a > b,
                    Operator::Lt => a < b,
                    Operator::Ge => a >= b,
                    _ => a <= b,
                },
            ),
            (Value::Text(a), Value::Text(b)) => Some(
                match op {
                    Operator::Gt => text_lt(b, a),
                    Operator::Lt => text_lt(a, b),
                    Operator::Ge => !text_lt(a, b),
                    _ => !text_lt(b, a),
                },
            ),
            _ => None,
        },
    }
}

/// Compares two values with a relational operator.
pub fn compare_values(op: Operator, l: &DataType, r: &DataType) -> (res: Result<bool, DbError>)
    ensures
        res is Ok <==> compare(op, l@, r@) is Some,
        res matches Ok(b) ==> b == compare(op, l@, r@)->0,
        res matches Err(e) ==> e is SqlError,
{
    match op {
        Operator::Eq => Ok(l.equals(r)),
        Operator::Ne => Ok(!l.equals(r)),
        Operator::IsNull => Ok(l.is_null()),
        Operator::IsNotNull => Ok(!l.is_null()),
        _ => match (l, r) {
            (DataType::Int(a), DataType::Int(b)) => Ok(
                match op {
                    Operator::Gt => *a > *b,
                    Operator::Lt => *a < *b,
                    Operator::Ge => *a >= *b,
                    _ => *a <= *b,
                },
            ),
            (DataType::Varchar(a), DataType::Varchar(b)) => Ok(
                match op {
                    Operator::Gt => text_less(b, a),
                    Operator::Lt => text_less(a, b),
                    Operator::Ge => !text_less(a, b),
                    _ => !text_less(b, a),
                },
            ),
            _ => Err(DbError::SqlError("type mismatch in comparison".to_owned())),
        },
    }
}

/// Whether a row satisfies a condition; `None` is an evaluation error. `AND` and `OR`
/// evaluate their right side only when the left side does not decide.
pub open spec fn eval_where(w: WhereClause, row: Seq<Value>, columns: Seq<ColumnModel>) -> Option<bool>
    decreases w,
{
    match w {
        WhereClause::Simple { column, operator, value } => match column_index(columns, column_part(column@)) {
            Some(i) => if i < row.len() {
                compare(operator, row[i], value@)
            } else {
                None
            },
            None => None,
        },
        WhereClause::Expression { left, operator, right } => match (
            eval(left, row, columns),
            eval(right, row, columns),
        ) {
            (Some(a), Some(b)) => compare(operator, a, b),
            _ => None,
        },
        WhereClause::And { left, right } => match eval_where(*left, row, columns) {
            Some(true) => eval_where(*right, row, columns),
            other => other,
        },
        WhereClause::Or { left, right } => match eval_where(*left, row, columns) {
            Some(false) => eval_where(*right, row, columns),
            other => other,
        },
    }
}

/// Short-circuit: when the left side of an `AND` is false on a row, the condition is false
/// whatever the right side would do, even fail; dually for `OR` with a true left side.
pub proof fn lemma_short_circuit(
    left: WhereClause,
    right: WhereClause,
    row: Seq<Value>,
    columns: Seq<ColumnModel>,
)
    ensures
        eval_where(left, row, columns) == Some(false) ==> eval_where(
            WhereClause::And { left: Box::new(left), right: Box::new(right) },
            row,
            columns,
        ) == Some(false),
        eval_where(left, row, columns) == Some(true) ==> eval_where(
            WhereClause::Or { left: Box::new(left), right: Box::new(right) },
            row,
            columns,
        ) == Some(true),
{
}

/// Evaluates a condition on one row.
pub fn evaluate_where_clause(row: &Vec<DataType>, where_clause: &WhereClause, columns: &Vec<Column>) -> (r:
    Result<bool, DbError>)
    ensures
        r is Ok <==> eval_where(*where_clause, row_view(row@), columns_view(columns@)) is Some,
        r matches Ok(b) ==> b == eval_where(*where_clause, row_view(row@), columns_view(columns@))->0,
        r matches Err(e) ==> e is SqlError,
    decreases where_clause,
{
    match where_clause {
        WhereClause::Simple { column, operator, value } => {
            let c = column_name_of(column);
            match find_column(columns, &c) {
                Some(i) => {
                    if i < row.len() {
                        compare_values(*operator, &row[i], value)
                    } else {
                        Err(DbError::SqlError("column index out of range".to_owned()))
                    }
                },
                None => Err(DbError::SqlError("unknown column".to_owned())),
            }
        },
        WhereClause::Expression { left, operator, right } => {
            let l = evaluate_expression_without_storage(left, row, columns)?;
            let r = evaluate_expression_without_storage(right, row, columns)?;
            compare_values(*operator, &l, &r)
        },
        WhereClause::And { left, right } => {
            let l = evaluate_where_clause(row, left, columns)?;
            if !l {
                return Ok(false);
            }
            evaluate_where_clause(row, right, columns)
        },
        WhereClause::Or { left, right } => {
            let l = evaluate_where_clause(row, left, columns)?;
            if l {
                return Ok(true);
            }
            evaluate_where_clause(row, right, columns)
        },
    }
}

} // verus!
