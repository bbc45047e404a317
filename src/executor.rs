use vstd::prelude::*;

use crate::catalog::{has_table, table_pos, MemoryStorage};
use crate::error::DbError;
use crate::eval::{
    qualifiers_match, qualifiers_match_exec, column_index, eval, eval_where, evaluate_expression_without_storage, evaluate_where_clause,
    find_column,
};
use crate::formatter::{render_table, table_text};
use crate::order::{sort_by_column, sort_rows, text_row, text_rows};
use crate::sql::{ArithmeticOperator, Expression, OrderBy, SortDirection, SqlStatement, WhereClause};
use crate::text::{int_text, i32_to_string, push_char, push_str};
use crate::types::{
    columns_view, explains, refused_at, row_view, rows_view, value_text, Column, ColumnModel, DataType, Table, TableModel, Value,
};

verus! {

// ---------------------------------------------------------------- query semantics

/// The outcome of the optional condition on a row (no condition selects every row).
pub open spec fn row_matches(w: Option<WhereClause>, row: Seq<Value>, columns: Seq<ColumnModel>) -> Option<bool> {
    match w {
        None => Some(true),
        Some(c) => eval_where(c, row, columns),
    }
}

/// The texts of the first `n` expressions evaluated on a row.
pub open spec fn project_exprs(es: Seq<Expression>, row: Seq<Value>, columns: Seq<ColumnModel>, n: int) -> Option<
    Seq<Seq<char>>,
>
    decreases n,
{
    if n <= 0 {
        Some(Seq::empty())
    } else {
        match (project_exprs(es, row, columns, n - 1), eval(es[n - 1], row, columns)) {
            (Some(a), Some(v)) => Some(a.push(value_text(v))),
            _ => None,
        }
    }
}

/// A projected row: every cell for `None`, else the expressions' values, as text.
pub open spec fn project(p: Option<Seq<Expression>>, row: Seq<Value>, columns: Seq<ColumnModel>) -> Option<
    Seq<Seq<char>>,
> {
    match p {
        None => Some(row.map_values(|v: Value| value_text(v))),
        Some(es) => project_exprs(es, row, columns, es.len() as int),
    }
}

/// The projected rows, in table order, of the first `m` rows that satisfy the condition;
/// `None` when evaluation fails on one of them.
pub open spec fn result_rows(
    w: Option<WhereClause>,
    p: Option<Seq<Expression>>,
    rows: Seq<Seq<Value>>,
    columns: Seq<ColumnModel>,
    m: int,
) -> Option<Seq<Seq<Seq<char>>>>
    decreases m,
{
    if m <= 0 {
        Some(Seq::empty())
    } else {
        match result_rows(w, p, rows, columns, m - 1) {
            None => None,
            Some(acc) => match row_matches(w, rows[m - 1], columns) {
                None => None,
                Some(false) => Some(acc),
                Some(true) => match project(p, rows[m - 1], columns) {
                    None => None,
                    Some(cells) => Some(acc.push(cells)),
                },
            },
        }
    }
}

/// The position of the first header equal to `name`.
pub open spec fn header_index_from(headers: Seq<Seq<char>>, name: Seq<char>, start: int) -> Option<int>
    decreases headers.len() - start,
{
    if start < 0 || start >= headers.len() {
        None
    } else if headers[start] == name {
        Some(start)
    } else {
        header_index_from(headers, name, start + 1)
    }
}

/// The text a query prints: nothing for an empty result, else the table of the (optionally
/// sorted) rows. `None` is an error: failed evaluation, or an ORDER BY column that is not a
/// header.
pub open spec fn query_text(
    headers: Seq<Seq<char>>,
    rows: Option<Seq<Seq<Seq<char>>>>,
    order: Option<(Seq<char>, SortDirection)>,
) -> Option<Seq<char>> {
    match rows {
        None => None,
        Some(rs) => {
            let sorted = match order {
                None => Some(rs),
                Some((col, dir)) => match header_index_from(headers, col, 0) {
                    None => None,
                    Some(k) => Some(sort_rows(rs, k, dir)),
                },
            };
            match sorted {
                None => None,
                Some(s) => Some(
                    if s.len() == 0 {
                        Seq::empty()
                    } else {
                        table_text(headers, s)
                    },
                ),
            }
        },
    }
}

pub open spec fn order_view(o: Option<OrderBy>) -> Option<(Seq<char>, SortDirection)> {
    match o {
        None => None,
        Some(ob) => Some((ob.column@, ob.direction)),
    }
}

pub open spec fn names_view(names: Seq<String>) -> Seq<Seq<char>> {
    names.map_values(|s: String| s@)
}

pub open spec fn exprs_of_names(names: Seq<String>) -> Seq<Expression> {
    names.map_values(|s: String| Expression::Column(s))
}

pub open spec fn is_star(columns: Seq<String>) -> bool {
    columns.len() == 1 && columns[0]@ == seq!['*']
}

// ---------------------------------------------------------------- expression headers

pub open spec fn precedence(op: ArithmeticOperator) -> int {
    match op {
        ArithmeticOperator::Add | ArithmeticOperator::Subtract => 1,
        _ => 2,
    }
}

pub open spec fn operator_char(op: ArithmeticOperator) -> char {
    match op {
        ArithmeticOperator::Add => '+',
        ArithmeticOperator::Subtract => '-',
        ArithmeticOperator::Multiply => '*',
        ArithmeticOperator::Divide => '/',
    }
}

pub open spec fn literal_text(v: Value) -> Seq<char> {
    match v {
        Value::Int(n) => int_text(n as int),
        Value::Text(s) => seq!['\''] + s + seq!['\''],
        Value::Null => seq!['N', 'U', 'L', 'L'],
    }
}

/// Whether an operand must be parenthesized under an operator of precedence `p`: it binds
/// more loosely, or equally on the right (operators associate to the left).
pub open spec fn needs_parens(e: Expression, p: int, right: bool) -> bool {
    match e {
        Expression::Binary { operator, .. } => precedence(operator) < p || (right && precedence(operator) == p),
        _ => false,
    }
}

/// The source-like text of an expression, used as its column header.
pub open spec fn expression_text(e: Expression) -> Seq<char>
    decreases e,
{
    match e {
        Expression::Literal(v) => literal_text(v@),
        Expression::Column(name) => name@,
        Expression::Binary { left, operator, right } => {
            let p = precedence(operator);
            let l = if needs_parens(*left, p, false) {
                seq!['('] + expression_text(*left) + seq![')']
            } else {
                expression_text(*left)
            };
            let r = if needs_parens(*right, p, true) {
                seq!['('] + expression_text(*right) + seq![')']
            } else {
                expression_text(*right)
            };
            l + seq![operator_char(operator)] + r
        },
    }
}

pub open spec fn headers_of(es: Seq<Expression>) -> Seq<Seq<char>> {
    es.map_values(|e: Expression| expression_text(e))
}

proof fn lemma_project_fails_on(es: Seq<Expression>, row: Seq<Value>, columns: Seq<ColumnModel>, k: int, n: int)
    requires
        0 <= k <= n,
        project_exprs(es, row, columns, k) is None,
    ensures
        project_exprs(es, row, columns, n) is None,
    decreases n - k,
{
    if k < n {
        lemma_project_fails_on(es, row, columns, k, n - 1);
    }
}

proof fn lemma_result_fails_on(
    w: Option<WhereClause>,
    p: Option<Seq<Expression>>,
    rows: Seq<Seq<Value>>,
    columns: Seq<ColumnModel>,
    k: int,
    n: int,
)
    requires
        0 <= k <= n,
        result_rows(w, p, rows, columns, k) is None,
    ensures
        result_rows(w, p, rows, columns, n) is None,
    decreases n - k,
{
    if k < n {
        lemma_result_fails_on(w, p, rows, columns, k, n - 1);
    }
}

// ---------------------------------------------------------------- executable query pieces

fn precedence_of(op: ArithmeticOperator) -> (r: u8)
    ensures
        r as int == precedence(op),
{
    match op {
        ArithmeticOperator::Add | ArithmeticOperator::Subtract => 1,
        _ => 2,
    }
}

fn needs_parens_exec(e: &Expression, p: u8, right: bool) -> (r: bool)
    ensures
        r == needs_parens(*e, p as int, right),
{
    match e {
        Expression::Binary { operator, .. } => {
            let q = precedence_of(*operator);
            q < p || (right && q == p)
        },
        _ => false,
    }
}

fn push_operand(s: &mut String, e: &Expression, p: u8, right: bool)
    ensures
        final(s)@ == old(s)@ + (if needs_parens(*e, p as int, right) {
            seq!['('] + expression_text(*e) + seq![')']
        } else {
            expression_text(*e)
        }),
    decreases e, 1nat,
{
    if needs_parens_exec(e, p, right) {
        push_char(s, '(');
        let t = expression_to_string(e);
        push_str(s, t.as_str());
        push_char(s, ')');
        assert(final(s)@ =~= old(s)@ + (seq!['('] + expression_text(*e) + seq![')']));
    } else {
        let t = expression_to_string(e);
        push_str(s, t.as_str());
    }
}

/// The header text of an expression.
pub fn expression_to_string(expr: &Expression) -> (r: String)
    ensures
        r@ == expression_text(*expr),
    decreases expr, 0nat,
{
    match expr {
        Expression::Literal(value) => match value {
            DataType::Int(n) => i32_to_string(*n),
            DataType::Varchar(t) => {
                let mut s = String::new();
                push_char(&mut s, '\'');
                push_str(&mut s, t.as_str());
                push_char(&mut s, '\'');
                assert(s@ =~= seq!['\''] + t@ + seq!['\'']);
                s
            },
            DataType::Null => value.to_text(),
        },
        Expression::Column(name) => name.clone(),
        Expression::Binary { left, operator, right } => {
            let p = precedence_of(*operator);
            let mut s = String::new();
            push_operand(&mut s, left, p, false);
            let c = match operator {
                ArithmeticOperator::Add => '+',
                ArithmeticOperator::Subtract => '-',
                ArithmeticOperator::Multiply => '*',
                ArithmeticOperator::Divide => '/',
            };
            push_char(&mut s, c);
            push_operand(&mut s, right, p, true);
            assert(s@ =~= expression_text(*expr));
            s
        },
    }
}

fn expression_headers(es: &Vec<Expression>) -> (r: Vec<String>)
    ensures
        text_row(r) == headers_of(es@),
{
    let mut r: Vec<String> = Vec::new();
    let mut i: usize = 0;
    while i < es.len()
        invariant
            i <= es@.len(),
            r@.len() == i,
            forall|k: int| 0 <= k < i ==> (#[trigger] r@[k])@ == expression_text(es@[k]),
        decreases es.len() - i,
    {
        r.push(expression_to_string(&es[i]));
        i += 1;
    }
    assert(text_row(r) =~= headers_of(es@));
    r
}

fn row_text(row: &Vec<DataType>) -> (r: Vec<String>)
    ensures
        r@.len() == row@.len(),
        text_row(r) == row_view(row@).map_values(|v: Value| value_text(v)),
{
    let mut r: Vec<String> = Vec::new();
    let mut i: usize = 0;
    while i < row.len()
        invariant
            i <= row@.len(),
            r@.len() == i,
            forall|k: int| 0 <= k < i ==> (#[trigger] r@[k])@ == value_text(row@[k]@),
        decreases row.len() - i,
    {
        r.push(row[i].to_text());
        i += 1;
    }
    assert(text_row(r) =~= row_view(row@).map_values(|v: Value| value_text(v)));
    r
}

fn project_row(es: &Vec<Expression>, row: &Vec<DataType>, columns: &Vec<Column>) -> (r: Result<
    Vec<String>,
    DbError,
>)
    ensures
        r matches Err(e) ==> e is SqlError,
        r is Ok <==> project_exprs(es@, row_view(row@), columns_view(columns@), es@.len() as int) is Some,
        r matches Ok(cells) ==> text_row(cells) == project_exprs(
            es@,
            row_view(row@),
            columns_view(columns@),
            es@.len() as int,
        )->0 && cells@.len() == es@.len(),
{
    let ghost rv = row_view(row@);
    let ghost cs = columns_view(columns@);
    let mut r: Vec<String> = Vec::new();
    let mut i: usize = 0;
    while i < es.len()
        invariant
            i <= es@.len(),
            rv == row_view(row@),
            cs == columns_view(columns@),
            project_exprs(es@, rv, cs, i as int) == Some(text_row(r)),
            r@.len() == i,
        decreases es.len() - i,
    {
        let v = match evaluate_expression_without_storage(&es[i], row, columns) {
            Ok(v) => v,
            Err(e) => {
                proof {
                    lemma_project_fails_on(es@, rv, cs, i + 1, es@.len() as int);
                }
                return Err(e);
            },
        };
        let t = v.to_text();
        let ghost before = r;
        r.push(t);
        assert(text_row(r) =~= text_row(before).push(value_text(v@)));
        i += 1;
    }
    Ok(r)
}

/// Filters and projects the rows of a table.
fn select_rows(table: &Table, where_clause: &Option<WhereClause>, exprs: Option<&Vec<Expression>>) -> (r: Result<
    Vec<Vec<String>>,
    DbError,
>)
    requires
        table@.wf(),
    ensures
        r matches Err(e) ==> e is SqlError,
        r matches Ok(v) ==> forall|j: int| 0 <= j < v@.len() ==> (#[trigger] v@[j])@.len() == (match exprs {
            None => table.columns@.len(),
            Some(es) => es@.len(),
        }),
        ({
            let p = match exprs {
                None => None,
                Some(es) => Some(es@),
            };
            let rs = result_rows(*where_clause, p, table@.rows, table@.columns, table@.rows.len() as int);
            &&& r is Ok <==> rs is Some
            &&& r matches Ok(v) ==> text_rows(v@) == rs->0
        }),
{
    let ghost p = match exprs {
        None => None,
        Some(es) => Some(es@),
    };
    let ghost t = table@;
    let mut out: Vec<Vec<String>> = Vec::new();
    assert(text_rows(out@) =~= Seq::<Seq<Seq<char>>>::empty());
    let mut j: usize = 0;
    while j < table.rows.len()
        invariant
            j <= table.rows@.len(),
            t == table@,
            p == (match exprs {
                None => None,
                Some(es) => Some(es@),
            }),
            result_rows(*where_clause, p, t.rows, t.columns, j as int) == Some(text_rows(out@)),
            t.wf(),
            forall|x: int| 0 <= x < out@.len() ==> (#[trigger] out@[x])@.len() == (match exprs {
                None => table.columns@.len(),
                Some(es) => es@.len(),
            }),
        decreases table.rows.len() - j,
    {
        let row = &table.rows[j];
        assert(t.rows[j as int] == row_view(row@));
        assert(crate::types::row_fits(t.columns, t.rows[j as int]));
        assert(row@.len() == table.columns@.len());
        let keep = match where_clause {
            None => true,
            Some(c) => match evaluate_where_clause(row, c, &table.columns) {
                Ok(b) => b,
                Err(e) => {
                    proof {
                        lemma_result_fails_on(*where_clause, p, t.rows, t.columns, j + 1, t.rows.len() as int);
                    }
                    return Err(e);
                },
            },
        };
        if keep {
            let cells = match exprs {
                None => row_text(row),
                Some(es) => match project_row(es, row, &table.columns) {
                    Ok(c) => c,
                    Err(e) => {
                        proof {
                            lemma_result_fails_on(*where_clause, p, t.rows, t.columns, j + 1, t.rows.len() as int);
                        }
                        return Err(e);
                    },
                },
            };
            let ghost before = out@;
            out.push(cells);
            assert(text_rows(out@) =~= text_rows(before).push(text_row(cells)));
        }
        j += 1;
    }
    Ok(out)
}

fn header_position(headers: &Vec<String>, name: &String) -> (r: Option<usize>)
    ensures
        r matches Some(k) ==> header_index_from(text_row(*headers), name@, 0) == Some(k as int) && k
            < headers@.len(),
        r is None ==> header_index_from(text_row(*headers), name@, 0) is None,
{
    let ghost hs = text_row(*headers);
    let mut i: usize = 0;
    while i < headers.len()
        invariant
            i <= headers@.len(),
            hs == text_row(*headers),
            header_index_from(hs, name@, 0) == header_index_from(hs, name@, i as int),
        decreases headers.len() - i,
    {
        assert(hs[i as int] == headers@[i as int]@);
        if headers[i] == *name {
            return Some(i);
        }
        i += 1;
    }
    None
}

/// Sorts (when asked) and renders the rows of a query result; empty text for no rows.
fn finish_query(headers: &Vec<String>, rows: Vec<Vec<String>>, order_by: &Option<OrderBy>) -> (r: Result<
    String,
    DbError,
>)
    requires
        forall|j: int| 0 <= j < rows@.len() ==> (#[trigger] rows@[j])@.len() == headers@.len(),
    ensures
        r matches Err(e) ==> e is SqlError,
        r is Ok <==> query_text(text_row(*headers), Some(text_rows(rows@)), order_view(*order_by)) is Some,
        r matches Ok(s) ==> s@ == query_text(text_row(*headers), Some(text_rows(rows@)), order_view(*order_by))->0,
{
    let mut rows = rows;
    match order_by {
        None => {},
        Some(ob) => match header_position(headers, &ob.column) {
            None => {
                return Err(DbError::SqlError("ORDER BY column is not in the result".to_owned()));
            },
            Some(k) => {
                assert forall|j: int| 0 <= j < text_rows(rows@).len() implies k < (#[trigger] text_rows(
                    rows@,
                )[j]).len() by {
                    assert(text_rows(rows@)[j].len() == rows@[j]@.len());
                }
                sort_by_column(&mut rows, k, ob.direction);
            },
        },
    }
    if rows.len() == 0 {
        Ok(String::new())
    } else {
        Ok(render_table(headers, &rows))
    }
}

// ---------------------------------------------------------------- modification semantics

/// Whether each of the first `m` rows satisfies the condition; `None` when evaluation fails.
pub open spec fn where_mask(w: WhereClause, rows: Seq<Seq<Value>>, columns: Seq<ColumnModel>, m: int) -> Option<
    Seq<bool>,
>
    decreases m,
{
    if m <= 0 {
        Some(Seq::empty())
    } else {
        match (where_mask(w, rows, columns, m - 1), eval_where(w, rows[m - 1], columns)) {
            (Some(a), Some(b)) => Some(a.push(b)),
            _ => None,
        }
    }
}

/// An UPDATE that would break the table invariants fails with the table's error for the
/// first new row that the table refuses.
pub open spec fn update_refused(name: Seq<char>, columns: Seq<ColumnModel>, rows: Seq<Seq<Value>>, e: DbError) -> bool {
    e matches DbError::TypeError(te) && exists|k: int| #[trigger] refused_at(name, columns, rows, k, te)
}

/// The mask that selects every one of `n` rows.
pub open spec fn all_rows(n: nat) -> Seq<bool> {
    Seq::new(n, |j: int| true)
}

/// The first `m` rows whose mask entry is false, in order.
pub open spec fn keep_unmatched(rows: Seq<Seq<Value>>, mask: Seq<bool>, m: int) -> Seq<Seq<Value>>
    decreases m,
{
    if m <= 0 {
        Seq::empty()
    } else if mask[m - 1] {
        keep_unmatched(rows, mask, m - 1)
    } else {
        keep_unmatched(rows, mask, m - 1).push(rows[m - 1])
    }
}

pub open spec fn set_view(set: Seq<(String, DataType)>) -> Seq<(Seq<char>, Value)> {
    set.map_values(|a: (String, DataType)| (a.0@, a.1@))
}

/// A row after the first `n` assignments; assignments to unknown columns are ignored.
pub open spec fn assign(row: Seq<Value>, columns: Seq<ColumnModel>, set: Seq<(Seq<char>, Value)>, n: int) -> Seq<
    Value,
>
    decreases n,
{
    if n <= 0 {
        row
    } else {
        let r = assign(row, columns, set, n - 1);
        match column_index(columns, set[n - 1].0) {
            Some(p) => r.update(p, set[n - 1].1),
            None => r,
        }
    }
}

pub open spec fn updated_rows(
    rows: Seq<Seq<Value>>,
    mask: Seq<bool>,
    columns: Seq<ColumnModel>,
    set: Seq<(Seq<char>, Value)>,
) -> Seq<Seq<Value>> {
    Seq::new(rows.len(), |j: int| if mask[j] { assign(rows[j], columns, set, set.len() as int) } else { rows[j] })
}

/// Inserting the first `n` rows one after another, stopping at the first refused row: the
/// resulting table, and whether every row went in.
pub open spec fn insert_all(t: TableModel, rows: Seq<Seq<Value>>, n: int) -> (TableModel, bool)
    decreases n,
{
    if n <= 0 {
        (t, true)
    } else {
        let (u, ok) = insert_all(t, rows, n - 1);
        if ok && u.accepts(rows[n - 1]) {
            (TableModel { rows: u.rows.push(rows[n - 1]), ..u }, true)
        } else {
            (u, false)
        }
    }
}

/// A full row from values for the named columns (after the first `n` of them); the other
/// columns are NULL, and a later value for a repeated name wins.
pub open spec fn remap(columns: Seq<ColumnModel>, names: Seq<Seq<char>>, vals: Seq<Value>, n: int) -> Seq<Value>
    decreases n,
{
    if n <= 0 {
        Seq::new(columns.len(), |i: int| Value::Null)
    } else {
        match column_index(columns, names[n - 1]) {
            Some(p) => remap(columns, names, vals, n - 1).update(p, vals[n - 1]),
            None => remap(columns, names, vals, n - 1),
        }
    }
}

/// Like `insert_all`, for rows of values for the named columns; a row of the wrong length
/// is refused.
pub open spec fn insert_named(t: TableModel, names: Seq<Seq<char>>, rows: Seq<Seq<Value>>, n: int) -> (
    TableModel,
    bool,
)
    decreases n,
{
    if n <= 0 {
        (t, true)
    } else {
        let (u, ok) = insert_named(t, names, rows, n - 1);
        let full = remap(u.columns, names, rows[n - 1], names.len() as int);
        if ok && rows[n - 1].len() == names.len() && u.accepts(full) {
            (TableModel { rows: u.rows.push(full), ..u }, true)
        } else {
            (u, false)
        }
    }
}

/// Dropping the first `n` names in order, skipping those that are absent.
pub open spec fn drop_all(ts: Seq<TableModel>, names: Seq<Seq<char>>, n: int) -> Seq<TableModel>
    decreases n,
{
    if n <= 0 {
        ts
    } else {
        let b = drop_all(ts, names, n - 1);
        if has_table(b, names[n - 1]) {
            b.remove(table_pos(b, names[n - 1]))
        } else {
            b
        }
    }
}

/// The diagnostic for a name that a multi-table DROP cannot remove.
pub open spec fn drop_warning(name: Seq<char>) -> Seq<char> {
    "table does not exist: "@ + name
}

/// The diagnostics of dropping the first `n` names in order: one per name absent at its turn.
pub open spec fn drop_warnings(ts: Seq<TableModel>, names: Seq<Seq<char>>, n: int) -> Seq<Seq<char>>
    decreases n,
{
    if n <= 0 {
        Seq::empty()
    } else {
        let prev = drop_warnings(ts, names, n - 1);
        if has_table(drop_all(ts, names, n - 1), names[n - 1]) {
            prev
        } else {
            prev.push(drop_warning(names[n - 1]))
        }
    }
}

pub open spec fn all_named(columns: Seq<ColumnModel>, names: Seq<Seq<char>>) -> bool {
    forall|i: int| 0 <= i < names.len() ==> column_index(columns, #[trigger] names[i]) is Some
}

pub open spec fn unit_result(r: Result<String, DbError>) -> Result<(), DbError> {
    match r {
        Ok(_) => Ok(()),
        Err(e) => Err(e),
    }
}

/// What a statement does to the catalog and what it prints.
pub open spec fn executes(s: SqlStatement, before: Seq<TableModel>, after: Seq<TableModel>, r: Result<String, DbError>) -> bool {
    let silent = r matches Ok(t) ==> t@.len() == 0;
    match s {
        SqlStatement::CreateTable { name, columns } => {
            &&& silent
            &&& r is Ok <==> !has_table(before, name@)
            &&& r matches Err(e) ==> e is TableError
            &&& r is Ok ==> after == before.push(
                TableModel { name: name@, columns: columns_view(columns@), rows: Seq::empty() },
            )
            &&& r is Err ==> after == before
        },
        SqlStatement::DropTable { name } => {
            &&& silent
            &&& r is Ok <==> has_table(before, name@)
            &&& r matches Err(e) ==> e is TableError
            &&& r is Ok ==> after == before.remove(table_pos(before, name@))
            &&& r is Err ==> after == before
        },
        SqlStatement::DropTables { names } => {
            &&& silent
            &&& r is Ok
            &&& after == drop_all(before, names_view(names@), names@.len() as int)
        },
        SqlStatement::Insert { table, values } => silent && inserts(
            before,
            after,
            table@,
            seq![row_view(values@)],
            unit_result(r),
        ),
        SqlStatement::InsertMultiple { table, rows } => silent && inserts(
            before,
            after,
            table@,
            rows_view(rows@),
            unit_result(r),
        ),
        SqlStatement::InsertWithColumns { table, columns, rows } => silent && named_inserts(
            before,
            after,
            table@,
            names_view(columns@),
            rows_view(rows@),
            unit_result(r),
        ),
        SqlStatement::Update { table, set, where_clause } => {
            &&& silent
            &&& !has_table(before, table@) ==> (r matches Err(e) && e is TableError) && after == before
            &&& has_table(before, table@) ==> {
                let i = table_pos(before, table@);
                let t = before[i];
                let mask = match where_clause {
                    None => Some(all_rows(t.rows.len())),
                    Some(w) => where_mask(w, t.rows, t.columns, t.rows.len() as int),
                };
                &&& mask is None ==> (r matches Err(e) && e is SqlError) && after == before
                &&& mask matches Some(m) ==> {
                    let rows = updated_rows(t.rows, m, t.columns, set_view(set@));
                    &&& r is Ok <==> crate::types::rows_wf(t.columns, rows)
                    &&& r is Ok ==> after == before.update(i, TableModel { rows, ..t })
                    &&& r is Err ==> after == before
                    &&& r matches Err(e) ==> update_refused(t.name, t.columns, rows, e)
                }
            }
        },
        SqlStatement::Delete { table, where_clause } => {
            &&& silent
            &&& !has_table(before, table@) ==> (r matches Err(e) && e is TableError) && after == before
            &&& has_table(before, table@) ==> {
                let i = table_pos(before, table@);
                let t = before[i];
                match where_clause {
                    None => r is Ok && after == before.update(i, TableModel { rows: Seq::empty(), ..t }),
                    Some(w) => match where_mask(w, t.rows, t.columns, t.rows.len() as int) {
                        None => (r matches Err(e) && e is SqlError) && after == before,
                        Some(m) => r is Ok && after == before.update(
                            i,
                            TableModel { rows: keep_unmatched(t.rows, m, t.rows.len() as int), ..t },
                        ),
                    },
                }
            }
        },
        SqlStatement::Select { columns, table, where_clause, order_by } => {
            &&& after == before
            &&& !has_table(before, table@) ==> (r matches Err(e) && e is TableError)
            &&& has_table(before, table@) ==> {
                let t = before[table_pos(before, table@)];
                let star = is_star(columns@);
                let headers = if star { t.columns.map_values(|c: ColumnModel| c.name) } else { names_view(columns@) };
                let p = if star { None } else { Some(exprs_of_names(columns@)) };
                let q = query_text(
                    headers,
                    result_rows(where_clause, p, t.rows, t.columns, t.rows.len() as int),
                    order_view(order_by),
                );
                &&& r is Ok <==> q is Some
                &&& r matches Ok(out) ==> out@ == q->0
                &&& r matches Err(e) ==> e is SqlError
            }
        },
        SqlStatement::SelectExpression { expressions } => {
            let q = match project_exprs(expressions@, Seq::empty(), Seq::empty(), expressions@.len() as int) {
                None => None,
                Some(cells) => query_text(headers_of(expressions@), Some(seq![cells]), None),
            };
            &&& after == before
            &&& r is Ok <==> q is Some
            &&& r matches Ok(out) ==> out@ == q->0
            &&& r matches Err(e) ==> e is SqlError
        },
        SqlStatement::SelectWithExpressions { expressions, table, where_clause, order_by } => {
            &&& after == before
            &&& !has_table(before, table@) ==> (r matches Err(e) && e is TableError)
            &&& has_table(before, table@) ==> {
                let t = before[table_pos(before, table@)];
                let q = query_text(
                    headers_of(expressions@),
                    result_rows(where_clause, Some(expressions@), t.rows, t.columns, t.rows.len() as int),
                    order_view(order_by),
                );
                &&& r is Ok <==> q is Some
                &&& r matches Ok(out) ==> out@ == q->0
                &&& r matches Err(e) ==> e is SqlError
            }
        },
    }
}

/// The error for a refused positional row: a `SqlError` when its length is not the table's
/// arity, else the table's own validation error.
pub open spec fn refused_error(t: TableModel, row: Seq<Value>, e: DbError) -> bool {
    if row.len() != t.columns.len() {
        e is SqlError
    } else {
        e matches DbError::TypeError(te) && explains(t, row, te)
    }
}

/// The error for a refused row of named values: a `SqlError` when the number of values is
/// not the number of names, else the table's validation error for the full row.
pub open spec fn refused_named_error(t: TableModel, names: Seq<Seq<char>>, vals: Seq<Value>, e: DbError) -> bool {
    if vals.len() != names.len() {
        e is SqlError
    } else {
        e matches DbError::TypeError(te) && explains(t, remap(t.columns, names, vals, names.len() as int), te)
    }
}

/// The effect of inserting rows of values for the named columns of table `name`; every name
/// must be a column of the table.
pub open spec fn named_inserts(
    before: Seq<TableModel>,
    after: Seq<TableModel>,
    name: Seq<char>,
    names: Seq<Seq<char>>,
    rows: Seq<Seq<Value>>,
    r: Result<(), DbError>,
) -> bool {
    &&& !has_table(before, name) ==> (r matches Err(e) && e is TableError) && after == before
    &&& has_table(before, name) ==> {
        let i = table_pos(before, name);
        let t = before[i];
        let (u, ok) = insert_named(t, names, rows, rows.len() as int);
        &&& !all_named(t.columns, names) ==> (r matches Err(e) && e is SqlError) && after == before
        &&& all_named(t.columns, names) ==> {
            &&& after == before.update(i, u)
            &&& r is Ok <==> ok
            &&& r matches Err(e) ==> exists|k: int|
                0 <= k < rows.len() && #[trigger] insert_named(t, names, rows, k).1 && !insert_named(
                    t,
                    names,
                    rows,
                    k + 1,
                ).1 && refused_named_error(insert_named(t, names, rows, k).0, names, rows[k], e)
        }
    }
}

/// The effect of positional inserts of `rows` into table `name`: rows go in one after
/// another; the first refused row stops the statement with its error, and the rows before it
/// stay.
pub open spec fn inserts(before: Seq<TableModel>, after: Seq<TableModel>, name: Seq<char>, rows: Seq<Seq<Value>>, r: Result<(), DbError>) -> bool {
    &&& !has_table(before, name) ==> (r matches Err(e) && e is TableError) && after == before
    &&& has_table(before, name) ==> {
        let i = table_pos(before, name);
        let (u, all) = insert_all(before[i], rows, rows.len() as int);
        &&& after == before.update(i, u)
        &&& r is Ok <==> all
        &&& r matches Err(e) ==> exists|k: int|
            0 <= k < rows.len() && #[trigger] insert_all(before[i], rows, k).1 && !insert_all(before[i], rows, k + 1).1
                && refused_error(insert_all(before[i], rows, k).0, rows[k], e)
    }
}

proof fn lemma_insert_all_stops(t: TableModel, rows: Seq<Seq<Value>>, k: int, n: int)
    requires
        0 <= k <= n,
        !insert_all(t, rows, k).1,
    ensures
        insert_all(t, rows, n) == insert_all(t, rows, k),
    decreases n - k,
{
    if k < n {
        lemma_insert_all_stops(t, rows, k, n - 1);
    }
}

proof fn lemma_insert_named_stops(t: TableModel, names: Seq<Seq<char>>, rows: Seq<Seq<Value>>, k: int, n: int)
    requires
        0 <= k <= n,
        !insert_named(t, names, rows, k).1,
    ensures
        insert_named(t, names, rows, n) == insert_named(t, names, rows, k),
    decreases n - k,
{
    if k < n {
        lemma_insert_named_stops(t, names, rows, k, n - 1);
    }
}

proof fn lemma_insert_all_shape(t: TableModel, rows: Seq<Seq<Value>>, n: int)
    requires
        0 <= n,
    ensures
        insert_all(t, rows, n).0.name == t.name,
        insert_all(t, rows, n).0.columns == t.columns,
    decreases n,
{
    if n > 0 {
        lemma_insert_all_shape(t, rows, n - 1);
    }
}

proof fn lemma_insert_named_shape(t: TableModel, names: Seq<Seq<char>>, rows: Seq<Seq<Value>>, n: int)
    requires
        0 <= n,
    ensures
        insert_named(t, names, rows, n).0.name == t.name,
        insert_named(t, names, rows, n).0.columns == t.columns,
    decreases n,
{
    if n > 0 {
        lemma_insert_named_shape(t, names, rows, n - 1);
    }
}

proof fn lemma_mask_fails_on(w: WhereClause, rows: Seq<Seq<Value>>, columns: Seq<ColumnModel>, k: int, n: int)
    requires
        0 <= k <= n,
        where_mask(w, rows, columns, k) is None,
    ensures
        where_mask(w, rows, columns, n) is None,
    decreases n - k,
{
    if k < n {
        lemma_mask_fails_on(w, rows, columns, k, n - 1);
    }
}

proof fn lemma_mask_len(w: WhereClause, rows: Seq<Seq<Value>>, columns: Seq<ColumnModel>, m: int)
    requires
        0 <= m,
        where_mask(w, rows, columns, m) is Some,
    ensures
        where_mask(w, rows, columns, m)->0.len() == m,
    decreases m,
{
    if m > 0 {
        lemma_mask_len(w, rows, columns, m - 1);
    }
}

/// Keeping the unmatched rows keeps the table invariants; every kept row is one of the
/// first `m` rows.
proof fn lemma_keep_unmatched_wf(columns: Seq<ColumnModel>, rows: Seq<Seq<Value>>, mask: Seq<bool>, m: int)
    requires
        crate::types::rows_wf(columns, rows),
        0 <= m <= rows.len(),
        mask.len() >= m,
    ensures
        crate::types::rows_wf(columns, keep_unmatched(rows, mask, m)),
        forall|x: int| 0 <= x < keep_unmatched(rows, mask, m).len() ==> exists|j: int|
            0 <= j < m && #[trigger] keep_unmatched(rows, mask, m)[x] == rows[j],
    decreases m,
{
    if m > 0 {
        lemma_keep_unmatched_wf(columns, rows, mask, m - 1);
        let prev = keep_unmatched(rows, mask, m - 1);
        let cur = keep_unmatched(rows, mask, m);
        if !mask[m - 1] {
            assert(crate::types::row_fits(columns, rows[m - 1]));
            match crate::types::pk_index(columns) {
                None => {},
                Some(k) => {
                    if !(rows[m - 1][k] is Null) {
                        assert forall|x: int| 0 <= x < prev.len() implies #[trigger] prev[x][k] != rows[m - 1][k] by {
                            let j = choose|j: int| 0 <= j < m - 1 && #[trigger] prev[x] == rows[j];
                            assert(rows[j][k] != rows[m - 1][k]);
                        }
                    }
                },
            }
            crate::types::lemma_push_keeps_wf(columns, prev, rows[m - 1]);
            assert forall|x: int| 0 <= x < cur.len() implies exists|j: int|
                0 <= j < m && #[trigger] cur[x] == rows[j] by {
                if x < prev.len() {
                    let j = choose|j: int| 0 <= j < m - 1 && #[trigger] prev[x] == rows[j];
                    assert(cur[x] == rows[j]);
                } else {
                    assert(cur[x] == rows[m - 1]);
                }
            }
        } else {
            assert forall|x: int| 0 <= x < cur.len() implies exists|j: int|
                0 <= j < m && #[trigger] cur[x] == rows[j] by {
                let j = choose|j: int| 0 <= j < m - 1 && #[trigger] prev[x] == rows[j];
            }
        }
    }
}

// ---------------------------------------------------------------- executable modifications

fn missing_table() -> (r: DbError)
    ensures
        r is TableError,
{
    DbError::TableError("table does not exist".to_owned())
}

/// Checks a row's arity before it is handed to the table.
fn precheck_row(columns: &Vec<Column>, row: &Vec<DataType>) -> (r: Result<(), DbError>)
    ensures
        r is Ok <==> row@.len() == columns@.len(),
        r matches Err(e) ==> e is SqlError,
{
    if row.len() != columns.len() {
        return Err(DbError::SqlError("value count does not match column count".to_owned()));
    }
    Ok(())
}

/// Inserts positional rows, one after another; the first refused row stops the statement and
/// the rows before it stay.
fn insert_rows(storage: &mut MemoryStorage, table: &String, rows: &Vec<Vec<DataType>>) -> (r: Result<(), DbError>)
    requires
        old(storage).wf(),
    ensures
        final(storage).wf(),
        inserts(old(storage)@, final(storage)@, table@, rows_view(rows@), r),
{
    let pos = match storage.position(table.as_str()) {
        None => {
            return Err(missing_table());
        },
        Some(p) => p,
    };
    let ghost t0 = storage@[pos as int];
    let ghost rv = rows_view(rows@);
    let columns = crate::types::copy_columns(&storage.get_tables()[pos].columns);
    assert(columns_view(columns@) == t0.columns);
    let mut j: usize = 0;
    while j < rows.len()
        invariant
            j <= rows@.len(),
            storage.wf(),
            pos < old(storage)@.len(),
            t0 == old(storage)@[pos as int],
            table_pos(old(storage)@, table@) == pos,
            has_table(old(storage)@, table@),
            old(storage)@[pos as int].name == table@,
            rv == rows_view(rows@),
            columns_view(columns@) == t0.columns,
            insert_all(t0, rv, j as int).1,
            storage@ == old(storage)@.update(pos as int, insert_all(t0, rv, j as int).0),
        decreases rows.len() - j,
    {
        let ghost u = insert_all(t0, rv, j as int).0;
        proof {
            lemma_insert_all_shape(t0, rv, j as int);
            assert(storage@[pos as int] == u);
            crate::catalog::lemma_table_pos(storage@, table@, pos as int);
        }
        let row = crate::types::copy_row(&rows[j]);
        assert(row_view(row@) == rv[j as int]);
        let res = match precheck_row(&columns, &row) {
            Err(e) => Err(e),
            Ok(()) => storage.insert_row(table.as_str(), row),
        };
        if res.is_err() {
            proof {
                lemma_insert_all_stops(t0, rv, j + 1, rv.len() as int);
                assert(refused_error(u, rv[j as int], res->Err_0));
                assert(insert_all(t0, rv, j as int).1 && !insert_all(t0, rv, j + 1).1);
            }
            return res;
        }
        assert(storage@ =~= old(storage)@.update(pos as int, insert_all(t0, rv, j + 1).0));
        j += 1;
    }
    Ok(())
}

/// Inserts rows of values for named columns; all names must be columns of the table.
fn insert_named_rows(storage: &mut MemoryStorage, table: &String, names: &Vec<String>, rows: &Vec<Vec<DataType>>) -> (r:
    Result<(), DbError>)
    requires
        old(storage).wf(),
    ensures
        final(storage).wf(),
        named_inserts(old(storage)@, final(storage)@, table@, names_view(names@), rows_view(rows@), r),
{
    let pos = match storage.position(table.as_str()) {
        None => {
            return Err(missing_table());
        },
        Some(p) => p,
    };
    let ghost t0 = storage@[pos as int];
    let ghost rv = rows_view(rows@);
    let ghost nv = names_view(names@);
    let columns = crate::types::copy_columns(&storage.get_tables()[pos].columns);
    assert(columns_view(columns@) == t0.columns);
    // every named column must exist
    let mut k: usize = 0;
    while k < names.len()
        invariant
            k <= names@.len(),
            storage.wf(),
            storage@ == old(storage)@,
            pos < old(storage)@.len(),
            t0 == old(storage)@[pos as int],
            table_pos(old(storage)@, table@) == pos,
            has_table(old(storage)@, table@),
            nv == names_view(names@),
            columns_view(columns@) == t0.columns,
            forall|x: int| 0 <= x < k ==> column_index(t0.columns, #[trigger] nv[x]) is Some,
        decreases names.len() - k,
    {
        assert(nv[k as int] == names@[k as int]@);
        if find_column(&columns, &names[k]).is_none() {
            assert(column_index(t0.columns, nv[k as int]) is None);
            assert(!all_named(t0.columns, nv));
            return Err(DbError::SqlError("unknown column in column list".to_owned()));
        }
        k += 1;
    }
    assert(all_named(t0.columns, nv));
    let mut j: usize = 0;
    while j < rows.len()
        invariant
            j <= rows@.len(),
            storage.wf(),
            pos < old(storage)@.len(),
            t0 == old(storage)@[pos as int],
            table_pos(old(storage)@, table@) == pos,
            has_table(old(storage)@, table@),
            old(storage)@[pos as int].name == table@,
            rv == rows_view(rows@),
            nv == names_view(names@),
            all_named(t0.columns, nv),
            columns_view(columns@) == t0.columns,
            insert_named(t0, nv, rv, j as int).1,
            storage@ == old(storage)@.update(pos as int, insert_named(t0, nv, rv, j as int).0),
        decreases rows.len() - j,
    {
        let ghost u = insert_named(t0, nv, rv, j as int).0;
        proof {
            lemma_insert_named_shape(t0, nv, rv, j as int);
            assert(storage@[pos as int] == u);
            crate::catalog::lemma_table_pos(storage@, table@, pos as int);
        }
        let vals = &rows[j];
        assert(row_view(vals@) == rv[j as int]);
        if vals.len() != names.len() {
            proof {
                lemma_insert_named_stops(t0, nv, rv, j + 1, rv.len() as int);
                assert(insert_named(t0, nv, rv, j as int).1 && !insert_named(t0, nv, rv, j + 1).1);
            }
            let e = DbError::SqlError("value count does not match column list".to_owned());
            assert(refused_named_error(u, nv, rv[j as int], e));
            return Err(e);
        }
        // build the full row in table order
        let mut full: Vec<DataType> = Vec::new();
        let mut c: usize = 0;
        while c < columns.len()
            invariant
                c <= columns@.len(),
                full@.len() == c,
                forall|x: int| 0 <= x < c ==> (#[trigger] full@[x])@ == Value::Null,
            decreases columns.len() - c,
        {
            full.push(DataType::Null);
            c += 1;
        }
        assert(row_view(full@) =~= remap(t0.columns, nv, rv[j as int], 0));
        let mut k: usize = 0;
        while k < names.len()
            invariant
                k <= names@.len(),
                vals@.len() == names@.len(),
                nv == names_view(names@),
                all_named(t0.columns, nv),
                columns_view(columns@) == t0.columns,
                row_view(vals@) == rv[j as int],
                full@.len() == columns@.len(),
                row_view(full@) == remap(t0.columns, nv, rv[j as int], k as int),
            decreases names.len() - k,
        {
            assert(nv[k as int] == names@[k as int]@);
            assert(column_index(t0.columns, nv[k as int]) is Some);
            match find_column(&columns, &names[k]) {
                Some(p) => {
                    proof {
                        crate::eval::lemma_column_index_from(t0.columns, nv[k as int], 0);
                    }
                    let ghost before = row_view(full@);
                    full.set(p, vals[k].copy());
                    assert(row_view(full@) =~= before.update(p as int, rv[j as int][k as int]));
                },
                None => {},
            }
            k += 1;
        }
        let ghost fv = row_view(full@);
        let res = storage.insert_row(table.as_str(), full);
        if res.is_err() {
            proof {
                lemma_insert_named_stops(t0, nv, rv, j + 1, rv.len() as int);
                assert(insert_named(t0, nv, rv, j as int).1 && !insert_named(t0, nv, rv, j + 1).1);
                assert(refused_named_error(u, nv, rv[j as int], res->Err_0));
            }
            return res;
        }
        assert(storage@ =~= old(storage)@.update(pos as int, insert_named(t0, nv, rv, j + 1).0));
        j += 1;
    }
    Ok(())
}

/// Evaluates the condition on every row of a table.
fn compute_mask(table: &Table, w: &WhereClause) -> (r: Result<Vec<bool>, DbError>)
    ensures
        r matches Err(e) ==> e is SqlError,
        r is Ok <==> where_mask(*w, table@.rows, table@.columns, table@.rows.len() as int) is Some,
        r matches Ok(m) ==> m@ == where_mask(*w, table@.rows, table@.columns, table@.rows.len() as int)->0,
{
    let ghost t = table@;
    let mut m: Vec<bool> = Vec::new();
    let mut j: usize = 0;
    while j < table.rows.len()
        invariant
            j <= table.rows@.len(),
            t == table@,
            where_mask(*w, t.rows, t.columns, j as int) == Some(m@),
        decreases table.rows.len() - j,
    {
        assert(t.rows[j as int] == row_view(table.rows@[j as int]@));
        match evaluate_where_clause(&table.rows[j], w, &table.columns) {
            Ok(b) => {
                m.push(b);
            },
            Err(e) => {
                proof {
                    lemma_mask_fails_on(*w, t.rows, t.columns, j + 1, t.rows.len() as int);
                }
                return Err(e);
            },
        }
        j += 1;
    }
    Ok(m)
}

/// Applies the assignments to one row.
fn assign_row(row: &mut Vec<DataType>, columns: &Vec<Column>, set: &Vec<(String, DataType)>)
    requires
        old(row)@.len() == columns@.len(),
    ensures
        final(row)@.len() == columns@.len(),
        row_view(final(row)@) == assign(row_view(old(row)@), columns_view(columns@), set_view(set@), set@.len() as int),
{
    let ghost cs = columns_view(columns@);
    let ghost sv = set_view(set@);
    let mut k: usize = 0;
    while k < set.len()
        invariant
            k <= set@.len(),
            row@.len() == columns@.len(),
            cs == columns_view(columns@),
            sv == set_view(set@),
            row_view(row@) == assign(row_view(old(row)@), cs, sv, k as int),
        decreases set.len() - k,
    {
        let (name, value) = &set[k];
        assert(sv[k as int] == (name@, value@));
        match find_column(columns, name) {
            Some(p) => {
                proof {
                    crate::eval::lemma_column_index_from(cs, name@, 0);
                }
                let ghost before = row_view(row@);
                row.set(p, value.copy());
                assert(row_view(row@) =~= before.update(p as int, value@));
            },
            None => {},
        }
        k += 1;
    }
}

fn update_table(
    storage: &mut MemoryStorage,
    table: &String,
    set: &Vec<(String, DataType)>,
    where_clause: &Option<WhereClause>,
) -> (r: Result<String, DbError>)
    requires
        old(storage).wf(),
    ensures
        final(storage).wf(),
        r matches Ok(t) ==> t@.len() == 0,
        !has_table(old(storage)@, table@) ==> (r matches Err(e) && e is TableError) && final(storage)@
            == old(storage)@,
        has_table(old(storage)@, table@) ==> {
            let i = table_pos(old(storage)@, table@);
            let t = old(storage)@[i];
            let mask = match *where_clause {
                None => Some(all_rows(t.rows.len())),
                Some(w) => where_mask(w, t.rows, t.columns, t.rows.len() as int),
            };
            &&& mask is None ==> (r matches Err(e) && e is SqlError) && final(storage)@ == old(storage)@
            &&& mask matches Some(m) ==> {
                let rows = updated_rows(t.rows, m, t.columns, set_view(set@));
                &&& r is Ok <==> crate::types::rows_wf(t.columns, rows)
                &&& r is Ok ==> final(storage)@ == old(storage)@.update(i, TableModel { rows, ..t })
                &&& r is Err ==> final(storage)@ == old(storage)@
                &&& r matches Err(e) ==> update_refused(t.name, t.columns, rows, e)
            }
        },
{
    let pos = match storage.position(table.as_str()) {
        None => {
            return Err(missing_table());
        },
        Some(p) => p,
    };
    let t = &storage.get_tables()[pos];
    let ghost t0 = t@;
    assert(t0 == old(storage)@[pos as int]);
    let mask = match where_clause {
        None => {
            let mut m: Vec<bool> = Vec::new();
            let mut j: usize = 0;
            while j < t.rows.len()
                invariant
                    j <= t.rows@.len(),
                    m@ == all_rows(j as nat),
                decreases t.rows.len() - j,
            {
                m.push(true);
                j += 1;
                assert(m@ =~= all_rows(j as nat));
            }
            m
        },
        Some(w) => compute_mask(t, w)?,
    };
    let ghost mv = mask@;
    let ghost sv = set_view(set@);
    proof {
        if where_clause is Some {
            lemma_mask_len(where_clause->0, t0.rows, t0.columns, t0.rows.len() as int);
        }
    }
    let mut rows: Vec<Vec<DataType>> = Vec::new();
    let mut j: usize = 0;
    while j < t.rows.len()
        invariant
            j <= t.rows@.len(),
            t0 == t@,
            t0.wf(),
            mv == mask@,
            mv.len() == t0.rows.len(),
            sv == set_view(set@),
            rows@.len() == j,
            forall|x: int| 0 <= x < j ==> row_view((#[trigger] rows@[x])@) == updated_rows(t0.rows, mv, t0.columns, sv)[x],
        decreases t.rows.len() - j,
    {
        let mut row = crate::types::copy_row(&t.rows[j]);
        assert(row_view(row@) == t0.rows[j as int]);
        assert(crate::types::row_fits(t0.columns, t0.rows[j as int]));
        if mask[j] {
            assign_row(&mut row, &t.columns, set);
        }
        rows.push(row);
        j += 1;
    }
    assert(rows_view(rows@) =~= updated_rows(t0.rows, mv, t0.columns, sv));
    match storage.replace_rows(pos, &rows) {
        Ok(()) => Ok(String::new()),
        Err(e) => {
            proof {
                let te = e->TypeError_0;
                let k = choose|k: int| #[trigger] refused_at(t0.name, t0.columns, rows_view(rows@), k, te);
                if where_clause is None {
                    assert(mv =~= all_rows(t0.rows.len()));
                }
                assert(refused_at(t0.name, t0.columns, updated_rows(t0.rows, mv, t0.columns, sv), k, te));
                assert(update_refused(t0.name, t0.columns, updated_rows(t0.rows, mv, t0.columns, set_view(set@)), e));
            }
            Err(e)
        },
    }
}

fn delete_rows(storage: &mut MemoryStorage, table: &String, where_clause: &Option<WhereClause>) -> (r: Result<
    String,
    DbError,
>)
    requires
        old(storage).wf(),
    ensures
        final(storage).wf(),
        r matches Ok(t) ==> t@.len() == 0,
        !has_table(old(storage)@, table@) ==> (r matches Err(e) && e is TableError) && final(storage)@
            == old(storage)@,
        has_table(old(storage)@, table@) ==> {
            let i = table_pos(old(storage)@, table@);
            let t = old(storage)@[i];
            match *where_clause {
                None => r is Ok && final(storage)@ == old(storage)@.update(i, TableModel { rows: Seq::empty(), ..t }),
                Some(w) => match where_mask(w, t.rows, t.columns, t.rows.len() as int) {
                    None => (r matches Err(e) && e is SqlError) && final(storage)@ == old(storage)@,
                    Some(m) => r is Ok && final(storage)@ == old(storage)@.update(
                        i,
                        TableModel { rows: keep_unmatched(t.rows, m, t.rows.len() as int), ..t },
                    ),
                },
            }
        },
{
    let pos = match storage.position(table.as_str()) {
        None => {
            return Err(missing_table());
        },
        Some(p) => p,
    };
    let t = &storage.get_tables()[pos];
    let ghost t0 = t@;
    assert(t0 == old(storage)@[pos as int]);
    let kept = match where_clause {
        None => {
            let e: Vec<Vec<DataType>> = Vec::new();
            assert(rows_view(e@) =~= Seq::<Seq<Value>>::empty());
            e
        },
        Some(w) => {
            let mask = compute_mask(t, w)?;
            proof {
                lemma_mask_len(*w, t0.rows, t0.columns, t0.rows.len() as int);
            }
            let mut kept: Vec<Vec<DataType>> = Vec::new();
            let mut j: usize = 0;
            while j < t.rows.len()
                invariant
                    j <= t.rows@.len(),
                    t0 == t@,
                    mask@.len() == t0.rows.len(),
                    rows_view(kept@) == keep_unmatched(t0.rows, mask@, j as int),
                decreases t.rows.len() - j,
            {
                if !mask[j] {
                    let row = crate::types::copy_row(&t.rows[j]);
                    assert(row_view(row@) == t0.rows[j as int]);
                    let ghost before = kept@;
                    kept.push(row);
                    assert(rows_view(kept@) =~= rows_view(before).push(t0.rows[j as int]));
                }
                j += 1;
            }
            proof {
                lemma_keep_unmatched_wf(t0.columns, t0.rows, mask@, t0.rows.len() as int);
            }
            kept
        },
    };
    match storage.replace_rows(pos, &kept) {
        Ok(()) => Ok(String::new()),
        Err(e) => Err(e),
    }
}

fn column_names(table: &Table) -> (r: Vec<String>)
    ensures
        text_row(r) == table@.columns.map_values(|c: ColumnModel| c.name),
        r@.len() == table.columns@.len(),
{
    let mut r: Vec<String> = Vec::new();
    let mut i: usize = 0;
    while i < table.columns.len()
        invariant
            i <= table.columns@.len(),
            r@.len() == i,
            forall|k: int| 0 <= k < i ==> (#[trigger] r@[k])@ == table.columns@[k].name@,
        decreases table.columns.len() - i,
    {
        r.push(table.columns[i].name.clone());
        i += 1;
    }
    assert(text_row(r) =~= table@.columns.map_values(|c: ColumnModel| c.name));
    r
}

fn column_exprs(names: &Vec<String>) -> (r: Vec<Expression>)
    ensures
        r@ == exprs_of_names(names@),
{
    let mut r: Vec<Expression> = Vec::new();
    let mut i: usize = 0;
    while i < names.len()
        invariant
            i <= names@.len(),
            r@.len() == i,
            forall|k: int| 0 <= k < i ==> #[trigger] r@[k] == Expression::Column(names@[k]),
        decreases names.len() - i,
    {
        r.push(Expression::Column(names[i].clone()));
        i += 1;
    }
    assert(r@ =~= exprs_of_names(names@));
    r
}

fn is_star_exec(columns: &Vec<String>) -> (r: bool)
    ensures
        r == is_star(columns@),
{
    if columns.len() != 1 {
        return false;
    }
    let star = "*".to_owned();
    proof {
        reveal_strlit("*");
    }
    assert(star@ =~= seq!['*']);
    columns[0] == star
}

fn copy_strings(v: &Vec<String>) -> (r: Vec<String>)
    ensures
        r@ == v@,
{
    let mut r: Vec<String> = Vec::new();
    let mut i: usize = 0;
    while i < v.len()
        invariant
            i <= v@.len(),
            r@ == v@.take(i as int),
        decreases v.len() - i,
    {
        r.push(v[i].clone());
        i += 1;
        assert(r@ =~= v@.take(i as int));
    }
    assert(v@.take(v@.len() as int) =~= v@);
    r
}

fn select_plain(
    storage: &MemoryStorage,
    columns: &Vec<String>,
    table: &String,
    where_clause: &Option<WhereClause>,
    order_by: &Option<OrderBy>,
) -> (r: Result<String, DbError>)
    requires
        storage.wf(),
    ensures
        !has_table(storage@, table@) ==> (r matches Err(e) && e is TableError),
        has_table(storage@, table@) ==> {
            let t = storage@[table_pos(storage@, table@)];
            let star = is_star(columns@);
            let headers = if star { t.columns.map_values(|c: ColumnModel| c.name) } else { names_view(columns@) };
            let p = if star { None } else { Some(exprs_of_names(columns@)) };
            let q = query_text(
                headers,
                result_rows(*where_clause, p, t.rows, t.columns, t.rows.len() as int),
                order_view(*order_by),
            );
            &&& r is Ok <==> q is Some
            &&& r matches Ok(out) ==> out@ == q->0
            &&& r matches Err(e) ==> e is SqlError
        },
{
    let t = match storage.get_table(table.as_str()) {
        None => {
            return Err(missing_table());
        },
        Some(t) => t,
    };
    assert(t@.wf());
    if is_star_exec(columns) {
        let headers = column_names(t);
        let rows = select_rows(t, where_clause, None)?;
        finish_query(&headers, rows, order_by)
    } else {
        let headers = copy_strings(columns);
        assert(text_row(headers) =~= names_view(columns@));
        let es = column_exprs(columns);
        let rows = select_rows(t, where_clause, Some(&es))?;
        finish_query(&headers, rows, order_by)
    }
}

fn select_expressions_from(
    storage: &MemoryStorage,
    expressions: &Vec<Expression>,
    table: &String,
    where_clause: &Option<WhereClause>,
    order_by: &Option<OrderBy>,
) -> (r: Result<String, DbError>)
    requires
        storage.wf(),
    ensures
        !has_table(storage@, table@) ==> (r matches Err(e) && e is TableError),
        has_table(storage@, table@) ==> {
            let t = storage@[table_pos(storage@, table@)];
            let q = query_text(
                headers_of(expressions@),
                result_rows(*where_clause, Some(expressions@), t.rows, t.columns, t.rows.len() as int),
                order_view(*order_by),
            );
            &&& r is Ok <==> q is Some
            &&& r matches Ok(out) ==> out@ == q->0
            &&& r matches Err(e) ==> e is SqlError
        },
{
    let t = match storage.get_table(table.as_str()) {
        None => {
            return Err(missing_table());
        },
        Some(t) => t,
    };
    let headers = expression_headers(expressions);
    proof {
        assert(text_row(headers).len() == headers@.len());
    }
    let rows = select_rows(t, where_clause, Some(expressions))?;
    finish_query(&headers, rows, order_by)
}

fn select_expressions(expressions: &Vec<Expression>) -> (r: Result<String, DbError>)
    ensures
        r matches Err(e) ==> e is SqlError,
        ({
            let q = match project_exprs(expressions@, Seq::empty(), Seq::empty(), expressions@.len() as int) {
                None => None,
                Some(cells) => query_text(headers_of(expressions@), Some(seq![cells]), None),
            };
            &&& r is Ok <==> q is Some
            &&& r matches Ok(out) ==> out@ == q->0
        }),
{
    let headers = expression_headers(expressions);
    let empty_row: Vec<DataType> = Vec::new();
    let empty_columns: Vec<Column> = Vec::new();
    assert(row_view(empty_row@) =~= Seq::<Value>::empty());
    assert(columns_view(empty_columns@) =~= Seq::<ColumnModel>::empty());
    let cells = project_row(expressions, &empty_row, &empty_columns)?;
    let ghost cv = text_row(cells);
    let mut rows: Vec<Vec<String>> = Vec::new();
    rows.push(cells);
    assert(text_rows(rows@) =~= seq![cv]);
    let none: Option<OrderBy> = None;
    finish_query(&headers, rows, &none)
}

fn drop_tables(storage: &mut MemoryStorage, names: &Vec<String>, warnings: &mut Vec<String>)
    requires
        old(storage).wf(),
    ensures
        final(storage).wf(),
        final(storage)@ == drop_all(old(storage)@, names_view(names@), names@.len() as int),
        names_view(final(warnings)@) == names_view(old(warnings)@) + drop_warnings(
            old(storage)@,
            names_view(names@),
            names@.len() as int,
        ),
{
    let ghost nv = names_view(names@);
    let mut j: usize = 0;
    assert(names_view(warnings@) =~= names_view(old(warnings)@) + drop_warnings(old(storage)@, nv, 0));
    while j < names.len()
        invariant
            j <= names@.len(),
            nv == names_view(names@),
            storage.wf(),
            storage@ == drop_all(old(storage)@, nv, j as int),
            names_view(warnings@) == names_view(old(warnings)@) + drop_warnings(old(storage)@, nv, j as int),
        decreases names.len() - j,
    {
        assert(nv[j as int] == names@[j as int]@);
        let ghost before = names_view(warnings@);
        match storage.drop_table(names[j].as_str()) {
            Ok(()) => {},
            Err(_) => {
                let mut m = "table does not exist: ".to_owned();
                push_str(&mut m, names[j].as_str());
                let ghost mv = m@;
                warnings.push(m);
                assert(names_view(warnings@) =~= before.push(mv));
            },
        }
        j += 1;
    }
}

/// Runs statements against a catalog.
pub struct SqlExecutor {
    has_output: bool,
    warnings: Vec<String>,
}

impl SqlExecutor {
    pub fn new() -> (r: SqlExecutor)
        ensures
            !r.output(),
            r.warning_texts().len() == 0,
    {
        let r = SqlExecutor { has_output: false, warnings: Vec::new() };
        assert(names_view(r.warnings@) =~= Seq::<Seq<char>>::empty());
        r
    }

    /// Whether the last statement produced a result table.
    pub closed spec fn output(&self) -> bool {
        self.has_output
    }

    pub fn has_output(&self) -> (r: bool)
        ensures
            r == self.output(),
    {
        self.has_output
    }

    /// The diagnostics of the last statement.
    pub closed spec fn warning_texts(&self) -> Seq<Seq<char>> {
        names_view(self.warnings@)
    }

    /// Diagnostics of the last statement: the tables that a multi-table DROP could not remove.
    pub fn warnings(&self) -> (r: &Vec<String>)
        ensures
            names_view(r@) == self.warning_texts(),
    {
        &self.warnings
    }

    /// Executes one statement and returns the text it prints (empty when nothing is shown).
    pub fn execute(&mut self, storage: &mut MemoryStorage, statement: SqlStatement) -> (r: Result<String, DbError>)
        requires
            old(storage).wf(),
        ensures
            final(storage).wf(),
            executes(statement, old(storage)@, final(storage)@, r),
            final(self).output() == (r matches Ok(t) && t@.len() > 0),
            final(self).warning_texts() == match statement {
                SqlStatement::DropTables { names } => drop_warnings(
                    old(storage)@,
                    names_view(names@),
                    names@.len() as int,
                ),
                _ => Seq::empty(),
            },
    {
        self.has_output = false;
        self.warnings = Vec::new();
        assert(names_view(self.warnings@) =~= Seq::<Seq<char>>::empty());
        let r = match &statement {
            SqlStatement::CreateTable { name, columns } => {
                let table = Table::new(name.clone(), crate::types::copy_columns(columns));
                match storage.create_table(table) {
                    Ok(()) => Ok(String::new()),
                    Err(e) => Err(e),
                }
            },
            SqlStatement::DropTable { name } => match storage.drop_table(name.as_str()) {
                Ok(()) => Ok(String::new()),
                Err(e) => Err(e),
            },
            SqlStatement::DropTables { names } => {
                drop_tables(storage, names, &mut self.warnings);
                Ok(String::new())
            },
            SqlStatement::Insert { table, values } => {
                let mut rows: Vec<Vec<DataType>> = Vec::new();
                rows.push(crate::types::copy_row(values));
                assert(rows_view(rows@) =~= seq![row_view(values@)]);
                match insert_rows(storage, table, &rows) {
                    Ok(()) => Ok(String::new()),
                    Err(e) => Err(e),
                }
            },
            SqlStatement::InsertMultiple { table, rows } => match insert_rows(storage, table, rows) {
                Ok(()) => Ok(String::new()),
                Err(e) => Err(e),
            },
            SqlStatement::InsertWithColumns { table, columns, rows } => match insert_named_rows(
                storage,
                table,
                columns,
                rows,
            ) {
                Ok(()) => Ok(String::new()),
                Err(e) => Err(e),
            },
            SqlStatement::Update { table, set, where_clause } => update_table(storage, table, set, where_clause),
            SqlStatement::Delete { table, where_clause } => delete_rows(storage, table, where_clause),
            SqlStatement::Select { columns, table, where_clause, order_by } => select_plain(
                storage,
                columns,
                table,
                where_clause,
                order_by,
            ),
            SqlStatement::SelectExpression { expressions } => select_expressions(expressions),
            SqlStatement::SelectWithExpressions { expressions, table, where_clause, order_by } =>
                select_expressions_from(storage, expressions, table, where_clause, order_by),
        };
        match &r {
            Ok(t) => {
                self.has_output = t.unicode_len() > 0;
            },
            Err(_) => {},
        }
        r
    }

    /// Evaluates an expression on a row of `current_table` (or with no row at all, where a
    /// column reference is an error). A qualified name `table.column` must name the current
    /// table; only its columns are consulted.
    pub fn evaluate_expression(
        &self,
        storage: &MemoryStorage,
        expr: &Expression,
        row: Option<&Vec<DataType>>,
        current_table: &str,
    ) -> (r: Result<DataType, DbError>)
        requires
            storage.wf(),
        ensures
            ({
                let cols = if has_table(storage@, current_table@) {
                    storage@[table_pos(storage@, current_table@)].columns
                } else {
                    Seq::empty()
                };
                let rv = match row {
                    None => Seq::empty(),
                    Some(x) => row_view(x@),
                };
                &&& r is Ok <==> qualifiers_match(*expr, current_table@) && eval(*expr, rv, cols) is Some
                &&& r matches Ok(v) ==> v@ == eval(*expr, rv, cols)->0
                &&& r matches Err(e) ==> e is SqlError
            }),
    {
        let table_name = current_table.to_owned();
        if !qualifiers_match_exec(expr, &table_name) {
            return Err(DbError::SqlError("column of another table".to_owned()));
        }
        let empty_row: Vec<DataType> = Vec::new();
        let empty_columns: Vec<Column> = Vec::new();
        assert(row_view(empty_row@) =~= Seq::<Value>::empty());
        assert(columns_view(empty_columns@) =~= Seq::<ColumnModel>::empty());
        let columns = match storage.get_table(current_table) {
            Some(t) => &t.columns,
            None => &empty_columns,
        };
        let r = match row {
            Some(x) => x,
            None => &empty_row,
        };
        evaluate_expression_without_storage(expr, r, columns)
    }
}

} // verus!
