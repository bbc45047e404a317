use vstd::prelude::*;

use crate::text::{i32_to_string, int_text};

verus! {

/// A stored cell value: a 32-bit integer, a text, or NULL. Floating-point values are not
/// supported (there are no float literals and no FLOAT columns).
#[derive(Debug, Clone)]
pub enum DataType {
    Int(i32),
    Varchar(String),
    Null,
}

/// The mathematical content of a cell.
pub enum Value {
    Int(i32),
    Text(Seq<char>),
    Null,
}

impl View for DataType {
    type V = Value;

    open spec fn view(&self) -> Value {
        match self {
            DataType::Int(n) => Value::Int(*n),
            DataType::Varchar(s) => Value::Text(s@),
            DataType::Null => Value::Null,
        }
    }
}

/// A column's declared type: `INT` or `VARCHAR(n)`; `FLOAT` columns are not supported.
#[derive(Debug, Clone, Copy, PartialEq, Eq, Structural)]
pub enum ColumnType {
    /// An integer column; the optional width is accepted for compatibility only.
    Int(Option<usize>),
    /// A text column holding at most the given number of characters.
    Varchar(usize),
}

#[derive(Debug, Clone)]
pub struct Column {
    pub name: String,
    pub data_type: ColumnType,
    pub nullable: bool,
    pub primary_key: bool,
}

pub struct ColumnModel {
    pub name: Seq<char>,
    pub data_type: ColumnType,
    pub nullable: bool,
    pub primary_key: bool,
}

impl View for Column {
    type V = ColumnModel;

    open spec fn view(&self) -> ColumnModel {
        ColumnModel {
            name: self.name@,
            data_type: self.data_type,
            nullable: self.nullable,
            primary_key: self.primary_key,
        }
    }
}

#[derive(Debug, Clone)]
pub struct Table {
    pub name: String,
    pub columns: Vec<Column>,
    pub rows: Vec<Vec<DataType>>,
}

pub struct TableModel {
    pub name: Seq<char>,
    pub columns: Seq<ColumnModel>,
    pub rows: Seq<Seq<Value>>,
}

pub open spec fn row_view(r: Seq<DataType>) -> Seq<Value> {
    r.map_values(|v: DataType| v@)
}

pub open spec fn columns_view(c: Seq<Column>) -> Seq<ColumnModel> {
    c.map_values(|col: Column| col@)
}

pub open spec fn rows_view(rows: Seq<Vec<DataType>>) -> Seq<Seq<Value>> {
    rows.map_values(|r: Vec<DataType>| row_view(r@))
}

impl View for Table {
    type V = TableModel;

    open spec fn view(&self) -> TableModel {
        TableModel {
            name: self.name@,
            columns: columns_view(self.columns@),
            rows: rows_view(self.rows@),
        }
    }
}

/// Why a row was refused by a table.
#[derive(Debug, Clone)]
pub enum TypeError {
    TypeMismatch { expected: ColumnType, actual: DataType },
    StringLengthExceeded { max_length: usize, actual_length: usize },
    NullValue(String),
    PrimaryKeyViolation(String),
}

/// The textual form of a value, as shown in query results.
pub open spec fn value_text(v: Value) -> Seq<char> {
    match v {
        Value::Int(n) => int_text(n as int),
        Value::Text(s) => s,
        Value::Null => seq!['N', 'U', 'L', 'L'],
    }
}

/// `v` has the variant of type `t` (a NULL has every variant); text length is not considered.
pub open spec fn variant_fits(v: Value, t: ColumnType) -> bool {
    match (v, t) {
        (Value::Int(_), ColumnType::Int(_)) => true,
        (Value::Text(_), ColumnType::Varchar(_)) => true,
        (Value::Null, _) => true,
        _ => false,
    }
}

/// `v` may be stored under type `t`: the variant fits and text respects the declared length.
pub open spec fn type_fits(v: Value, t: ColumnType) -> bool {
    match (v, t) {
        (Value::Text(s), ColumnType::Varchar(n)) => s.len() <= n,
        _ => variant_fits(v, t),
    }
}

/// A column whose cells may hold NULL: nullable and not the primary key.
pub open spec fn accepts_null(c: ColumnModel) -> bool {
    c.nullable && !c.primary_key
}

/// `v` may be stored in column `c`.
pub open spec fn cell_fits(v: Value, c: ColumnModel) -> bool {
    type_fits(v, c.data_type) && (v is Null ==> accepts_null(c))
}

/// The row has the table's arity, and each cell fits its column.
pub open spec fn row_fits(columns: Seq<ColumnModel>, row: Seq<Value>) -> bool {
    &&& row.len() == columns.len()
    &&& forall|i: int| 0 <= i < row.len() ==> #[trigger] cell_fits(row[i], columns[i])
}

/// The position of the first primary-key column.
pub open spec fn pk_index_from(columns: Seq<ColumnModel>, start: int) -> Option<int>
    decreases columns.len() - start,
{
    if start < 0 || start >= columns.len() {
        None
    } else if columns[start].primary_key {
        Some(start)
    } else {
        pk_index_from(columns, start + 1)
    }
}

pub open spec fn pk_index(columns: Seq<ColumnModel>) -> Option<int> {
    pk_index_from(columns, 0)
}

/// `row` shares no non-NULL primary-key value with any row of `rows`.
pub open spec fn pk_fresh(columns: Seq<ColumnModel>, rows: Seq<Seq<Value>>, row: Seq<Value>) -> bool {
    match pk_index(columns) {
        None => true,
        Some(k) => row[k] is Null || forall|j: int|
            0 <= j < rows.len() ==> #[trigger] rows[j][k] != row[k],
    }
}

/// The non-NULL primary-key values of `rows` are pairwise distinct.
pub open spec fn pk_unique(columns: Seq<ColumnModel>, rows: Seq<Seq<Value>>) -> bool {
    match pk_index(columns) {
        None => true,
        Some(k) => forall|a: int, b: int|
            0 <= a < rows.len() && 0 <= b < rows.len() && a != b && !(rows[a][k] is Null)
                ==> #[trigger] rows[a][k] != #[trigger] rows[b][k],
    }
}

/// The table invariants: every row has the arity of the columns, every cell fits its
/// column (type, length, nullability), and primary-key values are unique.
pub open spec fn rows_wf(columns: Seq<ColumnModel>, rows: Seq<Seq<Value>>) -> bool {
    &&& forall|j: int| 0 <= j < rows.len() ==> #[trigger] row_fits(columns, rows[j])
    &&& pk_unique(columns, rows)
}

/// The first column, from `i` on, whose cell does not fit.
pub open spec fn first_misfit(columns: Seq<ColumnModel>, row: Seq<Value>, i: int) -> Option<int>
    decreases row.len() - i,
{
    if i < 0 || i >= row.len() {
        None
    } else if !cell_fits(row[i], columns[i]) {
        Some(i)
    } else {
        first_misfit(columns, row, i + 1)
    }
}

/// The error for a cell that does not fit its column: a text too long for its `VARCHAR`,
/// another type mismatch, or a NULL where none is allowed (naming the column).
pub open spec fn cell_error(v: Value, c: ColumnModel, e: TypeError) -> bool {
    if !type_fits(v, c.data_type) {
        match (v, c.data_type) {
            (Value::Text(s), ColumnType::Varchar(n)) => e matches TypeError::StringLengthExceeded {
                max_length,
                actual_length,
            } && max_length == n && actual_length == s.len(),
            _ => e matches TypeError::TypeMismatch { expected, actual } && expected == c.data_type && actual@
                == v,
        }
    } else {
        e matches TypeError::NullValue(name) && name@ == c.name
    }
}

/// The error a table reports for a row it refuses: a type mismatch for a row of the wrong
/// length; else the error of the first cell that does not fit; else a primary-key violation
/// carrying the duplicated key's text.
pub open spec fn explains(t: TableModel, row: Seq<Value>, e: TypeError) -> bool {
    if row.len() != t.columns.len() {
        e is TypeMismatch
    } else {
        match first_misfit(t.columns, row, 0) {
            Some(i) => cell_error(row[i], t.columns[i], e),
            None => e matches TypeError::PrimaryKeyViolation(s) && !pk_fresh(t.columns, t.rows, row) && s@
                == value_text(row[pk_index(t.columns)->0]),
        }
    }
}

pub proof fn lemma_first_misfit(columns: Seq<ColumnModel>, row: Seq<Value>, i: int)
    requires
        0 <= i <= row.len(),
        forall|j: int| 0 <= j < i ==> #[trigger] cell_fits(row[j], columns[j]),
    ensures
        first_misfit(columns, row, 0) == first_misfit(columns, row, i),
    decreases i,
{
    if i > 0 {
        lemma_first_misfit(columns, row, i - 1);
    }
}

pub proof fn lemma_no_misfit(columns: Seq<ColumnModel>, row: Seq<Value>, i: int)
    requires
        0 <= i <= row.len(),
        first_misfit(columns, row, i) is None,
    ensures
        forall|j: int| i <= j < row.len() ==> #[trigger] cell_fits(row[j], columns[j]),
    decreases row.len() - i,
{
    if i < row.len() {
        lemma_no_misfit(columns, row, i + 1);
    }
}

/// Rebuilding a table with `rows` stops at row `k`: the rows before it meet the table
/// invariants and the table of those rows refuses row `k` with error `e`.
pub open spec fn refused_at(name: Seq<char>, columns: Seq<ColumnModel>, rows: Seq<Seq<Value>>, k: int, e: TypeError) -> bool {
    &&& 0 <= k < rows.len()
    &&& rows_wf(columns, rows.take(k))
    &&& explains(TableModel { name, columns, rows: rows.take(k) }, rows[k], e)
}

impl TableModel {
    pub open spec fn wf(self) -> bool {
        rows_wf(self.columns, self.rows)
    }

    /// A row that this table accepts for insertion.
    pub open spec fn accepts(self, row: Seq<Value>) -> bool {
        row_fits(self.columns, row) && pk_fresh(self.columns, self.rows, row)
    }
}

pub proof fn lemma_pk_index_from(columns: Seq<ColumnModel>, start: int)
    requires
        0 <= start <= columns.len(),
    ensures
        match pk_index_from(columns, start) {
            Some(k) => start <= k < columns.len() && columns[k].primary_key && forall|i: int|
                start <= i < k ==> !(#[trigger] columns[i]).primary_key,
            None => forall|i: int| start <= i < columns.len() ==> !(#[trigger] columns[i]).primary_key,
        },
    decreases columns.len() - start,
{
    if start < columns.len() && !columns[start].primary_key {
        lemma_pk_index_from(columns, start + 1);
    }
}

/// Appending a row that the table accepts keeps the table invariants.
pub proof fn lemma_push_keeps_wf(columns: Seq<ColumnModel>, rows: Seq<Seq<Value>>, row: Seq<Value>)
    requires
        rows_wf(columns, rows),
        row_fits(columns, row),
        pk_fresh(columns, rows, row),
    ensures
        rows_wf(columns, rows.push(row)),
{
    let rs = rows.push(row);
    assert forall|j: int| 0 <= j < rs.len() implies #[trigger] row_fits(columns, rs[j]) by {
        if j < rows.len() {
            assert(rs[j] == rows[j]);
        }
    }
    lemma_pk_index_from(columns, 0);
    match pk_index(columns) {
        None => {},
        Some(k) => {
            assert forall|a: int, b: int|
                0 <= a < rs.len() && 0 <= b < rs.len() && a != b && !(rs[a][k] is Null)
                    implies #[trigger] rs[a][k] != #[trigger] rs[b][k] by {
                if a < rows.len() && b < rows.len() {
                    assert(rs[a] == rows[a] && rs[b] == rows[b]);
                } else if a == rows.len() {
                    assert(rs[b] == rows[b]);
                } else {
                    assert(rs[a] == rows[a]);
                    assert(rows[a][k] != row[k]);
                }
            }
        },
    }
}

/// Keeping any subsequence of the rows (given by increasing positions) keeps the invariants.
pub proof fn lemma_subset_keeps_wf(
    columns: Seq<ColumnModel>,
    rows: Seq<Seq<Value>>,
    kept: Seq<Seq<Value>>,
    idx: Seq<int>,
)
    requires
        rows_wf(columns, rows),
        idx.len() == kept.len(),
        forall|i: int| 0 <= i < idx.len() ==> 0 <= #[trigger] idx[i] < rows.len() && kept[i]
            == rows[idx[i]],
        forall|a: int, b: int| 0 <= a < b < idx.len() ==> #[trigger] idx[a] < #[trigger] idx[b],
    ensures
        rows_wf(columns, kept),
{
    assert forall|j: int| 0 <= j < kept.len() implies #[trigger] row_fits(columns, kept[j]) by {
        assert(row_fits(columns, rows[idx[j]]));
    }
    match pk_index(columns) {
        None => {},
        Some(k) => {
            assert forall|a: int, b: int|
                0 <= a < kept.len() && 0 <= b < kept.len() && a != b && !(kept[a][k] is Null)
                    implies #[trigger] kept[a][k] != #[trigger] kept[b][k] by {
                if a < b {
                    assert(idx[a] < idx[b]);
                } else {
                    assert(idx[b] < idx[a]);
                }
                assert(rows[idx[a]][k] != rows[idx[b]][k]);
            }
        },
    }
}

/// Each row of a well-formed sequence fits and is fresh against the rows before it.
pub proof fn lemma_wf_prefix_accepts(columns: Seq<ColumnModel>, rows: Seq<Seq<Value>>, i: int)
    requires
        rows_wf(columns, rows),
        0 <= i < rows.len(),
    ensures
        row_fits(columns, rows[i]),
        pk_fresh(columns, rows.take(i), rows[i]),
{
    assert(row_fits(columns, rows[i]));
    match pk_index(columns) {
        None => {},
        Some(k) => {
            if !(rows[i][k] is Null) {
                assert forall|j: int| 0 <= j < rows.take(i).len() implies #[trigger] rows.take(i)[j][k]
                    != rows[i][k] by {
                    assert(rows.take(i)[j] == rows[j]);
                    assert(rows[i][k] != rows[j][k]);
                }
            }
        },
    }
}

impl DataType {
    /// Whether this value may be stored under the given type, text length included.
    pub fn matches_column_type(&self, column_type: &ColumnType) -> (r: bool)
        ensures
            r == type_fits(self@, *column_type),
    {
        match (self, column_type) {
            (DataType::Int(_), ColumnType::Int(_)) => true,
            (DataType::Varchar(s), ColumnType::Varchar(max_len)) => s.unicode_len() <= *max_len,
            (DataType::Null, _) => true,
            _ => false,
        }
    }

    /// The textual form of the value (`NULL` for a null).
    pub fn to_text(&self) -> (r: String)
        ensures
            r@ == value_text(self@),
    {
        match self {
            DataType::Int(n) => i32_to_string(*n),
            DataType::Varchar(s) => s.clone(),
            DataType::Null => {
                let r = "NULL".to_owned();
                proof {
                    reveal_strlit("NULL");
                }
                r
            },
        }
    }

    pub fn is_null(&self) -> (r: bool)
        ensures
            r == (self@ is Null),
    {
        match self {
            DataType::Null => true,
            _ => false,
        }
    }

    /// A copy with the same content.
    pub fn copy(&self) -> (r: DataType)
        ensures
            r@ == self@,
    {
        match self {
            DataType::Int(n) => DataType::Int(*n),
            DataType::Varchar(s) => DataType::Varchar(s.clone()),
            DataType::Null => DataType::Null,
        }
    }

    /// Variant-wise equality.
    pub fn equals(&self, other: &DataType) -> (r: bool)
        ensures
            r == (self@ == other@),
    {
        match (self, other) {
            (DataType::Int(a), DataType::Int(b)) => *a == *b,
            (DataType::Varchar(a), DataType::Varchar(b)) => *a == *b,
            (DataType::Null, DataType::Null) => true,
            _ => false,
        }
    }
}

pub fn copy_row(row: &Vec<DataType>) -> (r: Vec<DataType>)
    ensures
        row_view(r@) == row_view(row@),
{
    let mut r: Vec<DataType> = Vec::new();
    let mut i: usize = 0;
    while i < row.len()
        invariant
            i <= row.len(),
            r@.len() == i,
            forall|j: int| 0 <= j < i ==> (#[trigger] r@[j])@ == row@[j]@,
        decreases row.len() - i,
    {
        r.push(row[i].copy());
        i += 1;
    }
    assert(row_view(r@) =~= row_view(row@));
    r
}

pub fn copy_rows(rows: &Vec<Vec<DataType>>) -> (r: Vec<Vec<DataType>>)
    ensures
        rows_view(r@) == rows_view(rows@),
{
    let mut r: Vec<Vec<DataType>> = Vec::new();
    let mut i: usize = 0;
    while i < rows.len()
        invariant
            i <= rows.len(),
            r@.len() == i,
            forall|j: int| 0 <= j < i ==> row_view((#[trigger] r@[j])@) == row_view(rows@[j]@),
        decreases rows.len() - i,
    {
        r.push(copy_row(&rows[i]));
        i += 1;
    }
    assert(rows_view(r@) =~= rows_view(rows@));
    r
}

impl Column {
    pub fn copy(&self) -> (r: Column)
        ensures
            r@ == self@,
    {
        Column {
            name: self.name.clone(),
            data_type: self.data_type,
            nullable: self.nullable,
            primary_key: self.primary_key,
        }
    }
}

pub fn copy_columns(columns: &Vec<Column>) -> (r: Vec<Column>)
    ensures
        columns_view(r@) == columns_view(columns@),
{
    let mut r: Vec<Column> = Vec::new();
    let mut i: usize = 0;
    while i < columns.len()
        invariant
            i <= columns.len(),
            r@.len() == i,
            forall|j: int| 0 <= j < i ==> (#[trigger] r@[j])@ == columns@[j]@,
        decreases columns.len() - i,
    {
        r.push(columns[i].copy());
        i += 1;
    }
    assert(columns_view(r@) =~= columns_view(columns@));
    r
}

/// The position of the first primary-key column, if any.
pub fn primary_key_position(columns: &Vec<Column>) -> (r: Option<usize>)
    ensures
        r matches Some(k) ==> pk_index(columns_view(columns@)) == Some(k as int),
        r is None ==> pk_index(columns_view(columns@)) is None,
{
    let ghost cs = columns_view(columns@);
    proof {
        lemma_pk_index_from(cs, 0);
    }
    let mut i: usize = 0;
    while i < columns.len()
        invariant
            i <= columns.len(),
            cs == columns_view(columns@),
            forall|j: int| 0 <= j < i ==> !(#[trigger] cs[j]).primary_key,
            match pk_index_from(cs, 0) {
                Some(k) => cs[k].primary_key && forall|j: int| 0 <= j < k ==> !(#[trigger] cs[j]).primary_key,
                None => forall|j: int| 0 <= j < cs.len() ==> !(#[trigger] cs[j]).primary_key,
            },
            pk_index_from(cs, 0) matches Some(k) ==> 0 <= k < cs.len(),
        decreases columns.len() - i,
    {
        if columns[i].primary_key {
            assert(cs[i as int].primary_key);
            return Some(i);
        }
        i += 1;
    }
    None
}

impl Table {
    /// A copy with the same content.
    pub fn copy(&self) -> (r: Table)
        ensures
            r@ == self@,
    {
        Table { name: self.name.clone(), columns: copy_columns(&self.columns), rows: copy_rows(&self.rows) }
    }

    pub fn new(name: String, columns: Vec<Column>) -> (r: Table)
        ensures
            r@ == (TableModel { name: name@, columns: columns_view(columns@), rows: Seq::empty() }),
            r@.wf(),
    {
        let r = Table { name, columns, rows: Vec::new() };
        assert(r@.rows =~= Seq::<Seq<Value>>::empty());
        r
    }

    /// A table with the given rows, when they meet the table invariants for these columns.
    pub fn with_rows(name: String, columns: Vec<Column>, rows: &Vec<Vec<DataType>>) -> (r: Result<
        Table,
        TypeError,
    >)
        ensures
            r is Ok <==> rows_wf(columns_view(columns@), rows_view(rows@)),
            r matches Err(e) ==> exists|k: int| #[trigger] refused_at(name@, columns_view(columns@), rows_view(rows@), k, e),
            r matches Ok(t) ==> t@ == (TableModel {
                name: name@,
                columns: columns_view(columns@),
                rows: rows_view(rows@),
            }),
    {
        let ghost all = rows_view(rows@);
        let mut t = Table::new(name, columns);
        let ghost cs = t@.columns;
        let mut i: usize = 0;
        while i < rows.len()
            invariant
                i <= rows@.len(),
                all == rows_view(rows@),
                t@.wf(),
                t@.name == name@,
                t@.columns == cs,
                cs == columns_view(columns@),
                t@.rows == all.take(i as int),
            decreases rows.len() - i,
        {
            let row = copy_row(&rows[i]);
            assert(row_view(row@) == all[i as int]);
            match t.insert_row(row) {
                Err(e) => {
                    proof {
                        if rows_wf(cs, all) {
                            lemma_wf_prefix_accepts(cs, all, i as int);
                        }
                        assert(refused_at(name@, cs, all, i as int, e));
                    }
                    return Err(e);
                },
                Ok(()) => {},
            }
            assert(all.take(i as int).push(all[i as int]) =~= all.take(i + 1));
            i += 1;
        }
        assert(all.take(rows@.len() as int) =~= all);
        Ok(t)
    }

    /// Checks that no stored row has the candidate's (non-NULL) primary-key value.
    fn check_primary_key_constraint(&self, row: &Vec<DataType>) -> (r: Result<(), TypeError>)
        requires
            self@.wf(),
            row@.len() == self.columns@.len(),
        ensures
            r is Ok <==> pk_fresh(self@.columns, self@.rows, row_view(row@)),
            r matches Err(e) ==> e is PrimaryKeyViolation && pk_index(self@.columns) is Some,
            r matches Err(TypeError::PrimaryKeyViolation(s)) ==> s@ == value_text(
                row_view(row@)[pk_index(self@.columns)->0],
            ),
    {
        let pk = primary_key_position(&self.columns);
        match pk {
            None => Ok(()),
            Some(k) => {
                proof {
                    lemma_pk_index_from(self@.columns, 0);
                }
                let value = &row[k];
                assert(row_view(row@)[k as int] == value@);
                if value.is_null() {
                    return Ok(());
                }
                let mut j: usize = 0;
                while j < self.rows.len()
                    invariant
                        j <= self.rows@.len(),
                        k < row@.len(),
                        pk_index(self@.columns) == Some(k as int),
                        self@.wf(),
                        k < self.columns@.len(),
                        forall|x: int| 0 <= x < j ==> (#[trigger] self@.rows[x])[k as int] != row_view(row@)[k as int],
                        !(row_view(row@)[k as int] is Null),
                        value@ == row_view(row@)[k as int],
                    decreases self.rows.len() - j,
                {
                    assert(row_fits(self@.columns, self@.rows[j as int]));
                    assert(row_view(self.rows@[j as int]@).len() == self.rows@[j as int]@.len());
                    assert(self@.rows[j as int][k as int] == self.rows@[j as int]@[k as int]@);
                    if self.rows[j][k].equals(value) {
                        assert(self@.rows[j as int][k as int] == row_view(row@)[k as int]);
                        assert(!pk_fresh(self@.columns, self@.rows, row_view(row@)));
                        return Err(TypeError::PrimaryKeyViolation(value.to_text()));
                    }
                    j += 1;
                }
                Ok(())
            },
        }
    }
    /// Checks a candidate row against the table: arity, per-column type and length,
    /// nullability, and primary-key uniqueness.
    pub fn validate_row(&self, row: &Vec<DataType>) -> (r: Result<(), TypeError>)
        requires
            self@.wf(),
        ensures
            r is Ok <==> self@.accepts(row_view(row@)),
            r matches Err(e) ==> explains(self@, row_view(row@), e),
    {
        let ghost rv = row_view(row@);
        let ghost cs = self@.columns;
        if row.len() != self.columns.len() {
            return Err(TypeError::TypeMismatch { expected: ColumnType::Int(None), actual: DataType::Null });
        }
        let mut i: usize = 0;
        while i < row.len()
            invariant
                i <= row@.len(),
                row@.len() == self.columns@.len(),
                rv == row_view(row@),
                cs == self@.columns,
                forall|j: int| 0 <= j < i ==> #[trigger] cell_fits(rv[j], cs[j]),
            decreases row.len() - i,
        {
            let value = &row[i];
            let column = &self.columns[i];
            assert(rv[i as int] == value@ && cs[i as int] == column@);
            proof {
                lemma_first_misfit(cs, rv, i as int);
            }
            if !value.matches_column_type(&column.data_type) {
                assert(!cell_fits(rv[i as int], cs[i as int]));
                match (value, &column.data_type) {
                    (DataType::Varchar(s), ColumnType::Varchar(max_len)) => {
                        return Err(
                            TypeError::StringLengthExceeded {
                                max_length: *max_len,
                                actual_length: s.unicode_len(),
                            },
                        );
                    },
                    _ => {
                        return Err(
                            TypeError::TypeMismatch { expected: column.data_type, actual: value.copy() },
                        );
                    },
                }
            }
            if value.is_null() && (!column.nullable || column.primary_key) {
                assert(!cell_fits(rv[i as int], cs[i as int]));
                return Err(TypeError::NullValue(column.name.clone()));
            }
            i += 1;
        }
        assert(row_fits(cs, rv));
        proof {
            lemma_first_misfit(cs, rv, rv.len() as int);
        }
        self.check_primary_key_constraint(row)
    }

    /// Appends a row after validation; on error the table is unchanged.
    pub fn insert_row(&mut self, row: Vec<DataType>) -> (r: Result<(), TypeError>)
        requires
            old(self)@.wf(),
        ensures
            final(self)@.wf(),
            r is Ok <==> old(self)@.accepts(row_view(row@)),
            r is Ok ==> final(self)@ == (TableModel { rows: old(self)@.rows.push(row_view(row@)), ..old(self)@ }),
            r is Err ==> final(self)@ == old(self)@,
            r matches Err(e) ==> explains(old(self)@, row_view(row@), e),
    {
        match self.validate_row(&row) {
            Err(e) => Err(e),
            Ok(()) => {
                let ghost rv = row_view(row@);
                proof {
                    lemma_push_keeps_wf(self@.columns, self@.rows, rv);
                }
                self.rows.push(row);
                assert(self@.rows =~= old(self)@.rows.push(rv));
                Ok(())
            },
        }
    }
}

} // verus!
