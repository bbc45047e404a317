use vstd::prelude::*;

use crate::catalog::{catalog_wf, has_table, table_pos};
use crate::error::DbError;
use crate::eval::{column_index, lemma_column_index_from};
use crate::executor::{all_named, executes, insert_all, remap};
use crate::sql::{SqlStatement, WhereClause};
use crate::types::{
    accepts_null, columns_view, pk_index, ColumnModel, row_fits, row_view, type_fits, Column, DataType, TableModel, Value,
};

verus! {

/// In a well-formed catalog (which every statement preserves), every row has exactly as
/// many cells as its table has columns; every cell has its column's variant and respects a
/// `VARCHAR` length; no column that refuses NULL holds NULL (the primary-key column among
/// them); and non-NULL primary-key values are pairwise distinct.
pub proof fn lemma_catalog_invariants(ts: Seq<TableModel>)
    requires
        catalog_wf(ts),
    ensures
        forall|i: int, j: int|
            0 <= i < ts.len() && 0 <= j < ts[i].rows.len() ==> #[trigger] ts[i].rows[j].len() == ts[i].columns.len(),
        forall|i: int, j: int, c: int|
            0 <= i < ts.len() && 0 <= j < ts[i].rows.len() && 0 <= c < ts[i].columns.len() ==> type_fits(
                #[trigger] ts[i].rows[j][c],
                ts[i].columns[c].data_type,
            ),
        forall|i: int, j: int, c: int|
            0 <= i < ts.len() && 0 <= j < ts[i].rows.len() && 0 <= c < ts[i].columns.len() && (!ts[i].columns[c].nullable
                || ts[i].columns[c].primary_key) ==> !(#[trigger] ts[i].rows[j][c] is Null),
        forall|i: int, a: int, b: int|
            0 <= i < ts.len() && pk_index(ts[i].columns) is Some && 0 <= a < ts[i].rows.len() && 0 <= b
                < ts[i].rows.len() && a != b && !(ts[i].rows[a][pk_index(ts[i].columns)->0] is Null)
                ==> #[trigger] ts[i].rows[a][pk_index(ts[i].columns)->0] != #[trigger] ts[i].rows[b][pk_index(
                ts[i].columns,
            )->0],
{
    assert forall|i: int, j: int| 0 <= i < ts.len() && 0 <= j < ts[i].rows.len() implies #[trigger] ts[i].rows[j].len()
        == ts[i].columns.len() by {
        assert(ts[i].wf());
        assert(row_fits(ts[i].columns, ts[i].rows[j]));
    }
    assert forall|i: int, j: int, c: int|
        0 <= i < ts.len() && 0 <= j < ts[i].rows.len() && 0 <= c < ts[i].columns.len() implies type_fits(
        #[trigger] ts[i].rows[j][c],
        ts[i].columns[c].data_type,
    ) by {
        assert(ts[i].wf());
        assert(row_fits(ts[i].columns, ts[i].rows[j]));
        assert(crate::types::cell_fits(ts[i].rows[j][c], ts[i].columns[c]));
    }
    assert forall|i: int, j: int, c: int|
        0 <= i < ts.len() && 0 <= j < ts[i].rows.len() && 0 <= c < ts[i].columns.len() && (!ts[i].columns[c].nullable
            || ts[i].columns[c].primary_key) implies !(#[trigger] ts[i].rows[j][c] is Null) by {
        assert(ts[i].wf());
        assert(row_fits(ts[i].columns, ts[i].rows[j]));
        assert(crate::types::cell_fits(ts[i].rows[j][c], ts[i].columns[c]));
    }
    assert forall|i: int, a: int, b: int|
        0 <= i < ts.len() && pk_index(ts[i].columns) is Some && 0 <= a < ts[i].rows.len() && 0 <= b < ts[i].rows.len()
            && a != b && !(ts[i].rows[a][pk_index(ts[i].columns)->0] is Null) implies #[trigger] ts[i].rows[a][pk_index(
        ts[i].columns,
    )->0] != #[trigger] ts[i].rows[b][pk_index(ts[i].columns)->0] by {
        assert(ts[i].wf());
    }
}

/// `CREATE TABLE` with a name that the catalog already has fails and leaves the catalog as
/// it was.
pub proof fn lemma_create_existing_fails(
    name: String,
    columns: Vec<Column>,
    before: Seq<TableModel>,
    after: Seq<TableModel>,
    r: Result<String, DbError>,
)
    requires
        has_table(before, name@),
        executes(SqlStatement::CreateTable { name, columns }, before, after, r),
    ensures
        r matches Err(e) && e is TableError,
        after == before,
{
}

/// A single-row `INSERT` that fails (type, NULL or primary-key violation, or arity) leaves
/// every table's row count as it was.
pub proof fn lemma_failed_insert_keeps_rows(
    table: String,
    values: Vec<DataType>,
    before: Seq<TableModel>,
    after: Seq<TableModel>,
    r: Result<String, DbError>,
)
    requires
        executes(SqlStatement::Insert { table, values }, before, after, r),
        r is Err,
    ensures
        after.len() == before.len(),
        forall|i: int| 0 <= i < before.len() ==> #[trigger] after[i].rows.len() == before[i].rows.len(),
{
    if has_table(before, table@) {
        let i = table_pos(before, table@);
        let rows = seq![row_view(values@)];
        assert(insert_all(before[i], rows, 0) == (before[i], true));
        assert(insert_all(before[i], rows, 1).0 == before[i]);
        assert(after =~= before);
    }
}

/// `DELETE` without `WHERE` on an existing table leaves it with no rows and the same
/// columns, and touches no other table.
pub proof fn lemma_delete_all(
    table: String,
    before: Seq<TableModel>,
    after: Seq<TableModel>,
    r: Result<String, DbError>,
)
    requires
        has_table(before, table@),
        executes(SqlStatement::Delete { table, where_clause: None }, before, after, r),
    ensures
        r is Ok,
        after.len() == before.len(),
        after[table_pos(before, table@)].rows.len() == 0,
        after[table_pos(before, table@)].columns == before[table_pos(before, table@)].columns,
        forall|i: int| 0 <= i < before.len() && i != table_pos(before, table@) ==> #[trigger] after[i] == before[i],
{
}

/// `CREATE TABLE t ...` followed by `DROP TABLE t`, for a name `t` not yet in the catalog,
/// leaves the catalog as it was.
pub proof fn lemma_create_then_drop(
    name: String,
    columns: Vec<Column>,
    drop_name: String,
    before: Seq<TableModel>,
    middle: Seq<TableModel>,
    after: Seq<TableModel>,
    r1: Result<String, DbError>,
    r2: Result<String, DbError>,
)
    requires
        catalog_wf(before),
        !has_table(before, name@),
        drop_name@ == name@,
        executes(SqlStatement::CreateTable { name, columns }, before, middle, r1),
        executes(SqlStatement::DropTable { name: drop_name }, middle, after, r2),
    ensures
        after == before,
{
    {
        let n = before.len() as int;
        assert(middle[n].name == name@);
        assert forall|i: int| 0 <= i < middle.len() && (#[trigger] middle[i]).name == name@ implies i == n by {
            if i < n {
                assert(middle[i] == before[i]);
                assert(has_table(before, name@));
            }
        }
        let p = table_pos(middle, name@);
        assert(0 <= p < middle.len() && middle[p].name == name@);
        assert(p == n);
        assert(middle.remove(n) =~= before);
    }
}

proof fn lemma_remap_prefix(columns: Seq<ColumnModel>, names: Seq<Seq<char>>, vals: Seq<Value>, n: int)
    requires
        0 <= n <= names.len(),
        forall|a: int, b: int| 0 <= a < b < columns.len() ==> #[trigger] columns[a].name != #[trigger] columns[b].name,
        forall|a: int, b: int| 0 <= a < b < names.len() ==> #[trigger] names[a] != #[trigger] names[b],
        all_named(columns, names),
    ensures
        remap(columns, names, vals, n).len() == columns.len(),
        forall|j: int, k: int|
            0 <= j < columns.len() && 0 <= k < n && names[k] == columns[j].name ==> #[trigger] remap(
                columns,
                names,
                vals,
                n,
            )[j] == #[trigger] vals[k],
        forall|j: int|
            0 <= j < columns.len() && (forall|k: int| 0 <= k < n ==> names[k] != columns[j].name) ==> #[trigger] remap(
                columns,
                names,
                vals,
                n,
            )[j] is Null,
    decreases n,
{
    if n > 0 {
        lemma_remap_prefix(columns, names, vals, n - 1);
        let prev = remap(columns, names, vals, n - 1);
        let cur = remap(columns, names, vals, n);
        assert(column_index(columns, names[n - 1]) is Some);
        lemma_column_index_from(columns, names[n - 1], 0);
        let p = column_index(columns, names[n - 1])->0;
        assert(cur == prev.update(p, vals[n - 1]));
        assert forall|j: int, k: int|
            0 <= j < columns.len() && 0 <= k < n && names[k] == columns[j].name implies #[trigger] cur[j]
            == #[trigger] vals[k] by {
            if k == n - 1 {
                if j != p {
                    if j < p {
                        assert(columns[j].name != columns[p].name);
                    } else {
                        assert(columns[p].name != columns[j].name);
                    }
                }
            } else {
                assert(names[k] != names[n - 1]);
                assert(j != p);
                assert(prev[j] == vals[k]);
            }
        }
        assert forall|j: int|
            0 <= j < columns.len() && (forall|k: int| 0 <= k < n ==> names[k] != columns[j].name) implies #[trigger] cur[j]
            is Null by {
            assert(names[n - 1] != columns[j].name);
            assert(j != p);
            assert(forall|k: int| 0 <= k < n - 1 ==> names[k] != columns[j].name);
        }
    }
}

/// An `INSERT` with a column list places values by name, not by position: when the table's
/// column names are distinct and the listed names are distinct columns of the table, the
/// full row holds, in each column, the value listed under that column's name, and NULL in
/// every column not listed.
pub proof fn lemma_named_insert_places_by_name(columns: Seq<ColumnModel>, names: Seq<Seq<char>>, vals: Seq<Value>)
    requires
        vals.len() == names.len(),
        forall|a: int, b: int| 0 <= a < b < columns.len() ==> #[trigger] columns[a].name != #[trigger] columns[b].name,
        forall|a: int, b: int| 0 <= a < b < names.len() ==> #[trigger] names[a] != #[trigger] names[b],
        all_named(columns, names),
    ensures
        remap(columns, names, vals, names.len() as int).len() == columns.len(),
        forall|j: int, k: int|
            0 <= j < columns.len() && 0 <= k < names.len() && names[k] == columns[j].name ==> #[trigger] remap(
                columns,
                names,
                vals,
                names.len() as int,
            )[j] == #[trigger] vals[k],
        forall|j: int|
            0 <= j < columns.len() && (forall|k: int| 0 <= k < names.len() ==> names[k] != columns[j].name)
                ==> #[trigger] remap(columns, names, vals, names.len() as int)[j] is Null,
{
    lemma_remap_prefix(columns, names, vals, names.len() as int);
}

} // verus!
