//! The text of statements that write many rows at once.

use crate::text::{concat, concat3, decimal, decimal_text, join, joined, texts};
use vstd::prelude::*;

verus! {

/// The numbered placeholders of one row, the first after `start`.
pub open spec fn placeholders(start: int, cols: int) -> Seq<Seq<char>> {
    Seq::new(cols as nat, |col: int| "?"@ + decimal((start + col + 1) as nat))
}

/// One row of placeholders.
pub open spec fn placeholder_group(start: int, cols: int) -> Seq<char> {
    "("@ + joined(placeholders(start, cols), ", "@) + ")"@
}

/// The rows of placeholders of a statement.
pub open spec fn placeholder_groups(rows: int, cols: int) -> Seq<Seq<char>> {
    Seq::new(rows as nat, |row: int| placeholder_group(row * cols, cols))
}

/// The placeholders of a statement, numbered from one on, row by row.
pub open spec fn values_text(rows: int, cols: int) -> Seq<char> {
    joined(placeholder_groups(rows, cols), ", "@)
}

/// The placeholders of a statement that takes `rows` rows of `cols` values.
pub fn values_placeholders(rows: usize, cols: usize) -> (r: String)
    requires
        rows > 0,
        cols > 0,
        rows * cols <= u64::MAX,
    ensures
        r@ == values_text(rows as int, cols as int),
{
    let mut groups: Vec<String> = Vec::new();
    let mut row: usize = 0;
    let mut start: u64 = 0;
    while row < rows
        invariant
            row <= rows,
            rows * cols <= u64::MAX,
            start == row * cols,
            texts(groups@) == placeholder_groups(rows as int, cols as int).take(row as int),
        decreases rows - row,
    {
        proof {
            assert((row + 1) * cols <= rows * cols) by (nonlinear_arith)
                requires
                    row + 1 <= rows,
            ;
            assert((row + 1) * cols == row * cols + cols) by (nonlinear_arith);
        }
        let mut inner: Vec<String> = Vec::new();
        let mut col: usize = 0;
        while col < cols
            invariant
                col <= cols,
                start + cols <= u64::MAX,
                texts(inner@) == placeholders(start as int, cols as int).take(col as int),
            decreases cols - col,
        {
            let digits = decimal_text(start + col as u64 + 1);
            let name = concat("?", digits.as_str());
            proof {
                let all = placeholders(start as int, cols as int);
                assert(all[col as int] == name@);
                assert(texts(inner@.push(name)) =~= texts(inner@).push(name@));
                assert(all.take(col + 1) =~= all.take(col as int).push(name@));
            }
            inner.push(name);
            col += 1;
        }
        proof {
            let all = placeholders(start as int, cols as int);
            assert(all.take(cols as int) =~= all);
        }
        let list = join(&inner, ", ");
        let group = concat3("(", list.as_str(), ")");
        proof {
            let all = placeholder_groups(rows as int, cols as int);
            assert(all[row as int] == group@);
            assert(texts(groups@.push(group)) =~= texts(groups@).push(group@));
            assert(all.take(row + 1) =~= all.take(row as int).push(group@));
        }
        groups.push(group);
        row += 1;
        start += cols as u64;
    }
    proof {
        let all = placeholder_groups(rows as int, cols as int);
        assert(all.take(rows as int) =~= all);
    }
    join(&groups, ", ")
}

/// A statement that inserts rows.
pub open spec fn insert_text(table: Seq<char>, columns: Seq<Seq<char>>, rows: int) -> Seq<char> {
    "INSERT INTO "@ + table + " ("@ + joined(columns, ", "@) + ") VALUES "@ + values_text(
        rows,
        columns.len() as int,
    )
}

/// A statement that inserts `rows` rows into `table`.
pub fn insert_sql(table: &str, columns: &Vec<String>, rows: usize) -> (r: String)
    requires
        rows > 0,
        columns@.len() > 0,
        rows * columns@.len() <= u64::MAX,
    ensures
        r@ == insert_text(table@, texts(columns@), rows as int),
{
    let cols = join(columns, ", ");
    let values = values_placeholders(rows, columns.len());
    let mut sql = concat3("INSERT INTO ", table, " (");
    sql.append(cols.as_str());
    sql.append(") VALUES ");
    sql.append(values.as_str());
    sql
}

/// A statement that updates rows from a list of values.
pub open spec fn update_from_values_text(
    table: Seq<char>,
    alias: Seq<char>,
    set_sql: Seq<char>,
    value_columns: Seq<Seq<char>>,
    rows: int,
    where_sql: Seq<char>,
    returning: Option<Seq<char>>,
) -> Seq<char> {
    let update = "WITH "@ + alias + "("@ + joined(value_columns, ", "@) + ") AS (VALUES "@
        + values_text(rows, value_columns.len() as int) + ") UPDATE "@ + table + " SET "@ + set_sql
        + " FROM "@ + alias + " WHERE "@ + where_sql;
    match returning {
        Some(columns) => update + " RETURNING "@ + columns,
        None => update,
    }
}

/// A statement that updates `table` from `rows` rows of values.
pub fn update_from_values_sql(
    table: &str,
    alias: &str,
    set_sql: &str,
    value_columns: &Vec<String>,
    rows: usize,
    where_sql: &str,
    returning: Option<&str>,
) -> (r: String)
    requires
        rows > 0,
        value_columns@.len() > 0,
        rows * value_columns@.len() <= u64::MAX,
    ensures
        r@ == update_from_values_text(
            table@,
            alias@,
            set_sql@,
            texts(value_columns@),
            rows as int,
            where_sql@,
            match returning {
                Some(columns) => Some(columns@),
                None => None,
            },
        ),
{
    let values = values_placeholders(rows, value_columns.len());
    let cols = join(value_columns, ", ");
    let mut sql = concat3("WITH ", alias, "(");
    sql.append(cols.as_str());
    sql.append(") AS (VALUES ");
    sql.append(values.as_str());
    sql.append(") UPDATE ");
    sql.append(table);
    sql.append(" SET ");
    sql.append(set_sql);
    sql.append(" FROM ");
    sql.append(alias);
    sql.append(" WHERE ");
    sql.append(where_sql);
    if let Some(columns) = returning {
        sql.append(" RETURNING ");
        sql.append(columns);
    }
    sql
}

/// A statement that inserts rows, or changes those that are already there.
pub open spec fn upsert_text(
    table: Seq<char>,
    columns: Seq<Seq<char>>,
    rows: int,
    conflict: Seq<char>,
    set_sql: Seq<char>,
    where_sql: Option<Seq<char>>,
    returning: Option<Seq<char>>,
) -> Seq<char> {
    let upsert = insert_text(table, columns, rows) + " ON CONFLICT("@ + conflict
        + ") DO UPDATE SET "@ + set_sql;
    let filtered = match where_sql {
        Some(condition) => upsert + " WHERE "@ + condition,
        None => upsert,
    };
    match returning {
        Some(list) => filtered + " RETURNING "@ + list,
        None => filtered,
    }
}

/// A statement that inserts `rows` rows into `table`, or changes those whose
/// `conflict` column is already there.
pub fn upsert_sql(
    table: &str,
    columns: &Vec<String>,
    rows: usize,
    conflict: &str,
    set_sql: &str,
    where_sql: Option<&str>,
    returning: Option<&str>,
) -> (r: String)
    requires
        rows > 0,
        columns@.len() > 0,
        rows * columns@.len() <= u64::MAX,
    ensures
        r@ == upsert_text(
            table@,
            texts(columns@),
            rows as int,
            conflict@,
            set_sql@,
            match where_sql {
                Some(condition) => Some(condition@),
                None => None,
            },
            match returning {
                Some(list) => Some(list@),
                None => None,
            },
        ),
{
    let mut sql = insert_sql(table, columns, rows);
    sql.append(" ON CONFLICT(");
    sql.append(conflict);
    sql.append(") DO UPDATE SET ");
    sql.append(set_sql);
    if let Some(condition) = where_sql {
        sql.append(" WHERE ");
        sql.append(condition);
    }
    if let Some(list) = returning {
        sql.append(" RETURNING ");
        sql.append(list);
    }
    sql
}

/// Placeholders are numbered through, from one on, row by row: the one in row
/// `row` and column `col` has the number of all those before it and one.
pub proof fn placeholders_are_numbered_through(rows: int, cols: int, row: int, col: int)
    requires
        0 <= row < rows,
        0 <= col < cols,
    ensures
        placeholder_groups(rows, cols).len() == rows,
        placeholders(row * cols, cols).len() == cols,
        placeholders(row * cols, cols)[col] == "?"@ + decimal((row * cols + col + 1) as nat),
        placeholder_groups(rows, cols)[row] == "("@ + joined(
            placeholders(row * cols, cols),
            ", "@,
        ) + ")"@,
        values_text(rows, cols) == joined(placeholder_groups(rows, cols), ", "@),
{
}

/// How statements are put together.
pub proof fn statements_are_put_together(
    table: Seq<char>,
    columns: Seq<Seq<char>>,
    rows: int,
    conflict: Seq<char>,
    set_sql: Seq<char>,
    condition: Seq<char>,
    list: Seq<char>,
    alias: Seq<char>,
)
    ensures
        ({
            let cols = joined(columns, ", "@);
            let values = values_text(rows, columns.len() as int);
            let insert = "INSERT INTO "@ + table + " ("@ + cols + ") VALUES "@ + values;
            let upsert = insert + " ON CONFLICT("@ + conflict + ") DO UPDATE SET "@ + set_sql;
            let update = "WITH "@ + alias + "("@ + cols + ") AS (VALUES "@ + values + ") UPDATE "@
                + table + " SET "@ + set_sql + " FROM "@ + alias + " WHERE "@ + condition;
            &&& insert_text(table, columns, rows) == insert
            &&& upsert_text(table, columns, rows, conflict, set_sql, None, None) == upsert
            &&& upsert_text(table, columns, rows, conflict, set_sql, Some(condition), None)
                == upsert + " WHERE "@ + condition
            &&& upsert_text(table, columns, rows, conflict, set_sql, Some(condition), Some(list))
                == upsert + " WHERE "@ + condition + " RETURNING "@ + list
            &&& update_from_values_text(table, alias, set_sql, columns, rows, condition, None)
                == update
            &&& update_from_values_text(
                table,
                alias,
                set_sql,
                columns,
                rows,
                condition,
                Some(list),
            ) == update + " RETURNING "@ + list
        }),
{
}

} // verus!
