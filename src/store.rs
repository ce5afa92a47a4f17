use vstd::prelude::*;
use crate::error::CascadeError;
use crate::fingerprint::{
    check_schema, is_hex_digest, schema_fingerprint, schema_hash, schema_view, ColumnInfo, TableSchema,
};
use crate::graph::WorkflowNode;
use crate::ident::{is_valid_identifier, valid_identifier};

verus! {

#[verifier::external_type_specification]
#[verifier::external_body]
pub struct ExStoreError(rusqlite::Error);

#[verifier::external_type_specification]
#[verifier::external_body]
pub struct ExConnection(rusqlite::Connection);

/// Relies on rusqlite's `Connection::prepare`, `Statement::query_map` and
/// `Row::get`: runs `sql` with `param` bound to its one placeholder and reads
/// the first `width` columns of every row as text, or fails as a whole.
#[verifier::external_body]
fn query_text_rows(conn: &rusqlite::Connection, sql: &str, param: &str, width: usize) -> (r: Result<
    Vec<Vec<String>>,
    rusqlite::Error,
>)
    ensures
        r matches Ok(rows) ==> forall|i: int| 0 <= i < rows@.len() ==> #[trigger] rows@[i]@.len()
            == width,
{
    let mut stmt = conn.prepare(sql)?;
    let rows = stmt.query_map([param], |row| {
        (0..width).map(|j| row.get::<usize, String>(j)).collect::<rusqlite::Result<Vec<String>>>()
    })?;
    rows.collect()
}

/// Relies on rusqlite's `Connection::execute`: runs `sql` with `param` bound to
/// its one placeholder and reports the number of rows changed.
#[verifier::external_body]
fn execute_with(conn: &rusqlite::Connection, sql: &str, param: &str) -> (r: Result<
    usize,
    rusqlite::Error,
>) {
    conn.execute(sql, [param])
}

/// `SELECT <column> FROM <table> WHERE <predicate> = ?`
pub open spec fn select_sql(table: Seq<char>, column: Seq<char>, predicate: Seq<char>) -> Seq<char> {
    "SELECT "@ + column + " FROM "@ + table + " WHERE "@ + predicate + " = ?"@
}

/// `DELETE FROM <table> WHERE <predicate> = ?`
pub open spec fn delete_sql(table: Seq<char>, predicate: Seq<char>) -> Seq<char> {
    "DELETE FROM "@ + table + " WHERE "@ + predicate + " = ?"@
}

/// The store's user tables by ascending name; internal tables, whose names
/// start with `sqlite_`, are left out. The one placeholder takes the object
/// kind `table`.
pub open spec fn tables_sql() -> Seq<char> {
    "SELECT name FROM sqlite_master WHERE type = ? AND substr(name, 1, 7) <> 'sqlite_' ORDER BY name"@
}

/// The columns of the table named by the one placeholder: name and declared
/// type, in declared order.
pub open spec fn columns_sql() -> Seq<char> {
    "SELECT name, type FROM pragma_table_info(?) ORDER BY cid"@
}

/// The text of the query for the store's user tables.
pub fn tables_query() -> (r: String)
    ensures
        r@ == tables_sql(),
{
    String::from_str(
        "SELECT name FROM sqlite_master WHERE type = ? AND substr(name, 1, 7) <> 'sqlite_' ORDER BY name",
    )
}

/// The text of the query for one table's columns.
pub fn columns_query() -> (r: String)
    ensures
        r@ == columns_sql(),
{
    String::from_str("SELECT name, type FROM pragma_table_info(?) ORDER BY cid")
}

/// The text of the selection statement for one workflow node.
pub fn select_statement(table: &str, column: &str, predicate: &str) -> (r: String)
    ensures
        r@ == select_sql(table@, column@, predicate@),
{
    let mut q = String::new();
    q.append("SELECT ");
    q.append(column);
    q.append(" FROM ");
    q.append(table);
    q.append(" WHERE ");
    q.append(predicate);
    q.append(" = ?");
    assert(q@ =~= select_sql(table@, column@, predicate@));
    q
}

/// The text of the bulk deletion statement for one workflow node.
pub fn delete_statement(table: &str, predicate: &str) -> (r: String)
    ensures
        r@ == delete_sql(table@, predicate@),
{
    let mut q = String::new();
    q.append("DELETE FROM ");
    q.append(table);
    q.append(" WHERE ");
    q.append(predicate);
    q.append(" = ?");
    assert(q@ =~= delete_sql(table@, predicate@));
    q
}

/// Reads the identifiers selected by `workflow` for `param`. Every name is
/// checked before any query is issued.
pub fn get_value_list_from(
    conn: &rusqlite::Connection,
    workflow: &WorkflowNode,
    where_clause: &str,
    param: &str,
) -> (r: Result<Vec<String>, CascadeError>)
    ensures
        r matches Err(CascadeError::InvalidIdentifier(_)) <==> !(valid_identifier(workflow.table@)
            && valid_identifier(workflow.column@) && valid_identifier(where_clause@)),
        r is Err ==> (r matches Err(CascadeError::InvalidIdentifier(_)) || r matches Err(
            CascadeError::Store(_),
        )),
{
    if !is_valid_identifier(workflow.table.as_str()) {
        return Err(CascadeError::InvalidIdentifier(workflow.table.clone()));
    }
    if !is_valid_identifier(workflow.column.as_str()) {
        return Err(CascadeError::InvalidIdentifier(workflow.column.clone()));
    }
    if !is_valid_identifier(where_clause) {
        return Err(CascadeError::InvalidIdentifier(String::from_str(where_clause)));
    }
    let sql = select_statement(workflow.table.as_str(), workflow.column.as_str(), where_clause);
    match query_text_rows(conn, sql.as_str(), param, 1) {
        Err(e) => Err(CascadeError::Store(e)),
        Ok(rows) => {
            let mut ids: Vec<String> = Vec::new();
            let mut i: usize = 0;
            while i < rows.len()
                invariant
                    i <= rows@.len(),
                    forall|k: int| 0 <= k < rows@.len() ==> #[trigger] rows@[k]@.len() == 1,
                decreases rows@.len() - i,
            {
                assert(rows@[i as int]@.len() == 1);
                ids.push(rows[i][0].clone());
                i = i + 1;
            }
            Ok(ids)
        },
    }
}

/// Removes every row of `table` whose `where_clause` column equals `param`,
/// in one statement. Both names are checked first.
pub fn delete_db_entries(
    conn: &rusqlite::Connection,
    table: &str,
    where_clause: &str,
    param: &str,
) -> (r: Result<usize, CascadeError>)
    ensures
        r matches Err(CascadeError::InvalidIdentifier(_)) <==> !(valid_identifier(table@)
            && valid_identifier(where_clause@)),
        r is Err ==> (r matches Err(CascadeError::InvalidIdentifier(_)) || r matches Err(
            CascadeError::Store(_),
        )),
{
    if !is_valid_identifier(table) {
        return Err(CascadeError::InvalidIdentifier(String::from_str(table)));
    }
    if !is_valid_identifier(where_clause) {
        return Err(CascadeError::InvalidIdentifier(String::from_str(where_clause)));
    }
    let sql = delete_statement(table, where_clause);
    match execute_with(conn, sql.as_str(), param) {
        Err(e) => Err(CascadeError::Store(e)),
        Ok(n) => Ok(n),
    }
}

/// Reads the store's user tables in name order, each with its columns in
/// declared order; internal `sqlite_` tables are left out.
pub fn fetch_schema(conn: &rusqlite::Connection) -> (r: Result<Vec<TableSchema>, CascadeError>)
    ensures
        r is Err ==> r matches Err(CascadeError::Store(_)),
{
    let tables_sql = tables_query();
    let columns_sql = columns_query();
    let names = match query_text_rows(conn, tables_sql.as_str(), "table", 1) {
        Err(e) => {
            return Err(CascadeError::Store(e));
        },
        Ok(rows) => rows,
    };
    let mut tables: Vec<TableSchema> = Vec::new();
    let mut i: usize = 0;
    while i < names.len()
        invariant
            i <= names@.len(),
            forall|k: int| 0 <= k < names@.len() ==> #[trigger] names@[k]@.len() == 1,
        decreases names@.len() - i,
    {
        assert(names@[i as int]@.len() == 1);
        let name = names[i][0].clone();
        let rows = match query_text_rows(conn, columns_sql.as_str(), name.as_str(), 2) {
            Err(e) => {
                return Err(CascadeError::Store(e));
            },
            Ok(rows) => rows,
        };
        let mut columns: Vec<ColumnInfo> = Vec::new();
        let mut j: usize = 0;
        while j < rows.len()
            invariant
                j <= rows@.len(),
                forall|k: int| 0 <= k < rows@.len() ==> #[trigger] rows@[k]@.len() == 2,
            decreases rows@.len() - j,
        {
            assert(rows@[j as int]@.len() == 2);
            columns.push(ColumnInfo { name: rows[j][0].clone(), declared_type: rows[j][1].clone() });
            j = j + 1;
        }
        tables.push(TableSchema { name, columns });
        i = i + 1;
    }
    Ok(tables)
}

/// The fingerprint of the store's current schema.
pub fn get_schema_hash(conn: &rusqlite::Connection) -> (r: Result<String, CascadeError>)
    ensures
        r matches Ok(h) ==> exists|ts: Seq<TableSchema>| h@ == schema_fingerprint(
            #[trigger] schema_view(ts),
        ),
        r matches Ok(h) ==> is_hex_digest(h@),
        r is Err ==> r matches Err(CascadeError::Store(_)),
{
    match fetch_schema(conn) {
        Err(e) => Err(e),
        Ok(tables) => {
            let h = schema_hash(tables.as_slice());
            assert(h@ == schema_fingerprint(schema_view(tables@)));
            Ok(h)
        },
    }
}

/// Ok iff the store's current schema has the fingerprint `expected_hash`.
pub fn validate_database_schema(conn: &rusqlite::Connection, expected_hash: &str) -> (r: Result<
    (),
    CascadeError,
>)
    ensures
        r is Ok ==> exists|ts: Seq<TableSchema>| schema_fingerprint(#[trigger] schema_view(ts))
            == expected_hash@,
        r matches Err(CascadeError::SchemaMismatch { expected: e, actual: a }) ==> e@
            == expected_hash@ && a@ != expected_hash@,
        r is Err ==> (r matches Err(CascadeError::SchemaMismatch { .. }) || r matches Err(
            CascadeError::Store(_),
        )),
{
    match fetch_schema(conn) {
        Err(e) => Err(e),
        Ok(tables) => {
            let r = check_schema(tables.as_slice(), expected_hash);
            assert(r is Ok ==> schema_fingerprint(schema_view(tables@)) == expected_hash@);
            r
        },
    }
}

} // verus!
