use pcf_del_archive::cascade::{Action, Cascade};
use pcf_del_archive::error::CascadeError;
use pcf_del_archive::fingerprint::{schema_hash, ColumnInfo, TableSchema};
use pcf_del_archive::graph::{FileMapping, WorkflowGraph, WorkflowNode};
use pcf_del_archive::store::{
    delete_db_entries, delete_statement, fetch_schema, get_schema_hash, get_value_list_from,
    select_statement, validate_database_schema,
};
use rusqlite::Connection;

fn node(table: &str, column: &str, where_clause: &str, params: &str, parent: &str) -> WorkflowNode {
    WorkflowNode {
        table: table.to_string(),
        column: column.to_string(),
        where_clause: where_clause.to_string(),
        params: params.to_string(),
        parent: parent.to_string(),
    }
}

fn orders_store() -> Connection {
    let conn = Connection::open_in_memory().unwrap();
    conn.execute_batch(
        "CREATE TABLE Orders (id TEXT PRIMARY KEY);
         CREATE TABLE OrderItems (id TEXT PRIMARY KEY, order_id TEXT REFERENCES Orders(id));
         PRAGMA foreign_keys = ON;
         INSERT INTO Orders VALUES ('5'), ('6');
         INSERT INTO OrderItems VALUES ('11', '5'), ('12', '5'), ('13', '6');",
    )
    .unwrap();
    conn
}

fn orders_graph() -> WorkflowGraph {
    WorkflowGraph::build(vec![
        node("Orders", "id", "id", "5", ""),
        node("OrderItems", "id", "order_id", "", "Orders"),
    ])
    .unwrap()
}

fn count(conn: &Connection, sql: &str) -> i64 {
    conn.query_row(sql, [], |r| r.get(0)).unwrap()
}

fn run(conn: &Connection, graph: WorkflowGraph, files: Vec<FileMapping>) -> Result<Vec<Action>, CascadeError> {
    let mut c = Cascade::new(graph, files);
    let mut done = Vec::new();
    loop {
        let (a, _) = c.advance_with_store(conn)?;
        if a == Action::Finished {
            return Ok(done);
        }
        done.push(a);
    }
}

#[test]
fn statements_are_built_from_names() {
    assert_eq!(select_statement("Orders", "id", "cid"), "SELECT id FROM Orders WHERE cid = ?");
    assert_eq!(delete_statement("Orders", "cid"), "DELETE FROM Orders WHERE cid = ?");
}

#[test]
fn value_list_reads_matching_ids() {
    let conn = orders_store();
    let w = node("OrderItems", "id", "order_id", "", "Orders");
    let mut got = get_value_list_from(&conn, &w, "order_id", "5").unwrap();
    got.sort();
    assert_eq!(got, vec!["11".to_string(), "12".to_string()]);
    assert!(get_value_list_from(&conn, &w, "order_id", "99").unwrap().is_empty());
}

#[test]
fn value_list_rejects_bad_names() {
    let conn = orders_store();
    let bad = node("Orders; DROP TABLE Orders", "id", "id", "", "");
    assert!(matches!(get_value_list_from(&conn, &bad, "id", "5"), Err(CascadeError::InvalidIdentifier(_))));
    let w = node("Orders", "id", "id", "", "");
    assert!(matches!(get_value_list_from(&conn, &w, "id = 1 OR 1", "5"), Err(CascadeError::InvalidIdentifier(_))));
    assert_eq!(count(&conn, "SELECT COUNT(*) FROM Orders"), 2);
}

#[test]
fn value_list_reports_store_error() {
    let conn = orders_store();
    let w = node("Missing", "id", "id", "", "");
    assert!(matches!(get_value_list_from(&conn, &w, "id", "5"), Err(CascadeError::Store(_))));
}

#[test]
fn delete_entries_removes_matching_rows() {
    let conn = orders_store();
    assert_eq!(delete_db_entries(&conn, "OrderItems", "order_id", "5").unwrap(), 2);
    assert_eq!(count(&conn, "SELECT COUNT(*) FROM OrderItems"), 1);
    assert!(matches!(delete_db_entries(&conn, "Order Items", "order_id", "5"), Err(CascadeError::InvalidIdentifier(_))));
}

#[test]
fn run_deletes_tree_children_first() {
    let conn = orders_store();
    let files = vec![
        FileMapping { table: "Orders".to_string(), path: "/pcf/orders".to_string(), hash: None },
        FileMapping { table: "OrderItems".to_string(), path: "/pcf/items".to_string(), hash: None },
    ];
    let actions = run(&conn, orders_graph(), files).unwrap();
    let items_deleted = actions.iter().position(|a| *a == Action::DeleteRows { node: 1, param: "5".to_string() }).unwrap();
    let order_deleted = actions.iter().position(|a| *a == Action::DeleteRows { node: 0, param: "5".to_string() }).unwrap();
    assert!(items_deleted < order_deleted);
    assert!(actions.contains(&Action::DeleteFile { path: "/pcf/orders/5".to_string() }));
    assert!(actions.contains(&Action::DeleteFile { path: "/pcf/items/11".to_string() }));
    assert!(actions.contains(&Action::DeleteFile { path: "/pcf/items/12".to_string() }));
    assert_eq!(count(&conn, "SELECT COUNT(*) FROM Orders WHERE id = '5'"), 0);
    assert_eq!(count(&conn, "SELECT COUNT(*) FROM OrderItems WHERE order_id = '5'"), 0);
    assert_eq!(count(&conn, "SELECT COUNT(*) FROM Orders"), 1);
    assert_eq!(count(&conn, "SELECT COUNT(*) FROM OrderItems"), 1);
}

#[test]
fn second_run_deletes_nothing() {
    let conn = orders_store();
    run(&conn, orders_graph(), vec![]).unwrap();
    let again = run(&conn, orders_graph(), vec![]).unwrap();
    assert_eq!(again, vec![Action::Select { node: 0, param: "5".to_string() }]);
}

#[test]
fn invalid_child_name_aborts_run() {
    let conn = orders_store();
    let graph = WorkflowGraph::build(vec![
        node("Orders", "id", "id", "5", ""),
        node("OrderItems", "id", "order-id", "", "Orders"),
    ])
    .unwrap();
    assert!(matches!(run(&conn, graph, vec![]), Err(CascadeError::InvalidIdentifier(_))));
    assert_eq!(count(&conn, "SELECT COUNT(*) FROM Orders"), 2);
}

#[test]
fn fetched_schema_matches_declared_tables() {
    let conn = orders_store();
    let tables = fetch_schema(&conn).unwrap();
    let names: Vec<&str> = tables.iter().map(|t| t.name.as_str()).collect();
    assert_eq!(names, vec!["OrderItems", "Orders"]);
    assert_eq!(tables[0].columns.len(), 2);
    assert_eq!(tables[0].columns[1].name, "order_id");
    assert_eq!(tables[0].columns[1].declared_type, "TEXT");
    let expected = vec![
        TableSchema {
            name: "OrderItems".to_string(),
            columns: vec![
                ColumnInfo { name: "id".to_string(), declared_type: "TEXT".to_string() },
                ColumnInfo { name: "order_id".to_string(), declared_type: "TEXT".to_string() },
            ],
        },
        TableSchema {
            name: "Orders".to_string(),
            columns: vec![ColumnInfo { name: "id".to_string(), declared_type: "TEXT".to_string() }],
        },
    ];
    assert_eq!(get_schema_hash(&conn).unwrap(), schema_hash(&expected));
}

#[test]
fn schema_validation_gates_run() {
    let conn = orders_store();
    let h = get_schema_hash(&conn).unwrap();
    assert!(validate_database_schema(&conn, &h).is_ok());
    assert!(matches!(validate_database_schema(&conn, "0000"), Err(CascadeError::SchemaMismatch { .. })));
    conn.execute_batch("ALTER TABLE Orders ADD COLUMN note TEXT;").unwrap();
    assert_ne!(get_schema_hash(&conn).unwrap(), h);
    let tables = fetch_schema(&conn).unwrap();
    let started = Cascade::start(orders_graph(), vec![], &tables, &Some(h));
    assert!(matches!(started, Err(CascadeError::SchemaMismatch { .. })));
    assert_eq!(count(&conn, "SELECT COUNT(*) FROM Orders"), 2);
}

#[test]
fn user_table_named_like_internal_prefix_is_fingerprinted() {
    let conn = orders_store();
    let before = get_schema_hash(&conn).unwrap();
    conn.execute_batch("CREATE TABLE sqliteX (id TEXT);").unwrap();
    let tables = fetch_schema(&conn).unwrap();
    assert!(tables.iter().any(|t| t.name == "sqliteX"));
    assert_ne!(get_schema_hash(&conn).unwrap(), before);
}

#[test]
fn metadata_queries_text() {
    assert_eq!(
        pcf_del_archive::store::tables_query(),
        "SELECT name FROM sqlite_master WHERE type = ? AND substr(name, 1, 7) <> 'sqlite_' ORDER BY name"
    );
    assert_eq!(
        pcf_del_archive::store::columns_query(),
        "SELECT name, type FROM pragma_table_info(?) ORDER BY cid"
    );
}

#[test]
fn delete_entries_names_the_bad_predicate() {
    let conn = orders_store();
    match delete_db_entries(&conn, "OrderItems", "order id", "5") {
        Err(CascadeError::InvalidIdentifier(name)) => assert_eq!(name, "order id"),
        other => panic!("unexpected result: {:?}", other),
    }
}

#[test]
fn parent_delete_blocked_by_children_is_fatal() {
    let conn = orders_store();
    let graph = WorkflowGraph::build(vec![node("Orders", "id", "id", "5", "")]).unwrap();
    let mut c = Cascade::new(graph, vec![]);
    assert_eq!(c.advance_with_store(&conn).unwrap(), (Action::Select { node: 0, param: "5".to_string() }, 0));
    assert!(matches!(c.advance_with_store(&conn), Err(CascadeError::Store(_))));
    assert_eq!(count(&conn, "SELECT COUNT(*) FROM Orders WHERE id = '5'"), 1);
}

#[test]
fn store_step_reports_deleted_row_count() {
    let conn = orders_store();
    let mut c = Cascade::new(orders_graph(), vec![]);
    assert_eq!(c.advance_with_store(&conn).unwrap(), (Action::Select { node: 0, param: "5".to_string() }, 0));
    assert_eq!(c.advance_with_store(&conn).unwrap(), (Action::Select { node: 1, param: "5".to_string() }, 0));
    assert_eq!(c.advance_with_store(&conn).unwrap(), (Action::DeleteRows { node: 1, param: "5".to_string() }, 2));
    assert_eq!(c.advance_with_store(&conn).unwrap(), (Action::DeleteRows { node: 0, param: "5".to_string() }, 1));
    assert_eq!(c.advance_with_store(&conn).unwrap(), (Action::Finished, 0));
}
