use pcf_del_archive::cascade::{Action, Cascade};
use pcf_del_archive::error::CascadeError;
use pcf_del_archive::fingerprint::{schema_hash, ColumnInfo, TableSchema};
use pcf_del_archive::graph::{FileMapping, WorkflowGraph, WorkflowNode};

fn node(table: &str, column: &str, where_clause: &str, params: &str, parent: &str) -> WorkflowNode {
    WorkflowNode {
        table: table.to_string(),
        column: column.to_string(),
        where_clause: where_clause.to_string(),
        params: params.to_string(),
        parent: parent.to_string(),
    }
}

fn orders_graph() -> WorkflowGraph {
    WorkflowGraph::build(vec![
        node("Orders", "id", "id", "5", ""),
        node("OrderItems", "id", "order_id", "", "Orders"),
    ])
    .unwrap()
}

fn orders_files() -> Vec<FileMapping> {
    vec![
        FileMapping { table: "Orders".to_string(), path: "/pcf/orders".to_string(), hash: None },
        FileMapping { table: "OrderItems".to_string(), path: "/pcf/items".to_string(), hash: None },
    ]
}

fn select(node: usize, param: &str) -> Action {
    Action::Select { node, param: param.to_string() }
}

fn rows(node: usize, param: &str) -> Action {
    Action::DeleteRows { node, param: param.to_string() }
}

fn file(path: &str) -> Action {
    Action::DeleteFile { path: path.to_string() }
}

fn ids(v: &[&str]) -> Vec<String> {
    v.iter().map(|s| s.to_string()).collect()
}

#[test]
fn cascade_deletes_children_before_parent() {
    let mut c = Cascade::new(orders_graph(), orders_files());
    assert_eq!(c.step(), select(0, "5"));
    assert!(c.awaiting_ids());
    c.supply_ids(ids(&["5"]));
    assert_eq!(c.step(), file("/pcf/orders/5"));
    assert_eq!(c.step(), select(1, "5"));
    c.supply_ids(ids(&["11", "12"]));
    assert_eq!(c.step(), file("/pcf/items/11"));
    assert_eq!(c.step(), file("/pcf/items/12"));
    assert_eq!(c.step(), rows(1, "5"));
    assert_eq!(c.step(), rows(0, "5"));
    assert_eq!(c.step(), Action::Finished);
    assert_eq!(c.step(), Action::Finished);
}

#[test]
fn cleaned_store_deletes_nothing() {
    let mut c = Cascade::new(orders_graph(), orders_files());
    assert_eq!(c.step(), select(0, "5"));
    c.supply_ids(vec![]);
    assert_eq!(c.step(), Action::Finished);
}

#[test]
fn unmapped_table_has_no_file_step() {
    let mut c = Cascade::new(orders_graph(), vec![]);
    assert_eq!(c.step(), select(0, "5"));
    c.supply_ids(ids(&["5"]));
    assert_eq!(c.step(), select(1, "5"));
    c.supply_ids(ids(&["11"]));
    assert_eq!(c.step(), rows(1, "5"));
    assert_eq!(c.step(), rows(0, "5"));
    assert_eq!(c.step(), Action::Finished);
}

#[test]
fn rows_deleted_after_file_step_whatever_its_outcome() {
    let graph = WorkflowGraph::build(vec![node("Orders", "id", "id", "5", "")]).unwrap();
    let files = vec![FileMapping { table: "Orders".to_string(), path: "/missing".to_string(), hash: None }];
    let mut c = Cascade::new(graph, files);
    assert_eq!(c.step(), select(0, "5"));
    c.supply_ids(ids(&["5"]));
    assert_eq!(c.step(), file("/missing/5"));
    assert_eq!(c.step(), rows(0, "5"));
    assert_eq!(c.step(), Action::Finished);
}

#[test]
fn child_with_no_rows_is_not_deleted() {
    let mut c = Cascade::new(orders_graph(), vec![]);
    assert_eq!(c.step(), select(0, "5"));
    c.supply_ids(ids(&["5"]));
    assert_eq!(c.step(), select(1, "5"));
    c.supply_ids(vec![]);
    assert_eq!(c.step(), rows(0, "5"));
    assert_eq!(c.step(), Action::Finished);
}

#[test]
fn several_ids_and_children_depth_first() {
    let graph = WorkflowGraph::build(vec![
        node("A", "id", "id", "r", ""),
        node("B", "id", "a_id", "", "A"),
        node("C", "id", "a_id", "", "A"),
    ])
    .unwrap();
    let mut c = Cascade::new(graph, vec![]);
    assert_eq!(c.step(), select(0, "r"));
    c.supply_ids(ids(&["1", "2"]));
    assert_eq!(c.step(), select(1, "1"));
    c.supply_ids(ids(&["b1"]));
    assert_eq!(c.step(), rows(1, "1"));
    assert_eq!(c.step(), select(2, "1"));
    c.supply_ids(vec![]);
    assert_eq!(c.step(), select(1, "2"));
    c.supply_ids(vec![]);
    assert_eq!(c.step(), select(2, "2"));
    c.supply_ids(ids(&["c2"]));
    assert_eq!(c.step(), rows(2, "2"));
    assert_eq!(c.step(), rows(0, "r"));
    assert_eq!(c.step(), Action::Finished);
}

#[test]
fn escaping_id_falls_back_to_directory() {
    let graph = WorkflowGraph::build(vec![node("Orders", "id", "id", "5", "")]).unwrap();
    let files = vec![FileMapping { table: "Orders".to_string(), path: "/pcf/orders".to_string(), hash: None }];
    let mut c = Cascade::new(graph, files);
    c.step();
    c.supply_ids(ids(&["../../etc/passwd"]));
    assert_eq!(c.step(), file("/pcf/orders"));
}

fn schema() -> Vec<TableSchema> {
    vec![TableSchema {
        name: "Orders".to_string(),
        columns: vec![ColumnInfo { name: "id".to_string(), declared_type: "INTEGER".to_string() }],
    }]
}

#[test]
fn start_refuses_mismatched_schema() {
    let r = Cascade::start(orders_graph(), orders_files(), &schema(), &Some("0000".to_string()));
    assert!(matches!(r, Err(CascadeError::SchemaMismatch { .. })));
}

#[test]
fn start_accepts_matching_or_absent_fingerprint() {
    let h = schema_hash(&schema());
    let mut c = Cascade::start(orders_graph(), orders_files(), &schema(), &Some(h)).unwrap();
    assert_eq!(c.step(), select(0, "5"));
    let mut c = Cascade::start(orders_graph(), orders_files(), &schema(), &None).unwrap();
    assert_eq!(c.step(), select(0, "5"));
}
