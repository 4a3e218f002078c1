use dol::data_type::DataType;
use dol::expr_node::NodeId;
use dol::pipeline::{Graph, JoinKind, Node, NodeIdx, RowSchema, Sink, Source, Transform};

#[test]
fn graph_grows() {
    let mut g = Graph::new();
    let s = g.add(
        Node::Source(Source::Entity { target: "users".into(), schema: RowSchema::empty() }),
        vec![],
    );
    assert_eq!(g.len(), 1);
    assert_eq!(s, NodeIdx(0));
}

#[test]
fn graph_records_inputs_and_outputs() {
    let mut g = Graph::new();
    assert!(g.is_empty());
    let src = g.add(
        Node::Source(Source::File { path: "a.csv".into(), format: "csv".into(), schema: RowSchema::empty() }),
        vec![],
    );
    let filt = g.add(Node::Transform(Transform::Filter { predicate: NodeId(3) }), vec![src]);
    let join = g.add(Node::Transform(Transform::Join { kind: JoinKind::Left, on: NodeId(4) }), vec![src, filt]);
    let sink = g.add(Node::Sink(Sink::Entity { target: "out".into() }), vec![join]);
    g.mark_output(sink);
    assert_eq!(g.len(), 4);
    assert!(!g.is_empty());
    assert_eq!((filt, join, sink), (NodeIdx(1), NodeIdx(2), NodeIdx(3)));
    assert_eq!(g.inputs[2], vec![NodeIdx(0), NodeIdx(1)]);
    assert_eq!(g.outputs, vec![NodeIdx(3)]);
    assert_eq!(g.nodes[3], Node::Sink(Sink::Entity { target: "out".into() }));
}

#[test]
fn row_schema_builds_left_to_right() {
    let rs = RowSchema::empty()
        .with_column("id", DataType::Uuid, false)
        .with_column("email", DataType::unbounded_string(), true);
    assert_eq!(rs.len(), 2);
    assert!(!rs.is_empty());
    assert!(RowSchema::empty().is_empty());
    assert_eq!(rs.columns[0].name, "id");
    assert_eq!(rs.columns[0].ty, DataType::Uuid);
    assert!(!rs.columns[0].nullable);
    assert_eq!(rs.columns[1].name, "email");
    assert!(rs.columns[1].nullable);
}
