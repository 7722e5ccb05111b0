use node_graph::graph::{Graph, GraphError, InputTemplate, NodeTemplate, OutputTemplate};
use node_graph::ids::{DataType, InputId, InputParamKind, OutputId};

fn template(
    label: &str,
    inputs: Vec<(u64, InputParamKind)>,
    outputs: Vec<u64>,
) -> NodeTemplate {
    NodeTemplate {
        label: label.to_string(),
        user_data: 7,
        inputs: inputs
            .into_iter()
            .enumerate()
            .map(|(i, (t, k))| InputTemplate {
                name: format!("in{}", i),
                typ: DataType(t),
                kind: k,
                value: 0,
                shown_inline: true,
            })
            .collect(),
        outputs: outputs
            .into_iter()
            .enumerate()
            .map(|(i, t)| OutputTemplate { name: format!("out{}", i), typ: DataType(t) })
            .collect(),
    }
}

#[test]
fn add_node_builds_all_parameters_atomically() {
    let mut g = Graph::new();
    let n = g.add_node(&template(
        "mix",
        vec![(1, InputParamKind::ConnectionOrConstant), (2, InputParamKind::ConstantOnly)],
        vec![1],
    ));
    let node = g.node(n).expect("node should be live").clone();
    assert_eq!(node.label, "mix");
    assert_eq!(node.user_data, 7);
    assert_eq!(node.inputs.len(), 2);
    assert_eq!(node.outputs.len(), 1);
    let i0 = node.inputs[0].1;
    let p = g.get_input(i0).expect("input should be live");
    assert_eq!(p.node, n);
    assert_eq!(p.typ, DataType(1));
    assert_eq!(p.kind, InputParamKind::ConnectionOrConstant);
    let o0 = node.outputs[0].1;
    let q = g.get_output(o0).expect("output should be live");
    assert_eq!(q.node, n);
    assert_eq!(q.typ, DataType(1));
    assert_eq!(g.iter_nodes(), vec![n]);
}

#[test]
fn connecting_twice_replaces_never_duplicates() {
    let mut g = Graph::new();
    let n1 = g.add_node(&template("a", vec![], vec![1]));
    let n2 = g.add_node(&template("b", vec![(1, InputParamKind::ConnectionOnly)], vec![]));
    let n3 = g.add_node(&template("c", vec![], vec![1]));
    let o1 = g.node(n1).unwrap().outputs[0].1;
    let i1 = g.node(n2).unwrap().inputs[0].1;
    let o2 = g.node(n3).unwrap().outputs[0].1;
    assert_eq!(g.add_connection(o1, i1), Ok(()));
    assert_eq!(g.connection(i1), Some(o1));
    assert_eq!(g.add_connection(o2, i1), Ok(()));
    assert_eq!(g.connection(i1), Some(o2));
    assert_eq!(g.iter_connections().len(), 1);
}

#[test]
fn self_loop_is_refused_and_nothing_stored() {
    let mut g = Graph::new();
    let n = g.add_node(&template("loop", vec![(1, InputParamKind::ConnectionOnly)], vec![1]));
    let i = g.node(n).unwrap().inputs[0].1;
    let o = g.node(n).unwrap().outputs[0].1;
    assert_eq!(g.add_connection(o, i), Err(GraphError::SelfLoop));
    assert_eq!(g.connection(i), None);
    assert!(g.iter_connections().is_empty());
}

#[test]
fn dead_endpoints_are_refused() {
    let mut g = Graph::new();
    let n = g.add_node(&template("a", vec![(1, InputParamKind::ConnectionOnly)], vec![1]));
    let i = g.node(n).unwrap().inputs[0].1;
    let o = g.node(n).unwrap().outputs[0].1;
    assert_eq!(g.add_connection(OutputId(9999), i), Err(GraphError::NotFound));
    assert_eq!(g.add_connection(o, InputId(9999)), Err(GraphError::NotFound));
    assert!(g.iter_connections().is_empty());
}

#[test]
fn remove_connection_clears_only_its_entry() {
    let mut g = Graph::new();
    let n1 = g.add_node(&template("a", vec![], vec![1]));
    let n2 = g.add_node(
        &template(
            "b",
            vec![(1, InputParamKind::ConnectionOnly), (1, InputParamKind::ConnectionOnly)],
            vec![],
        ),
    );
    let o = g.node(n1).unwrap().outputs[0].1;
    let ia = g.node(n2).unwrap().inputs[0].1;
    let ib = g.node(n2).unwrap().inputs[1].1;
    assert_eq!(g.add_connection(o, ia), Ok(()));
    assert_eq!(g.add_connection(o, ib), Ok(()));
    assert_eq!(g.remove_connection(ia), Some(o));
    assert_eq!(g.connection(ia), None);
    assert_eq!(g.connection(ib), Some(o));
    assert_eq!(g.remove_connection(ia), None);
}

#[test]
fn removing_a_node_cascades_to_params_and_connections() {
    let mut g = Graph::new();
    let n1 = g.add_node(&template("src", vec![], vec![1]));
    let n2 = g.add_node(&template("dst", vec![(1, InputParamKind::ConnectionOrConstant)], vec![]));
    let o = g.node(n1).unwrap().outputs[0].1;
    let i = g.node(n2).unwrap().inputs[0].1;
    assert_eq!(g.add_connection(o, i), Ok(()));
    assert_eq!(g.remove_node(n1), Ok(()));
    assert!(g.node(n1).is_none());
    assert!(g.get_output(o).is_none());
    assert_eq!(g.connection(i), None);
    assert!(g.iter_connections().is_empty());
    assert_eq!(g.iter_nodes(), vec![n2]);
    assert_eq!(g.remove_node(n1), Err(GraphError::NotFound));
}

#[test]
fn output_fans_out_to_many_inputs() {
    let mut g = Graph::new();
    let n1 = g.add_node(&template("src", vec![], vec![3]));
    let n2 = g.add_node(
        &template(
            "dst",
            vec![(3, InputParamKind::ConnectionOnly), (3, InputParamKind::ConnectionOnly)],
            vec![],
        ),
    );
    let o = g.node(n1).unwrap().outputs[0].1;
    let ia = g.node(n2).unwrap().inputs[0].1;
    let ib = g.node(n2).unwrap().inputs[1].1;
    assert_eq!(g.add_connection(o, ia), Ok(()));
    assert_eq!(g.add_connection(o, ib), Ok(()));
    assert_eq!(g.connection(ia), Some(o));
    assert_eq!(g.connection(ib), Some(o));
    assert_eq!(g.iter_connections().len(), 2);
}
