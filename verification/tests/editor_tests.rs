use node_graph::editor::{GraphEditorState, NodeResponse};
use node_graph::geom::Pos;
use node_graph::graph::{InputTemplate, NodeTemplate, OutputTemplate};
use node_graph::ids::{AnyParameterId, DataType, InputParamKind, NodeId};

fn number_source() -> NodeTemplate {
    NodeTemplate {
        label: "N1".to_string(),
        user_data: 0,
        inputs: vec![],
        outputs: vec![OutputTemplate { name: "O1".to_string(), typ: DataType(1) }],
    }
}

fn number_sink() -> NodeTemplate {
    NodeTemplate {
        label: "N2".to_string(),
        user_data: 0,
        inputs: vec![InputTemplate {
            name: "I1".to_string(),
            typ: DataType(1),
            kind: InputParamKind::ConnectionOrConstant,
            value: 0,
            shown_inline: true,
        }],
        outputs: vec![],
    }
}

fn spawn(state: &mut GraphEditorState, t: &NodeTemplate, at: Pos) -> NodeId {
    state.node_finder = Some(at);
    state.confirm_node_finder(t, at).expect("finder was open")
}

#[test]
fn node_order_tracks_live_set() {
    let mut s = GraphEditorState::new();
    let a = spawn(&mut s, &number_source(), Pos { x: 0, y: 0 });
    let b = spawn(&mut s, &number_sink(), Pos { x: 10, y: 10 });
    let c = spawn(&mut s, &number_source(), Pos { x: 20, y: 20 });
    assert_eq!(s.node_order, vec![a, b, c]);
    s.apply_response(NodeResponse::DeleteNode(b));
    assert_eq!(s.node_order, vec![a, c]);
    assert!(s.graph.node(b).is_none());
    let d = spawn(&mut s, &number_sink(), Pos { x: 30, y: 30 });
    assert_eq!(s.node_order, vec![a, c, d]);
    assert_ne!(d, b);
}

#[test]
fn raising_twice_equals_raising_once() {
    let mut s = GraphEditorState::new();
    let a = spawn(&mut s, &number_source(), Pos { x: 0, y: 0 });
    let b = spawn(&mut s, &number_sink(), Pos { x: 10, y: 10 });
    let c = spawn(&mut s, &number_source(), Pos { x: 20, y: 20 });
    s.apply_response(NodeResponse::RaiseNode(a));
    let once = s.node_order.clone();
    assert_eq!(once, vec![b, c, a]);
    s.apply_response(NodeResponse::RaiseNode(a));
    assert_eq!(s.node_order, once);
}

#[test]
fn pick_up_reroute_scenario() {
    let mut s = GraphEditorState::new();
    let n1 = spawn(&mut s, &number_source(), Pos { x: 0, y: 0 });
    let n2 = spawn(&mut s, &number_sink(), Pos { x: 100, y: 0 });
    let o1 = s.graph.node(n1).unwrap().outputs[0].1;
    let i1 = s.graph.node(n2).unwrap().inputs[0].1;
    // connect O1 -> I1 by dragging from the output and releasing on the
    // input
    s.apply_response(NodeResponse::ConnectEventStarted(n1, AnyParameterId::Output(o1)));
    s.apply_response(NodeResponse::ConnectEventEnded(AnyParameterId::Input(i1)));
    assert_eq!(s.graph.connection(i1), Some(o1));
    s.connection_in_progress = None;
    // picking the wire up at I1 severs it at once and the drag origin is
    // the far (output) end
    s.apply_response(NodeResponse::DisconnectEvent(i1));
    assert_eq!(s.graph.connection(i1), None);
    assert_eq!(s.connection_in_progress, Some((n1, AnyParameterId::Output(o1))));
    // releasing over I1 again restores the connection
    s.apply_response(NodeResponse::ConnectEventEnded(AnyParameterId::Input(i1)));
    assert_eq!(s.graph.connection(i1), Some(o1));
}

#[test]
fn pick_up_then_abort_leaves_severed() {
    let mut s = GraphEditorState::new();
    let n1 = spawn(&mut s, &number_source(), Pos { x: 0, y: 0 });
    let n2 = spawn(&mut s, &number_sink(), Pos { x: 100, y: 0 });
    let o1 = s.graph.node(n1).unwrap().outputs[0].1;
    let i1 = s.graph.node(n2).unwrap().inputs[0].1;
    s.apply_response(NodeResponse::ConnectEventStarted(n1, AnyParameterId::Output(o1)));
    s.apply_response(NodeResponse::ConnectEventEnded(AnyParameterId::Input(i1)));
    s.connection_in_progress = None;
    s.apply_response(NodeResponse::DisconnectEvent(i1));
    // the drag is aborted: the wire stays severed
    s.connection_in_progress = None;
    assert_eq!(s.graph.connection(i1), None);
}

#[test]
fn deleting_source_after_reroute_scenario() {
    let mut s = GraphEditorState::new();
    let n1 = spawn(&mut s, &number_source(), Pos { x: 0, y: 0 });
    let n2 = spawn(&mut s, &number_sink(), Pos { x: 100, y: 0 });
    let o1 = s.graph.node(n1).unwrap().outputs[0].1;
    let i1 = s.graph.node(n2).unwrap().inputs[0].1;
    s.apply_response(NodeResponse::ConnectEventStarted(n1, AnyParameterId::Output(o1)));
    s.apply_response(NodeResponse::ConnectEventEnded(AnyParameterId::Input(i1)));
    s.connection_in_progress = None;
    s.apply_response(NodeResponse::DeleteNode(n1));
    assert!(s.graph.iter_connections().is_empty());
    assert_eq!(s.node_order, vec![n2]);
    assert_eq!(s.position_of(n1), None);
    assert!(s.position_of(n2).is_some());
}

#[test]
fn deleting_selected_node_clears_selection_and_drag() {
    let mut s = GraphEditorState::new();
    let a = spawn(&mut s, &number_source(), Pos { x: 0, y: 0 });
    let o = s.graph.node(a).unwrap().outputs[0].1;
    s.apply_response(NodeResponse::SelectNode(a));
    assert_eq!(s.selected_node, Some(a));
    s.apply_response(NodeResponse::ConnectEventStarted(a, AnyParameterId::Output(o)));
    assert_eq!(s.connection_in_progress, Some((a, AnyParameterId::Output(o))));
    s.apply_response(NodeResponse::DeleteNode(a));
    assert_eq!(s.selected_node, None);
    assert_eq!(s.connection_in_progress, None);
}

#[test]
fn committing_a_self_loop_is_refused_at_apply_time() {
    let mut s = GraphEditorState::new();
    let t = NodeTemplate {
        label: "both".to_string(),
        user_data: 0,
        inputs: vec![InputTemplate {
            name: "in".to_string(),
            typ: DataType(1),
            kind: InputParamKind::ConnectionOnly,
            value: 0,
            shown_inline: true,
        }],
        outputs: vec![OutputTemplate { name: "out".to_string(), typ: DataType(1) }],
    };
    let n = spawn(&mut s, &t, Pos { x: 0, y: 0 });
    let i = s.graph.node(n).unwrap().inputs[0].1;
    let o = s.graph.node(n).unwrap().outputs[0].1;
    s.apply_response(NodeResponse::ConnectEventStarted(n, AnyParameterId::Output(o)));
    s.apply_response(NodeResponse::ConnectEventEnded(AnyParameterId::Input(i)));
    assert_eq!(s.graph.connection(i), None);
    assert!(s.graph.iter_connections().is_empty());
}

#[test]
fn creation_corrects_for_pan_offset() {
    let mut s = GraphEditorState::new();
    s.pan = Pos { x: 30, y: -20 };
    let a = spawn(&mut s, &number_source(), Pos { x: 100, y: 100 });
    assert_eq!(s.position_of(a), Some(Pos { x: 70, y: 120 }));
    assert_eq!(s.node_finder, None);
}

#[test]
fn events_on_dead_entities_are_no_ops() {
    let mut s = GraphEditorState::new();
    let a = spawn(&mut s, &number_source(), Pos { x: 0, y: 0 });
    let ghost_id = NodeId(4040);
    s.apply_response(NodeResponse::SelectNode(ghost_id));
    assert_eq!(s.selected_node, None);
    s.apply_response(NodeResponse::DeleteNode(ghost_id));
    assert_eq!(s.node_order, vec![a]);
    s.apply_response(NodeResponse::RaiseNode(ghost_id));
    assert_eq!(s.node_order, vec![a]);
}
