use node_graph::editor::{GraphEditorState, NodeResponse};
use node_graph::frame::FrameInput;
use node_graph::geom::Pos;
use node_graph::graph::{InputTemplate, NodeTemplate, OutputTemplate};
use node_graph::ids::{AnyParameterId, DataType, InputParamKind, NodeId};
use node_graph::widget::{NodeFrameInput, PortLocations};

fn source(typ: u64) -> NodeTemplate {
    NodeTemplate {
        label: "src".to_string(),
        user_data: 0,
        inputs: vec![],
        outputs: vec![OutputTemplate { name: "out".to_string(), typ: DataType(typ) }],
    }
}

fn sink(typ: u64) -> NodeTemplate {
    NodeTemplate {
        label: "dst".to_string(),
        user_data: 0,
        inputs: vec![InputTemplate {
            name: "in".to_string(),
            typ: DataType(typ),
            kind: InputParamKind::ConnectionOrConstant,
            value: 0,
            shown_inline: true,
        }],
        outputs: vec![],
    }
}

fn spawn(state: &mut GraphEditorState, t: &NodeTemplate, at: Pos) -> NodeId {
    state.node_finder = Some(at);
    state.confirm_node_finder(t, at).expect("finder was open")
}

const FAR: Pos = Pos { x: -100000, y: -100000 };

fn idle_node_inputs(state: &GraphEditorState) -> Vec<NodeFrameInput> {
    state
        .node_order
        .iter()
        .map(|nid| {
            let node = state.graph.node(*nid).expect("ordered node is live");
            NodeFrameInput {
                input_port_pos: vec![FAR; node.inputs.len()],
                output_port_pos: vec![FAR; node.outputs.len()],
                drag_delta: Pos { x: 0, y: 0 },
                body_clicked: false,
                close_clicked: false,
                user_responses: vec![],
            }
        })
        .collect()
}

fn idle_frame(state: &GraphEditorState) -> FrameInput {
    FrameInput {
        cursor: Pos { x: 50000, y: 50000 },
        drag_started: false,
        pointer_released: false,
        secondary_pressed: false,
        escape_pressed: false,
        pan_button_down: false,
        pan_delta: Pos { x: 0, y: 0 },
        click_on_background: false,
        node_inputs: idle_node_inputs(state),
        finder_choice: None,
    }
}

#[test]
fn drag_and_release_connects_matching_ports() {
    let mut s = GraphEditorState::new();
    let n1 = spawn(&mut s, &source(1), Pos { x: 0, y: 0 });
    let n2 = spawn(&mut s, &sink(1), Pos { x: 200, y: 0 });
    let o1 = s.graph.node(n1).unwrap().outputs[0].1;
    let i1 = s.graph.node(n2).unwrap().inputs[0].1;
    let mut reg = PortLocations::new();

    // frame one: the drag starts on the output port
    let mut f1 = idle_frame(&s);
    f1.cursor = Pos { x: 100, y: 100 };
    f1.drag_started = true;
    f1.node_inputs[0].output_port_pos = vec![Pos { x: 100, y: 100 }];
    let r1 = s.process_frame(&f1, &mut reg);
    assert_eq!(
        r1.node_responses,
        vec![NodeResponse::ConnectEventStarted(n1, AnyParameterId::Output(o1))]
    );
    assert_eq!(s.connection_in_progress, Some((n1, AnyParameterId::Output(o1))));
    assert_eq!(reg.get(AnyParameterId::Output(o1)), Some(Pos { x: 100, y: 100 }));

    // frame two: released while hovering the compatible input port
    let mut f2 = idle_frame(&s);
    f2.cursor = Pos { x: 303, y: 100 };
    f2.pointer_released = true;
    f2.node_inputs[1].input_port_pos = vec![Pos { x: 300, y: 100 }];
    let r2 = s.process_frame(&f2, &mut reg);
    assert_eq!(
        r2.node_responses,
        vec![NodeResponse::ConnectEventEnded(AnyParameterId::Input(i1))]
    );
    assert_eq!(s.graph.connection(i1), Some(o1));
    assert_eq!(s.connection_in_progress, None);
}

#[test]
fn release_with_no_target_aborts() {
    let mut s = GraphEditorState::new();
    let n1 = spawn(&mut s, &source(1), Pos { x: 0, y: 0 });
    let n2 = spawn(&mut s, &sink(1), Pos { x: 200, y: 0 });
    let i1 = s.graph.node(n2).unwrap().inputs[0].1;
    let o1 = s.graph.node(n1).unwrap().outputs[0].1;
    s.connection_in_progress = Some((n1, AnyParameterId::Output(o1)));
    let mut reg = PortLocations::new();
    let mut f = idle_frame(&s);
    f.pointer_released = true;
    let r = s.process_frame(&f, &mut reg);
    assert!(r.node_responses.is_empty());
    assert_eq!(s.connection_in_progress, None);
    assert_eq!(s.graph.connection(i1), None);
}

#[test]
fn mismatched_types_never_commit() {
    let mut s = GraphEditorState::new();
    let n1 = spawn(&mut s, &source(1), Pos { x: 0, y: 0 });
    let n2 = spawn(&mut s, &sink(2), Pos { x: 200, y: 0 });
    let o1 = s.graph.node(n1).unwrap().outputs[0].1;
    let i1 = s.graph.node(n2).unwrap().inputs[0].1;
    s.connection_in_progress = Some((n1, AnyParameterId::Output(o1)));
    let mut reg = PortLocations::new();
    let mut f = idle_frame(&s);
    f.cursor = Pos { x: 300, y: 100 };
    f.pointer_released = true;
    f.node_inputs[1].input_port_pos = vec![Pos { x: 300, y: 100 }];
    let r = s.process_frame(&f, &mut reg);
    assert!(r.node_responses.is_empty());
    assert_eq!(s.graph.connection(i1), None);
}

#[test]
fn drag_on_connected_input_picks_wire_up() {
    let mut s = GraphEditorState::new();
    let n1 = spawn(&mut s, &source(1), Pos { x: 0, y: 0 });
    let n2 = spawn(&mut s, &sink(1), Pos { x: 200, y: 0 });
    let o1 = s.graph.node(n1).unwrap().outputs[0].1;
    let i1 = s.graph.node(n2).unwrap().inputs[0].1;
    assert_eq!(s.graph.add_connection(o1, i1), Ok(()));
    let mut reg = PortLocations::new();
    let mut f = idle_frame(&s);
    f.cursor = Pos { x: 300, y: 100 };
    f.drag_started = true;
    f.node_inputs[1].input_port_pos = vec![Pos { x: 300, y: 100 }];
    let r = s.process_frame(&f, &mut reg);
    assert_eq!(r.node_responses, vec![NodeResponse::DisconnectEvent(i1)]);
    assert_eq!(s.graph.connection(i1), None);
    assert_eq!(s.connection_in_progress, Some((n1, AnyParameterId::Output(o1))));
}

#[test]
fn reroute_scenario_restores_connection() {
    // N1 { out O1: Number }, N2 { in I1: Number (connection-or-constant) },
    // connected O1 -> I1; the wire is picked up at I1 and dropped back on it
    let mut s = GraphEditorState::new();
    let n1 = spawn(&mut s, &source(1), Pos { x: 0, y: 0 });
    let n2 = spawn(&mut s, &sink(1), Pos { x: 200, y: 0 });
    let o1 = s.graph.node(n1).unwrap().outputs[0].1;
    let i1 = s.graph.node(n2).unwrap().inputs[0].1;
    assert_eq!(s.graph.add_connection(o1, i1), Ok(()));
    let mut reg = PortLocations::new();
    let i1_port = Pos { x: 300, y: 100 };

    // the drag starts on the connected input: the wire is severed at once
    // and the origin is the far (output) end
    let mut f1 = idle_frame(&s);
    f1.cursor = i1_port;
    f1.drag_started = true;
    f1.node_inputs[1].input_port_pos = vec![i1_port];
    let r1 = s.process_frame(&f1, &mut reg);
    assert!(s.graph.iter_connections().is_empty());
    assert_eq!(s.connection_in_progress, Some((n1, AnyParameterId::Output(o1))));

    // released over I1 again with the matching type: the map is restored
    let mut f2 = idle_frame(&s);
    f2.cursor = i1_port;
    f2.pointer_released = true;
    f2.node_inputs[1].input_port_pos = vec![i1_port];
    let r2 = s.process_frame(&f2, &mut reg);
    assert_eq!(s.graph.connection(i1), Some(o1));
    assert_eq!(s.graph.iter_connections(), vec![(i1, o1)]);

    // the emitted events across the gesture: the disconnect, followed later
    // by the commit on the input end
    let mut events = r1.node_responses.clone();
    events.extend(r2.node_responses.iter().copied());
    let disconnect_at = events
        .iter()
        .position(|e| *e == NodeResponse::DisconnectEvent(i1))
        .expect("the pick-up emits a disconnect");
    let ended_at = events
        .iter()
        .position(|e| *e == NodeResponse::ConnectEventEnded(AnyParameterId::Input(i1)))
        .expect("the drop emits a connect-ended");
    assert!(disconnect_at < ended_at);
}

#[test]
fn finder_opens_confirms_and_closes() {
    let mut s = GraphEditorState::new();
    let mut reg = PortLocations::new();
    let mut f1 = idle_frame(&s);
    f1.cursor = Pos { x: 40, y: 50 };
    f1.secondary_pressed = true;
    s.process_frame(&f1, &mut reg);
    assert_eq!(s.node_finder, Some(Pos { x: 40, y: 50 }));

    let mut f2 = idle_frame(&s);
    f2.cursor = Pos { x: 40, y: 50 };
    f2.finder_choice = Some(source(1));
    s.process_frame(&f2, &mut reg);
    assert_eq!(s.node_finder, None);
    assert_eq!(s.node_order.len(), 1);
    let n = s.node_order[0];
    assert_eq!(s.position_of(n), Some(Pos { x: 40, y: 50 }));
}

#[test]
fn escape_closes_finder_without_creating() {
    let mut s = GraphEditorState::new();
    s.node_finder = Some(Pos { x: 5, y: 5 });
    let mut reg = PortLocations::new();
    let mut f = idle_frame(&s);
    f.escape_pressed = true;
    s.process_frame(&f, &mut reg);
    assert_eq!(s.node_finder, None);
    assert!(s.node_order.is_empty());
}

#[test]
fn background_click_clears_selection_and_finder() {
    let mut s = GraphEditorState::new();
    let a = spawn(&mut s, &source(1), Pos { x: 0, y: 0 });
    s.selected_node = Some(a);
    s.node_finder = Some(Pos { x: 1, y: 1 });
    let mut reg = PortLocations::new();
    let mut f = idle_frame(&s);
    f.click_on_background = true;
    s.process_frame(&f, &mut reg);
    assert_eq!(s.selected_node, None);
    assert_eq!(s.node_finder, None);
}

#[test]
fn pan_button_accumulates_offset() {
    let mut s = GraphEditorState::new();
    let a = spawn(&mut s, &source(1), Pos { x: 10, y: 10 });
    let mut reg = PortLocations::new();
    let mut f = idle_frame(&s);
    f.pan_button_down = true;
    f.pan_delta = Pos { x: 7, y: -3 };
    s.process_frame(&f, &mut reg);
    let mut f2 = idle_frame(&s);
    f2.pan_button_down = true;
    f2.pan_delta = Pos { x: 1, y: 1 };
    s.process_frame(&f2, &mut reg);
    assert_eq!(s.pan, Pos { x: 8, y: -2 });
    // stored positions stay pan-independent
    assert_eq!(s.position_of(a), Some(Pos { x: 10, y: 10 }));
}

#[test]
fn body_drag_moves_and_raises() {
    let mut s = GraphEditorState::new();
    let a = spawn(&mut s, &source(1), Pos { x: 10, y: 10 });
    let b = spawn(&mut s, &source(1), Pos { x: 50, y: 50 });
    let mut reg = PortLocations::new();
    let mut f = idle_frame(&s);
    f.node_inputs[0].drag_delta = Pos { x: 5, y: 6 };
    let r = s.process_frame(&f, &mut reg);
    assert_eq!(r.node_responses, vec![NodeResponse::RaiseNode(a)]);
    assert_eq!(s.position_of(a), Some(Pos { x: 15, y: 16 }));
    assert_eq!(s.node_order, vec![b, a]);
}

#[test]
fn body_click_selects_and_raises() {
    let mut s = GraphEditorState::new();
    let a = spawn(&mut s, &source(1), Pos { x: 10, y: 10 });
    let b = spawn(&mut s, &source(1), Pos { x: 50, y: 50 });
    let mut reg = PortLocations::new();
    let mut f = idle_frame(&s);
    f.node_inputs[0].body_clicked = true;
    let r = s.process_frame(&f, &mut reg);
    assert_eq!(
        r.node_responses,
        vec![NodeResponse::SelectNode(a), NodeResponse::RaiseNode(a)]
    );
    assert_eq!(s.selected_node, Some(a));
    assert_eq!(s.node_order, vec![b, a]);
}

#[test]
fn close_affordance_deletes_node() {
    let mut s = GraphEditorState::new();
    let a = spawn(&mut s, &source(1), Pos { x: 10, y: 10 });
    let b = spawn(&mut s, &sink(1), Pos { x: 50, y: 50 });
    let oa = s.graph.node(a).unwrap().outputs[0].1;
    let ib = s.graph.node(b).unwrap().inputs[0].1;
    assert_eq!(s.graph.add_connection(oa, ib), Ok(()));
    let mut reg = PortLocations::new();
    let mut f = idle_frame(&s);
    f.node_inputs[0].close_clicked = true;
    let r = s.process_frame(&f, &mut reg);
    assert_eq!(r.node_responses, vec![NodeResponse::DeleteNode(a)]);
    assert_eq!(s.node_order, vec![b]);
    assert!(s.graph.iter_connections().is_empty());
}

#[test]
fn user_responses_pass_through_in_order() {
    let mut s = GraphEditorState::new();
    spawn(&mut s, &source(1), Pos { x: 10, y: 10 });
    let mut reg = PortLocations::new();
    let mut f = idle_frame(&s);
    f.node_inputs[0].user_responses = vec![11, 22];
    let r = s.process_frame(&f, &mut reg);
    assert_eq!(
        r.node_responses,
        vec![NodeResponse::User(11), NodeResponse::User(22)]
    );
}

#[test]
fn constant_only_inputs_draw_no_port() {
    let mut s = GraphEditorState::new();
    let n1 = spawn(&mut s, &source(1), Pos { x: 0, y: 0 });
    let t = NodeTemplate {
        label: "k".to_string(),
        user_data: 0,
        inputs: vec![InputTemplate {
            name: "in".to_string(),
            typ: DataType(1),
            kind: InputParamKind::ConstantOnly,
            value: 5,
            shown_inline: true,
        }],
        outputs: vec![],
    };
    let n2 = spawn(&mut s, &t, Pos { x: 200, y: 0 });
    let o1 = s.graph.node(n1).unwrap().outputs[0].1;
    let i1 = s.graph.node(n2).unwrap().inputs[0].1;
    s.connection_in_progress = Some((n1, AnyParameterId::Output(o1)));
    let mut reg = PortLocations::new();
    let mut f = idle_frame(&s);
    f.cursor = Pos { x: 300, y: 100 };
    f.pointer_released = true;
    f.node_inputs[1].input_port_pos = vec![Pos { x: 300, y: 100 }];
    let r = s.process_frame(&f, &mut reg);
    // the hovered slot never drew a port, so nothing commits and nothing
    // was registered for it
    assert!(r.node_responses.is_empty());
    assert_eq!(s.graph.connection(i1), None);
    assert_eq!(reg.get(AnyParameterId::Input(i1)), None);
}
