use vstd::prelude::*;

use crate::editor::{
    order_has, pos_has, pos_keys_distinct, pos_update, GraphEditorState, GraphResponse,
    NodeResponse,
};
use crate::geom::Pos;
use crate::graph::{Graph, NodeTemplate};
use crate::ids::{AnyParameterId, NodeId};
use crate::widget::{node_events, registered_ports, GraphNodeWidget, NodeFrameInput, PortLocations};

verus! {

/// Everything one frame of pointer and keyboard input hands the editor:
/// the global pointer state, the designated button signals, and per node —
/// aligned with the draw order at the start of the frame — the inbound
/// state the rendering pass resolved.
pub struct FrameInput {
    pub cursor: Pos,
    /// A pointer drag began this frame.
    pub drag_started: bool,
    /// Some pointer button was released this frame.
    pub pointer_released: bool,
    /// The secondary button asked for the node finder.
    pub secondary_pressed: bool,
    /// The cancel key was pressed.
    pub escape_pressed: bool,
    /// The designated pan button is held.
    pub pan_button_down: bool,
    /// This frame's pointer delta while panning.
    pub pan_delta: Pos,
    pub click_on_background: bool,
    /// Per-node inbound state, one entry per node in draw order.
    pub node_inputs: Vec<NodeFrameInput>,
    /// The template confirmed in the finder this frame, if any.
    pub finder_choice: Option<NodeTemplate>,
}

/// The events the first `k` nodes of the draw order emit, concatenated in
/// draw order, all judged against the graph as it stood at frame start.
pub open spec fn frame_events_upto(
    g: Graph,
    order: Seq<NodeId>,
    inputs: Seq<NodeFrameInput>,
    ongoing: Option<(NodeId, AnyParameterId)>,
    cursor: Pos,
    drag_started: bool,
    released: bool,
    k: int,
) -> Seq<NodeResponse>
    decreases k,
{
    if k <= 0 {
        Seq::empty()
    } else {
        frame_events_upto(g, order, inputs, ongoing, cursor, drag_started, released, k - 1)
            + node_events(
            g,
            g.node_at(order[k - 1]),
            inputs[k - 1],
            ongoing,
            cursor,
            drag_started,
            released,
        )
    }
}

/// The registry entries the first `k` nodes contribute, in draw order.
pub open spec fn frame_registered_upto(
    g: Graph,
    order: Seq<NodeId>,
    inputs: Seq<NodeFrameInput>,
    k: int,
) -> Seq<(AnyParameterId, Pos)>
    decreases k,
{
    if k <= 0 {
        Seq::empty()
    } else {
        frame_registered_upto(g, order, inputs, k - 1) + registered_ports(
            g,
            g.node_at(order[k - 1]),
            inputs[k - 1],
        )
    }
}

impl GraphEditorState {
    /// Run one frame of the interaction protocol. In order: every node, in
    /// draw order, emits its events against the frame-start state while the
    /// port registry is rebuilt from scratch and body drags move stored
    /// positions; a confirmed finder choice creates its node; the emitted
    /// events are applied in emission order, later ones seeing the effects
    /// of earlier ones; then the global pointer and key state lands — a
    /// release ends any drag, the secondary button opens the finder when
    /// none is pending, the cancel key closes it, the pan button pans, and
    /// a background click clears selection and finder. The full event list
    /// is returned to the host, which is expected to redraw from the
    /// already-mutated state next frame.
    #[verifier::rlimit(100)]
    pub fn process_frame(&mut self, frame: &FrameInput, port_locations: &mut PortLocations) -> (r:
        GraphResponse)
        requires
            old(self).wf(),
            frame.node_inputs@.len() == old(self).node_order@.len(),
            forall|k: int|
                0 <= k < old(self).node_order@.len() ==> {
                    let nd = old(self).graph.node_at(old(self).node_order@[k]);
                    &&& (#[trigger] frame.node_inputs@[k]).input_port_pos@.len()
                        == nd.inputs@.len()
                    &&& frame.node_inputs@[k].output_port_pos@.len() == nd.outputs@.len()
                },
            match frame.finder_choice {
                Some(t) => old(self).graph.next_id + 1 + t.inputs@.len() + t.outputs@.len()
                    <= u64::MAX,
                None => true,
            },
        ensures
            final(self).wf(),
            r.node_responses@ == frame_events_upto(
                old(self).graph,
                old(self).node_order@,
                frame.node_inputs@,
                old(self).connection_in_progress,
                frame.cursor,
                frame.drag_started,
                frame.pointer_released,
                old(self).node_order@.len() as int,
            ),
            final(port_locations).entries@ == frame_registered_upto(
                old(self).graph,
                old(self).node_order@,
                frame.node_inputs@,
                old(self).node_order@.len() as int,
            ),
            frame.pointer_released ==> final(self).connection_in_progress == None::<
                (NodeId, AnyParameterId),
            >,
            final(self).pan == if frame.pan_button_down {
                old(self).pan.shifted_spec(frame.pan_delta)
            } else {
                old(self).pan
            },
            final(self).node_finder == ({
                let confirmed = old(self).node_finder is Some && frame.finder_choice is Some;
                let after_confirm = if confirmed {
                    None::<Pos>
                } else {
                    old(self).node_finder
                };
                let after_secondary = if frame.secondary_pressed && after_confirm is None {
                    Some(frame.cursor)
                } else {
                    after_confirm
                };
                if frame.escape_pressed || frame.click_on_background {
                    None::<Pos>
                } else {
                    after_secondary
                }
            }),
            frame.click_on_background ==> final(self).selected_node == None::<NodeId>,
            (r.node_responses@.len() == 0 && frame.finder_choice is None) ==> {
                &&& final(self).graph == old(self).graph
                &&& final(self).node_order@ == old(self).node_order@
                &&& final(self).selected_node == (if frame.click_on_background {
                    None::<NodeId>
                } else {
                    old(self).selected_node
                })
            },
    {
        let ghost pre = *self;
        *port_locations = PortLocations::new();
        let mut responses: Vec<NodeResponse> = Vec::new();
        let ongoing = self.connection_in_progress;
        let cursor = frame.cursor;
        // per-node pass: emit events, register ports, move dragged bodies
        let mut k: usize = 0;
        let n = self.node_order.len();
        while k < n
            invariant
                k <= n,
                pre.wf(),
                self.graph == pre.graph,
                self.node_order@ == pre.node_order@,
                self.selected_node == pre.selected_node,
                self.connection_in_progress == pre.connection_in_progress,
                self.pan == pre.pan,
                self.node_finder == pre.node_finder,
                n == pre.node_order@.len(),
                ongoing == pre.connection_in_progress,
                cursor == frame.cursor,
                frame.node_inputs@.len() == n,
                forall|j: int|
                    0 <= j < n ==> {
                        let nd = pre.graph.node_at(pre.node_order@[j]);
                        &&& (#[trigger] frame.node_inputs@[j]).input_port_pos@.len()
                            == nd.inputs@.len()
                        &&& frame.node_inputs@[j].output_port_pos@.len() == nd.outputs@.len()
                    },
                responses@ == frame_events_upto(
                    pre.graph,
                    pre.node_order@,
                    frame.node_inputs@,
                    ongoing,
                    cursor,
                    frame.drag_started,
                    frame.pointer_released,
                    k as int,
                ),
                port_locations.entries@ == frame_registered_upto(
                    pre.graph,
                    pre.node_order@,
                    frame.node_inputs@,
                    k as int,
                ),
                pos_keys_distinct(self.node_positions@),
                forall|m: NodeId|
                    #![trigger pos_has(self.node_positions@, m)]
                    pos_has(self.node_positions@, m) == pre.graph.has_node(m),
            decreases n - k,
        {
            let ghost resp_pre = responses@;
            let nid = self.node_order[k];
            proof {
                assert(order_has(pre.node_order@, nid));
                assert(pre.graph.has_node(nid));
            }
            let mut posv = match self.position_of(nid) {
                Some(p) => p,
                None => vstd::pervasive::unreached(),
            };
            let selected = match self.selected_node {
                Some(s) => s == nid,
                None => false,
            };
            let widget = GraphNodeWidget { node_id: nid, ongoing_drag: ongoing, selected, pan: self.pan };
            let mut evs = widget.show(
                &self.graph,
                &frame.node_inputs[k],
                cursor,
                frame.drag_started,
                frame.pointer_released,
                &mut posv,
                port_locations,
            );
            pos_update(&mut self.node_positions, nid, posv);
            responses.append(&mut evs);
            proof {
                let kk = k as int;
                assert(responses@ =~= resp_pre + node_events(
                    pre.graph,
                    pre.graph.node_at(pre.node_order@[kk]),
                    frame.node_inputs@[kk],
                    ongoing,
                    cursor,
                    frame.drag_started,
                    frame.pointer_released,
                ));
                assert(responses@ =~= frame_events_upto(
                    pre.graph,
                    pre.node_order@,
                    frame.node_inputs@,
                    ongoing,
                    cursor,
                    frame.drag_started,
                    frame.pointer_released,
                    kk + 1,
                ));
                assert(port_locations.entries@ =~= frame_registered_upto(
                    pre.graph,
                    pre.node_order@,
                    frame.node_inputs@,
                    kk + 1,
                ));
            }
            k += 1;
        }
        let ghost all_events = responses@;
        proof {
            assert(self.wf());
        }
        // a confirmed finder choice instantiates its node now
        match &frame.finder_choice {
            Some(t) => {
                let _ = self.confirm_node_finder(t, cursor);
            },
            None => {},
        }
        let ghost finder_after_confirm = self.node_finder;
        // apply the emitted events in emission order
        let mut j: usize = 0;
        let r_len = responses.len();
        while j < r_len
            invariant
                j <= r_len,
                self.wf(),
                responses@ == all_events,
                r_len == all_events.len(),
                self.pan == pre.pan,
                self.node_finder == finder_after_confirm,
                (all_events.len() == 0 && frame.finder_choice is None) ==> {
                    &&& self.graph == pre.graph
                    &&& self.node_order@ == pre.node_order@
                    &&& self.selected_node == pre.selected_node
                },
            decreases r_len - j,
        {
            let resp = responses[j];
            self.apply_response(resp);
            j += 1;
        }
        // global pointer and key handling, last in the frame
        if frame.pointer_released {
            self.connection_in_progress = None;
        }
        if frame.secondary_pressed {
            match self.node_finder {
                None => {
                    self.node_finder = Some(cursor);
                },
                Some(_) => {},
            }
        }
        if frame.escape_pressed {
            self.node_finder = None;
        }
        if frame.pan_button_down {
            self.pan = self.pan.shifted(frame.pan_delta);
        }
        if frame.click_on_background {
            self.selected_node = None;
            self.node_finder = None;
        }
        GraphResponse { node_responses: responses }
    }
}

} // verus!
