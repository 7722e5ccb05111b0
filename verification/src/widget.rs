use vstd::prelude::*;

use crate::editor::NodeResponse;
use crate::geom::{port_hit, port_hit_spec, Pos};
use crate::graph::{Graph, Node};
use crate::ids::{AnyParameterId, InputId, InputParamKind, NodeId};

verus! {

/// The transient per-frame registry mapping each drawn port to its screen
/// center. Rebuilt from scratch every frame while the nodes are laid out;
/// never kept across frames. A key registered again overwrites (the last
/// registration wins).
pub struct PortLocations {
    pub entries: Vec<(AnyParameterId, Pos)>,
}

/// Last-registration-wins lookup over the registry entries.
pub open spec fn loc_lookup(s: Seq<(AnyParameterId, Pos)>, p: AnyParameterId) -> Option<Pos>
    decreases s.len(),
{
    if s.len() == 0 {
        None
    } else if s.last().0 == p {
        Some(s.last().1)
    } else {
        loc_lookup(s.drop_last(), p)
    }
}

impl PortLocations {
    /// An empty registry, as each frame starts with.
    pub fn new() -> (r: PortLocations)
        ensures
            r.entries@.len() == 0,
            forall|p: AnyParameterId| loc_lookup(r.entries@, p) == None::<Pos>,
    {
        PortLocations { entries: Vec::new() }
    }

    /// Record the screen center of a drawn port.
    pub fn insert(&mut self, p: AnyParameterId, pos: Pos)
        ensures
            final(self).entries@ == old(self).entries@.push((p, pos)),
            loc_lookup(final(self).entries@, p) == Some(pos),
            forall|q: AnyParameterId|
                q != p ==> loc_lookup(final(self).entries@, q) == loc_lookup(
                    old(self).entries@,
                    q,
                ),
    {
        self.entries.push((p, pos));
        proof {
            let fin = self.entries@;
            assert(fin.drop_last() =~= old(self).entries@);
        }
    }

    /// The recorded screen center of a port, if it was registered this
    /// frame.
    pub fn get(&self, p: AnyParameterId) -> (r: Option<Pos>)
        ensures
            r == loc_lookup(self.entries@, p),
    {
        let mut k: usize = self.entries.len();
        proof {
            assert(self.entries@.subrange(0, self.entries@.len() as int) =~= self.entries@);
        }
        while k > 0
            invariant
                k <= self.entries@.len(),
                loc_lookup(self.entries@, p) == loc_lookup(
                    self.entries@.subrange(0, k as int),
                    p,
                ),
            decreases k,
        {
            if self.entries[k - 1].0 == p {
                proof {
                    let pre = self.entries@.subrange(0, k as int);
                    assert(pre.last() == self.entries@[k - 1]);
                }
                return Some(self.entries[k - 1].1);
            }
            k -= 1;
            proof {
                let longer = self.entries@.subrange(0, k + 1 as int);
                assert(longer.drop_last() =~= self.entries@.subrange(0, k as int));
            }
        }
        proof {
            assert(self.entries@.subrange(0, 0).len() == 0);
        }
        None
    }
}

/// Per-node inbound state for one frame, supplied by the rendering pass:
/// the resolved screen center of every port slot (entries of constant-only
/// inputs, which draw no port, are ignored), the drag delta of the node
/// body, whether the body was clicked, whether the close affordance was
/// activated, and any custom payloads the node's own body chose to emit.
pub struct NodeFrameInput {
    pub input_port_pos: Vec<Pos>,
    pub output_port_pos: Vec<Pos>,
    pub drag_delta: Pos,
    pub body_clicked: bool,
    pub close_clicked: bool,
    pub user_responses: Vec<u64>,
}

/// Whether an input slot draws a port at all: constant-only inputs never do
/// and can never be connected.
pub open spec fn is_drawn_input(g: Graph, i: InputId) -> bool {
    g.input_live(i) && g.input_at(i).kind != InputParamKind::ConstantOnly
}

/// The custom payload events of the node body, in emission order.
pub open spec fn user_events_upto(us: Seq<u64>, k: int) -> Seq<NodeResponse>
    decreases k,
{
    if k <= 0 {
        Seq::empty()
    } else {
        user_events_upto(us, k - 1).push(NodeResponse::User(us[k - 1]))
    }
}

/// The event one input port slot contributes: while no drag is in progress,
/// a drag starting on a drawn hovered port picks up the existing wire (if
/// the input is connected) or starts a fresh drag; while one is in
/// progress, releasing over a drawn hovered port of the same data type on a
/// different node commits.
pub open spec fn input_port_step(
    g: Graph,
    node: Node,
    inp: NodeFrameInput,
    ongoing: Option<(NodeId, AnyParameterId)>,
    cursor: Pos,
    drag_started: bool,
    released: bool,
    k: int,
) -> Seq<NodeResponse> {
    let i = node.inputs@[k].1;
    let pos = inp.input_port_pos@[k];
    if !is_drawn_input(g, i) {
        Seq::empty()
    } else {
        match ongoing {
            None => if drag_started && port_hit_spec(pos, cursor) {
                if g.conn_of(i) is Some {
                    seq![NodeResponse::DisconnectEvent(i)]
                } else {
                    seq![NodeResponse::ConnectEventStarted(node.id, AnyParameterId::Input(i))]
                }
            } else {
                Seq::empty()
            },
            Some((onode, oport)) => if onode != node.id && g.param_type(oport) == Some(
                g.input_at(i).typ,
            ) && port_hit_spec(pos, cursor) && released {
                seq![NodeResponse::ConnectEventEnded(AnyParameterId::Input(i))]
            } else {
                Seq::empty()
            },
        }
    }
}

pub open spec fn input_events_upto(
    g: Graph,
    node: Node,
    inp: NodeFrameInput,
    ongoing: Option<(NodeId, AnyParameterId)>,
    cursor: Pos,
    drag_started: bool,
    released: bool,
    k: int,
) -> Seq<NodeResponse>
    decreases k,
{
    if k <= 0 {
        Seq::empty()
    } else {
        input_events_upto(g, node, inp, ongoing, cursor, drag_started, released, k - 1)
            + input_port_step(g, node, inp, ongoing, cursor, drag_started, released, k - 1)
    }
}

/// The event one output port slot contributes; outputs always draw a port.
pub open spec fn output_port_step(
    g: Graph,
    node: Node,
    inp: NodeFrameInput,
    ongoing: Option<(NodeId, AnyParameterId)>,
    cursor: Pos,
    drag_started: bool,
    released: bool,
    k: int,
) -> Seq<NodeResponse> {
    let o = node.outputs@[k].1;
    let pos = inp.output_port_pos@[k];
    match ongoing {
        None => if drag_started && port_hit_spec(pos, cursor) {
            seq![NodeResponse::ConnectEventStarted(node.id, AnyParameterId::Output(o))]
        } else {
            Seq::empty()
        },
        Some((onode, oport)) => if onode != node.id && g.param_type(oport) == Some(
            g.output_at(o).typ,
        ) && port_hit_spec(pos, cursor) && released {
            seq![NodeResponse::ConnectEventEnded(AnyParameterId::Output(o))]
        } else {
            Seq::empty()
        },
    }
}

pub open spec fn output_events_upto(
    g: Graph,
    node: Node,
    inp: NodeFrameInput,
    ongoing: Option<(NodeId, AnyParameterId)>,
    cursor: Pos,
    drag_started: bool,
    released: bool,
    k: int,
) -> Seq<NodeResponse>
    decreases k,
{
    if k <= 0 {
        Seq::empty()
    } else {
        output_events_upto(g, node, inp, ongoing, cursor, drag_started, released, k - 1)
            + output_port_step(g, node, inp, ongoing, cursor, drag_started, released, k - 1)
    }
}

/// The registry entries the node's drawn input ports contribute, in order.
pub open spec fn registered_inputs_upto(g: Graph, node: Node, inp: NodeFrameInput, k: int) -> Seq<
    (AnyParameterId, Pos),
>
    decreases k,
{
    if k <= 0 {
        Seq::empty()
    } else {
        registered_inputs_upto(g, node, inp, k - 1) + (if is_drawn_input(g, node.inputs@[k - 1].1) {
            seq![(AnyParameterId::Input(node.inputs@[k - 1].1), inp.input_port_pos@[k - 1])]
        } else {
            Seq::empty()
        })
    }
}

/// The registry entries the node's output ports contribute, in order.
pub open spec fn registered_outputs_upto(g: Graph, node: Node, inp: NodeFrameInput, k: int) -> Seq<
    (AnyParameterId, Pos),
>
    decreases k,
{
    if k <= 0 {
        Seq::empty()
    } else {
        registered_outputs_upto(g, node, inp, k - 1).push(
            (AnyParameterId::Output(node.outputs@[k - 1].1), inp.output_port_pos@[k - 1]),
        )
    }
}

/// Everything the node registers this frame: drawn inputs, then outputs.
pub open spec fn registered_ports(g: Graph, node: Node, inp: NodeFrameInput) -> Seq<
    (AnyParameterId, Pos),
> {
    registered_inputs_upto(g, node, inp, node.inputs@.len() as int) + registered_outputs_upto(
        g,
        node,
        inp,
        node.outputs@.len() as int,
    )
}

/// The node-body events after the port passes: the close affordance emits a
/// delete; a nonzero body drag raises; a body click with no other response
/// this frame selects and raises.
pub open spec fn body_events(
    node_id: NodeId,
    inp: NodeFrameInput,
    prior: Seq<NodeResponse>,
) -> Seq<NodeResponse> {
    let del = if inp.close_clicked {
        seq![NodeResponse::DeleteNode(node_id)]
    } else {
        Seq::empty()
    };
    let drag = if inp.drag_delta != (Pos { x: 0, y: 0 }) {
        seq![NodeResponse::RaiseNode(node_id)]
    } else {
        Seq::empty()
    };
    let sel = if prior.len() + del.len() + drag.len() == 0 && inp.body_clicked {
        seq![NodeResponse::SelectNode(node_id), NodeResponse::RaiseNode(node_id)]
    } else {
        Seq::empty()
    };
    del + drag + sel
}

/// The full ordered event list one node emits in one frame: custom body
/// payloads, then input ports, then output ports, then the body.
pub open spec fn node_events(
    g: Graph,
    node: Node,
    inp: NodeFrameInput,
    ongoing: Option<(NodeId, AnyParameterId)>,
    cursor: Pos,
    drag_started: bool,
    released: bool,
) -> Seq<NodeResponse> {
    let u = user_events_upto(inp.user_responses@, inp.user_responses@.len() as int);
    let ie = input_events_upto(
        g,
        node,
        inp,
        ongoing,
        cursor,
        drag_started,
        released,
        node.inputs@.len() as int,
    );
    let oe = output_events_upto(
        g,
        node,
        inp,
        ongoing,
        cursor,
        drag_started,
        released,
        node.outputs@.len() as int,
    );
    u + ie + oe + body_events(node.id, inp, u + ie + oe)
}

/// One node's slice of the interaction pass: everything about the node
/// that is not painting. It emits the node's events for this frame,
/// registers its drawn ports, and applies the body drag to the node's
/// stored position.
pub struct GraphNodeWidget {
    pub node_id: NodeId,
    /// The drag in progress at the start of the frame, if any.
    pub ongoing_drag: Option<(NodeId, AnyParameterId)>,
    /// Whether this node is the current selection (drawn highlighted; no
    /// bearing on the emitted events).
    pub selected: bool,
    /// The session pan offset (the node renders at stored position + pan;
    /// no bearing on the emitted events).
    pub pan: Pos,
}

impl GraphNodeWidget {
    /// Emit this node's events for the frame, register its drawn ports and
    /// move its stored position by the body drag delta.
    #[verifier::rlimit(80)]
    pub fn show(
        &self,
        graph: &Graph,
        inp: &NodeFrameInput,
        cursor: Pos,
        drag_started: bool,
        released: bool,
        position: &mut Pos,
        port_locations: &mut PortLocations,
    ) -> (out: Vec<NodeResponse>)
        requires
            graph.wf(),
            graph.has_node(self.node_id),
            inp.input_port_pos@.len() == graph.node_at(self.node_id).inputs@.len(),
            inp.output_port_pos@.len() == graph.node_at(self.node_id).outputs@.len(),
        ensures
            out@ == node_events(
                *graph,
                graph.node_at(self.node_id),
                *inp,
                self.ongoing_drag,
                cursor,
                drag_started,
                released,
            ),
            final(port_locations).entries@ == old(port_locations).entries@ + registered_ports(
                *graph,
                graph.node_at(self.node_id),
                *inp,
            ),
            *final(position) == old(position).shifted_spec(inp.drag_delta),
    {
        let ghost node_spec = graph.node_at(self.node_id);
        let ghost entries0 = port_locations.entries@;
        let node = match graph.node(self.node_id) {
            Some(nd) => nd,
            None => vstd::pervasive::unreached(),
        };
        let mut out: Vec<NodeResponse> = Vec::new();
        // custom body payloads first, as the body is laid out before the
        // ports
        let mut k: usize = 0;
        let n_user = inp.user_responses.len();
        while k < n_user
            invariant
                k <= n_user,
                n_user == inp.user_responses@.len(),
                out@ == user_events_upto(inp.user_responses@, k as int),
            decreases n_user - k,
        {
            out.push(NodeResponse::User(inp.user_responses[k]));
            k += 1;
        }
        let ghost u = user_events_upto(inp.user_responses@, inp.user_responses@.len() as int);
        // input ports: register drawn ones, translate hits into events
        let mut k: usize = 0;
        let n_in = node.inputs.len();
        while k < n_in
            invariant
                k <= n_in,
                graph.wf(),
                graph.has_node(self.node_id),
                *node == node_spec,
                node_spec == graph.node_at(self.node_id),
                n_in == node_spec.inputs@.len(),
                inp.input_port_pos@.len() == n_in,
                u == user_events_upto(inp.user_responses@, inp.user_responses@.len() as int),
                out@ == u + input_events_upto(
                    *graph,
                    node_spec,
                    *inp,
                    self.ongoing_drag,
                    cursor,
                    drag_started,
                    released,
                    k as int,
                ),
                port_locations.entries@ == entries0 + registered_inputs_upto(
                    *graph,
                    node_spec,
                    *inp,
                    k as int,
                ),
            decreases n_in - k,
        {
            let ghost out_pre = out@;
            let iid = node.inputs[k].1;
            proof {
                let ni = graph.node_index(self.node_id);
                assert(graph.nodes@[ni].inputs@[k as int].1 == iid);
                assert(graph.input_live(iid) && graph.input_at(iid).node == node_spec.id);
            }
            let param = match graph.get_input(iid) {
                Some(p) => p,
                None => vstd::pervasive::unreached(),
            };
            let drawn = match param.kind {
                InputParamKind::ConstantOnly => false,
                _ => true,
            };
            if drawn {
                let pos = inp.input_port_pos[k];
                port_locations.insert(AnyParameterId::Input(iid), pos);
                let hovered = port_hit(pos, cursor);
                match self.ongoing_drag {
                    None => {
                        if drag_started && hovered {
                            match graph.connection(iid) {
                                Some(_) => {
                                    out.push(NodeResponse::DisconnectEvent(iid));
                                },
                                None => {
                                    out.push(
                                        NodeResponse::ConnectEventStarted(
                                            self.node_id,
                                            AnyParameterId::Input(iid),
                                        ),
                                    );
                                },
                            }
                        }
                    },
                    Some((onode, oport)) => {
                        if onode != self.node_id && released && hovered {
                            let matches_type = match graph.any_param_type(oport) {
                                Some(t) => t == param.typ,
                                None => false,
                            };
                            if matches_type {
                                out.push(
                                    NodeResponse::ConnectEventEnded(AnyParameterId::Input(iid)),
                                );
                            }
                        }
                    },
                }
            }
            proof {
                let kk = k as int;
                let step = input_port_step(
                    *graph,
                    node_spec,
                    *inp,
                    self.ongoing_drag,
                    cursor,
                    drag_started,
                    released,
                    kk,
                );
                assert(out@ =~= out_pre + step);
                assert(out@ =~= u + input_events_upto(
                    *graph,
                    node_spec,
                    *inp,
                    self.ongoing_drag,
                    cursor,
                    drag_started,
                    released,
                    kk + 1,
                ));
                assert(port_locations.entries@ =~= entries0 + registered_inputs_upto(
                    *graph,
                    node_spec,
                    *inp,
                    kk + 1,
                ));
            }
            k += 1;
        }
        let ghost ie = input_events_upto(
            *graph,
            node_spec,
            *inp,
            self.ongoing_drag,
            cursor,
            drag_started,
            released,
            node_spec.inputs@.len() as int,
        );
        let ghost reg_in = registered_inputs_upto(
            *graph,
            node_spec,
            *inp,
            node_spec.inputs@.len() as int,
        );
        // output ports: all of them draw
        let mut k: usize = 0;
        let n_out = node.outputs.len();
        while k < n_out
            invariant
                k <= n_out,
                graph.wf(),
                graph.has_node(self.node_id),
                *node == node_spec,
                node_spec == graph.node_at(self.node_id),
                n_out == node_spec.outputs@.len(),
                inp.output_port_pos@.len() == n_out,
                u == user_events_upto(inp.user_responses@, inp.user_responses@.len() as int),
                ie == input_events_upto(
                    *graph,
                    node_spec,
                    *inp,
                    self.ongoing_drag,
                    cursor,
                    drag_started,
                    released,
                    node_spec.inputs@.len() as int,
                ),
                reg_in == registered_inputs_upto(
                    *graph,
                    node_spec,
                    *inp,
                    node_spec.inputs@.len() as int,
                ),
                out@ == u + ie + output_events_upto(
                    *graph,
                    node_spec,
                    *inp,
                    self.ongoing_drag,
                    cursor,
                    drag_started,
                    released,
                    k as int,
                ),
                port_locations.entries@ == entries0 + reg_in + registered_outputs_upto(
                    *graph,
                    node_spec,
                    *inp,
                    k as int,
                ),
            decreases n_out - k,
        {
            let ghost out_pre = out@;
            let oid = node.outputs[k].1;
            proof {
                let ni = graph.node_index(self.node_id);
                assert(graph.nodes@[ni].outputs@[k as int].1 == oid);
                assert(graph.output_live(oid) && graph.output_at(oid).node == node_spec.id);
            }
            let param = match graph.get_output(oid) {
                Some(p) => p,
                None => vstd::pervasive::unreached(),
            };
            let pos = inp.output_port_pos[k];
            port_locations.insert(AnyParameterId::Output(oid), pos);
            let hovered = port_hit(pos, cursor);
            match self.ongoing_drag {
                None => {
                    if drag_started && hovered {
                        out.push(
                            NodeResponse::ConnectEventStarted(
                                self.node_id,
                                AnyParameterId::Output(oid),
                            ),
                        );
                    }
                },
                Some((onode, oport)) => {
                    if onode != self.node_id && released && hovered {
                        let matches_type = match graph.any_param_type(oport) {
                            Some(t) => t == param.typ,
                            None => false,
                        };
                        if matches_type {
                            out.push(NodeResponse::ConnectEventEnded(AnyParameterId::Output(oid)));
                        }
                    }
                },
            }
            proof {
                let kk = k as int;
                let step = output_port_step(
                    *graph,
                    node_spec,
                    *inp,
                    self.ongoing_drag,
                    cursor,
                    drag_started,
                    released,
                    kk,
                );
                assert(out@ =~= out_pre + step);
                assert(out@ =~= u + ie + output_events_upto(
                    *graph,
                    node_spec,
                    *inp,
                    self.ongoing_drag,
                    cursor,
                    drag_started,
                    released,
                    kk + 1,
                ));
                assert(port_locations.entries@ =~= entries0 + reg_in + registered_outputs_upto(
                    *graph,
                    node_spec,
                    *inp,
                    kk + 1,
                ));
            }
            k += 1;
        }
        proof {
            assert(port_locations.entries@ =~= entries0 + registered_ports(
                *graph,
                node_spec,
                *inp,
            ));
        }
        // body: close affordance, movement, then selection if nothing else
        // fired for this node this frame
        let ghost prior = out@;
        if inp.close_clicked {
            out.push(NodeResponse::DeleteNode(self.node_id));
        }
        *position = position.shifted(inp.drag_delta);
        if !inp.drag_delta.is_zero() {
            out.push(NodeResponse::RaiseNode(self.node_id));
        }
        if out.len() == 0 && inp.body_clicked {
            out.push(NodeResponse::SelectNode(self.node_id));
            out.push(NodeResponse::RaiseNode(self.node_id));
        }
        proof {
            assert(out@ =~= prior + body_events(node_spec.id, *inp, prior));
            assert(out@ =~= node_events(
                *graph,
                node_spec,
                *inp,
                self.ongoing_drag,
                cursor,
                drag_started,
                released,
            ));
        }
        out
    }
}

} // verus!
