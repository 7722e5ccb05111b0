use vstd::prelude::*;

use crate::geom::Pos;
use crate::graph::{Graph, NodeTemplate};
use crate::ids::{AnyParameterId, InputId, NodeId, OutputId};

verus! {

/// Events a node emits while it is drawn and interacted with. The special
/// `User` variant carries an opaque payload a host-defined node body chose to
/// emit.
#[derive(Clone, Copy, PartialEq, Eq, Structural, Debug)]
pub enum NodeResponse {
    ConnectEventStarted(NodeId, AnyParameterId),
    ConnectEventEnded(AnyParameterId),
    SelectNode(NodeId),
    DeleteNode(NodeId),
    DisconnectEvent(InputId),
    /// Emitted when a node is interacted with, and should be raised.
    RaiseNode(NodeId),
    User(u64),
}

/// The full ordered event list of one frame, handed back to the host after
/// the same events have been applied to the editor state.
#[derive(Clone, Debug)]
pub struct GraphResponse {
    pub node_responses: Vec<NodeResponse>,
}

pub open spec fn order_has(s: Seq<NodeId>, n: NodeId) -> bool {
    exists|k: int| 0 <= k < s.len() && s[k] == n
}

pub open spec fn order_index_of(s: Seq<NodeId>, n: NodeId) -> int {
    choose|k: int| 0 <= k < s.len() && s[k] == n
}

pub open spec fn order_distinct(s: Seq<NodeId>) -> bool {
    forall|k1: int, k2: int| 0 <= k1 < k2 < s.len() ==> s[k1] != s[k2]
}

/// The sequence with the first occurrence of `n` removed, if there is one.
pub open spec fn remove_first(s: Seq<NodeId>, n: NodeId) -> Seq<NodeId> {
    if order_has(s, n) {
        s.remove(order_index_of(s, n))
    } else {
        s
    }
}

/// Raising moves `n` to the tail of the draw order and leaves every other
/// id where it was, relatively; an id not present is left alone.
pub open spec fn raised(s: Seq<NodeId>, n: NodeId) -> Seq<NodeId> {
    if order_has(s, n) {
        remove_first(s, n).push(n)
    } else {
        s
    }
}

/// In a duplicate-free sequence a concrete index pins down `order_index_of`.
pub proof fn lemma_order_at(s: Seq<NodeId>, k: int)
    requires
        order_distinct(s),
        0 <= k < s.len(),
    ensures
        order_has(s, s[k]),
        order_index_of(s, s[k]) == k,
{
    assert(order_has(s, s[k]));
    let k2 = order_index_of(s, s[k]);
    if k2 != k {
        if k2 < k {
            assert(s[k2] != s[k]);
        } else {
            assert(s[k] != s[k2]);
        }
    }
}

pub open spec fn pos_has(s: Seq<(NodeId, Pos)>, n: NodeId) -> bool {
    exists|k: int| 0 <= k < s.len() && (#[trigger] s[k]).0 == n
}

pub open spec fn pos_index_of(s: Seq<(NodeId, Pos)>, n: NodeId) -> int {
    choose|k: int| 0 <= k < s.len() && (#[trigger] s[k]).0 == n
}

/// The stored screen position of node `n`, if the map holds one.
pub open spec fn pos_of(s: Seq<(NodeId, Pos)>, n: NodeId) -> Option<Pos> {
    if pos_has(s, n) {
        Some(s[pos_index_of(s, n)].1)
    } else {
        None
    }
}

pub open spec fn pos_keys_distinct(s: Seq<(NodeId, Pos)>) -> bool {
    forall|k1: int, k2: int|
        0 <= k1 < k2 < s.len() ==> (#[trigger] s[k1]).0 != (#[trigger] s[k2]).0
}

/// Under distinct keys a concrete entry pins down `pos_of`.
pub proof fn lemma_pos_at(s: Seq<(NodeId, Pos)>, k: int)
    requires
        pos_keys_distinct(s),
        0 <= k < s.len(),
    ensures
        pos_has(s, s[k].0),
        pos_index_of(s, s[k].0) == k,
        pos_of(s, s[k].0) == Some(s[k].1),
{
    assert(pos_has(s, s[k].0));
    let k2 = pos_index_of(s, s[k].0);
    if k2 != k {
        if k2 < k {
            assert(s[k2].0 != s[k].0);
        } else {
            assert(s[k].0 != s[k2].0);
        }
    }
}

/// Remove the entry of key `n` from a duplicate-free position map; a no-op
/// when the key is absent. Every other entry keeps its value.
fn pos_remove(v: &mut Vec<(NodeId, Pos)>, n: NodeId)
    requires
        pos_keys_distinct(old(v)@),
    ensures
        pos_keys_distinct(final(v)@),
        forall|m: NodeId|
            #![trigger pos_has(final(v)@, m)]
            pos_has(final(v)@, m) == (pos_has(old(v)@, m) && m != n),
        forall|m: NodeId|
            #![trigger pos_of(final(v)@, m)]
            m != n ==> pos_of(final(v)@, m) == pos_of(old(v)@, m),
        pos_of(final(v)@, n) == None::<Pos>,
{
    let ghost s0 = v@;
    let mut k: usize = 0;
    let v_len = v.len();
    while k < v_len
        invariant
            k <= s0.len(),
            v_len == s0.len(),
            v@ == s0,
            s0 == old(v)@,
            pos_keys_distinct(s0),
            forall|j: int| 0 <= j < k ==> (#[trigger] s0[j]).0 != n,
        decreases s0.len() - k,
    {
        if v[k].0 == n {
            proof {
                lemma_pos_at(s0, k as int);
            }
            v.remove(k);
            proof {
                let fin = v@;
                let k = k as int;
                assert forall|j: int| 0 <= j < fin.len() implies (#[trigger] fin[j]) == (if j
                    < k {
                    s0[j]
                } else {
                    s0[j + 1]
                }) && fin[j].0 != n by {
                    let o1 = if j < k {
                        j
                    } else {
                        j + 1
                    };
                    if o1 < k {
                        assert(s0[o1].0 != s0[k].0);
                    } else if o1 > k {
                        assert(s0[k].0 != s0[o1].0);
                    }
                }
                assert(pos_keys_distinct(fin)) by {
                    assert forall|k1: int, k2: int|
                        0 <= k1 < k2 < fin.len() implies (#[trigger] fin[k1]).0 != (
                    #[trigger] fin[k2]).0 by {
                        let o1 = if k1 < k {
                            k1
                        } else {
                            k1 + 1
                        };
                        let o2 = if k2 < k {
                            k2
                        } else {
                            k2 + 1
                        };
                        assert(s0[o1].0 != s0[o2].0);
                    }
                }
                assert forall|m: NodeId| pos_has(fin, m) == (pos_has(s0, m) && m != n) by {
                    if pos_has(s0, m) && m != n {
                        let j0 = pos_index_of(s0, m);
                        assert(j0 != k);
                        let j1 = if j0 < k {
                            j0
                        } else {
                            j0 - 1
                        };
                        assert(fin[j1].0 == m);
                    }
                    if pos_has(fin, m) {
                        let j1 = pos_index_of(fin, m);
                        assert(fin[j1].0 == m && fin[j1].0 != n);
                        let o1 = if j1 < k {
                            j1
                        } else {
                            j1 + 1
                        };
                        assert(s0[o1].0 == m);
                    }
                }
                assert forall|m: NodeId| m != n && pos_has(fin, m) implies pos_of(fin, m)
                    == pos_of(s0, m) by {
                    let j1 = pos_index_of(fin, m);
                    lemma_pos_at(fin, j1);
                    let o1 = if j1 < k {
                        j1
                    } else {
                        j1 + 1
                    };
                    assert(s0[o1] == fin[j1]);
                    lemma_pos_at(s0, o1);
                }
            }
            return ;
        }
        k += 1;
    }
    proof {
        assert(!pos_has(s0, n));
    }
}

/// Overwrite the stored position of key `n` in a duplicate-free position
/// map that holds it. Every other entry keeps its value.
pub(crate) fn pos_update(v: &mut Vec<(NodeId, Pos)>, n: NodeId, p: Pos)
    requires
        pos_keys_distinct(old(v)@),
        pos_has(old(v)@, n),
    ensures
        pos_keys_distinct(final(v)@),
        forall|m: NodeId|
            #![trigger pos_has(final(v)@, m)]
            pos_has(final(v)@, m) == pos_has(old(v)@, m),
        pos_of(final(v)@, n) == Some(p),
        forall|m: NodeId|
            #![trigger pos_of(final(v)@, m)]
            m != n ==> pos_of(final(v)@, m) == pos_of(old(v)@, m),
{
    let ghost s0 = v@;
    let mut k: usize = 0;
    let v_len = v.len();
    while k < v_len
        invariant
            k <= s0.len(),
            v_len == s0.len(),
            v@ == s0,
            s0 == old(v)@,
            pos_keys_distinct(s0),
            pos_has(s0, n),
            forall|j: int| 0 <= j < k ==> (#[trigger] s0[j]).0 != n,
        decreases s0.len() - k,
    {
        if v[k].0 == n {
            proof {
                lemma_pos_at(s0, k as int);
            }
            let e = &mut v[k];
            *e = (n, p);
            proof {
                let fin = v@;
                let k = k as int;
                assert(fin =~= s0.update(k, (n, p)));
                assert forall|j: int| 0 <= j < fin.len() implies (#[trigger] fin[j]) == (if j
                    == k {
                    (n, p)
                } else {
                    s0[j]
                }) by {}
                assert(pos_keys_distinct(fin)) by {
                    assert forall|k1: int, k2: int|
                        0 <= k1 < k2 < fin.len() implies (#[trigger] fin[k1]).0 != (
                    #[trigger] fin[k2]).0 by {
                        assert(s0[k1].0 != s0[k2].0);
                        assert(fin[k1].0 == s0[k1].0 && fin[k2].0 == s0[k2].0);
                    }
                }
                assert forall|m: NodeId| pos_has(fin, m) == pos_has(s0, m) by {
                    if pos_has(s0, m) {
                        let j = pos_index_of(s0, m);
                        assert(fin[j].0 == m);
                    }
                    if pos_has(fin, m) {
                        let j = pos_index_of(fin, m);
                        assert(s0[j].0 == m);
                    }
                }
                lemma_pos_at(fin, k);
                assert forall|m: NodeId| m != n && pos_has(fin, m) implies pos_of(fin, m)
                    == pos_of(s0, m) by {
                    let j = pos_index_of(fin, m);
                    lemma_pos_at(fin, j);
                    assert(j != k);
                    assert(s0[j] == fin[j]);
                    lemma_pos_at(s0, j);
                }
            }
            return ;
        }
        k += 1;
    }
    proof {
        assert(false);
    }
}

/// Remove the first (under no duplicates: the only) occurrence of `n` from
/// the draw order; a no-op when it is absent.
fn order_remove(v: &mut Vec<NodeId>, n: NodeId)
    requires
        order_distinct(old(v)@),
    ensures
        order_distinct(final(v)@),
        final(v)@ == remove_first(old(v)@, n),
        forall|m: NodeId|
            #![trigger order_has(final(v)@, m)]
            order_has(final(v)@, m) == (order_has(old(v)@, m) && m != n),
{
    let ghost s0 = v@;
    let mut k: usize = 0;
    let v_len = v.len();
    while k < v_len
        invariant
            k <= s0.len(),
            v_len == s0.len(),
            v@ == s0,
            s0 == old(v)@,
            order_distinct(s0),
            forall|j: int| 0 <= j < k ==> s0[j] != n,
        decreases s0.len() - k,
    {
        if v[k] == n {
            proof {
                lemma_order_at(s0, k as int);
            }
            v.remove(k);
            proof {
                let fin = v@;
                let k = k as int;
                assert(fin == remove_first(s0, n));
                assert forall|j: int| 0 <= j < fin.len() implies (#[trigger] fin[j]) == (if j
                    < k {
                    s0[j]
                } else {
                    s0[j + 1]
                }) && fin[j] != n by {
                    let o1 = if j < k {
                        j
                    } else {
                        j + 1
                    };
                    if o1 < k {
                        assert(s0[o1] != s0[k]);
                    } else if o1 > k {
                        assert(s0[k] != s0[o1]);
                    }
                }
                assert(order_distinct(fin)) by {
                    assert forall|k1: int, k2: int|
                        0 <= k1 < k2 < fin.len() implies fin[k1] != fin[k2] by {
                        let o1 = if k1 < k {
                            k1
                        } else {
                            k1 + 1
                        };
                        let o2 = if k2 < k {
                            k2
                        } else {
                            k2 + 1
                        };
                        assert(s0[o1] != s0[o2]);
                    }
                }
                assert forall|m: NodeId| order_has(fin, m) == (order_has(s0, m) && m != n) by {
                    if order_has(s0, m) && m != n {
                        let j0 = order_index_of(s0, m);
                        assert(j0 != k);
                        let j1 = if j0 < k {
                            j0
                        } else {
                            j0 - 1
                        };
                        assert(fin[j1] == m);
                    }
                    if order_has(fin, m) {
                        let j1 = order_index_of(fin, m);
                        assert(fin[j1] == m && fin[j1] != n);
                        let o1 = if j1 < k {
                            j1
                        } else {
                            j1 + 1
                        };
                        assert(s0[o1] == m);
                    }
                }
            }
            return ;
        }
        k += 1;
    }
    proof {
        assert(!order_has(s0, n));
    }
}

/// Law: raising the same node twice in a row gives exactly the order that
/// raising it once gives — it ends at the tail and every other id keeps its
/// relative place.
pub proof fn lemma_raise_idempotent(s: Seq<NodeId>, n: NodeId)
    requires
        order_distinct(s),
    ensures
        raised(raised(s, n), n) == raised(s, n),
{
    if order_has(s, n) {
        let k = order_index_of(s, n);
        let r0 = s.remove(k);
        let r1 = r0.push(n);
        assert(raised(s, n) == r1);
        assert forall|j: int| 0 <= j < r0.len() implies r0[j] != n by {
            let o1 = if j < k {
                j
            } else {
                j + 1
            };
            if o1 < k {
                assert(s[o1] != s[k]);
            } else if o1 > k {
                assert(s[k] != s[o1]);
            }
        }
        assert(r1[r1.len() - 1] == n);
        assert(order_has(r1, n));
        let k2 = order_index_of(r1, n);
        assert(r1[k2] == n);
        assert(k2 == r1.len() - 1);
        assert(remove_first(r1, n) =~= r0);
        assert(raised(r1, n) == r0.push(n));
    }
}

/// The (input, output) ends of a wire whose two endpoints have opposite
/// polarity, whichever end the drag started from; `None` when the two ports
/// have the same polarity.
pub open spec fn polarity_pair(a: AnyParameterId, b: AnyParameterId) -> Option<
    (InputId, OutputId),
> {
    match (a, b) {
        (AnyParameterId::Input(i), AnyParameterId::Output(o)) => Some((i, o)),
        (AnyParameterId::Output(o), AnyParameterId::Input(i)) => Some((i, o)),
        _ => None,
    }
}

/// One editing session: the graph store plus the per-session interface
/// state — draw order, node screen positions, selection, the in-progress
/// connection drag, the pan offset and the pending node-finder anchor.
pub struct GraphEditorState {
    pub graph: Graph,
    /// Draw and interaction order of the live nodes, bottom first; always
    /// exactly the set of live node ids.
    pub node_order: Vec<NodeId>,
    /// Pan-independent stored screen position of every live node.
    pub node_positions: Vec<(NodeId, Pos)>,
    pub selected_node: Option<NodeId>,
    /// The origin (node, port) of the connection drag in progress, if any.
    pub connection_in_progress: Option<(NodeId, AnyParameterId)>,
    /// Accumulated pan offset; nodes render at stored position + pan.
    pub pan: Pos,
    /// Anchor of the pending node-creation request, if one is open.
    pub node_finder: Option<Pos>,
}

impl GraphEditorState {
    /// Session-level well-formedness on top of the store's own: the draw
    /// order and the position map are duplicate-free and hold exactly the
    /// live nodes, and selection and drag origin reference live entities,
    /// the drag origin port sitting on its origin node.
    pub open spec fn wf(self) -> bool {
        &&& self.graph.wf()
        &&& order_distinct(self.node_order@)
        &&& forall|n: NodeId|
            #![trigger order_has(self.node_order@, n)]
            order_has(self.node_order@, n) == self.graph.has_node(n)
        &&& pos_keys_distinct(self.node_positions@)
        &&& forall|n: NodeId|
            #![trigger pos_has(self.node_positions@, n)]
            pos_has(self.node_positions@, n) == self.graph.has_node(n)
        &&& match self.selected_node {
            Some(m) => self.graph.has_node(m),
            None => true,
        }
        &&& match self.connection_in_progress {
            Some((m, p)) => self.graph.has_node(m) && self.graph.param_live(p)
                && self.graph.param_node(p) == m,
            None => true,
        }
    }

    /// A fresh session over an empty graph.
    pub fn new() -> (r: GraphEditorState)
        ensures
            r.wf(),
            r.graph.nodes@.len() == 0,
            r.node_order@.len() == 0,
            r.node_positions@.len() == 0,
            r.selected_node == None::<NodeId>,
            r.connection_in_progress == None::<(NodeId, AnyParameterId)>,
            r.pan == (Pos { x: 0, y: 0 }),
            r.node_finder == None::<Pos>,
    {
        GraphEditorState {
            graph: Graph::new(),
            node_order: Vec::new(),
            node_positions: Vec::new(),
            selected_node: None,
            connection_in_progress: None,
            pan: Pos { x: 0, y: 0 },
            node_finder: None,
        }
    }

    /// The stored (pan-independent) position of a node, if it is live.
    pub fn position_of(&self, n: NodeId) -> (r: Option<Pos>)
        requires
            pos_keys_distinct(self.node_positions@),
        ensures
            r == pos_of(self.node_positions@, n),
    {
        let mut k: usize = 0;
        while k < self.node_positions.len()
            invariant
                k <= self.node_positions@.len(),
                pos_keys_distinct(self.node_positions@),
                forall|j: int| 0 <= j < k ==> (#[trigger] self.node_positions@[j]).0 != n,
            decreases self.node_positions@.len() - k,
        {
            if self.node_positions[k].0 == n {
                proof {
                    lemma_pos_at(self.node_positions@, k as int);
                }
                return Some(self.node_positions[k].1);
            }
            k += 1;
        }
        None
    }

    /// Law: after any sequence of operations the draw order, as a set, is
    /// exactly the set of live node ids, with no duplicates and no
    /// omissions. Every operation of the session keeps it so.
    pub proof fn lemma_order_set_consistency(self)
        requires
            self.wf(),
        ensures
            order_distinct(self.node_order@),
            forall|n: NodeId|
                #![trigger order_has(self.node_order@, n)]
                order_has(self.node_order@, n) == self.graph.has_node(n),
    {
    }

    /// Apply one emitted event to the session, in emission order; later
    /// events of the same frame see the effects of earlier ones.
    ///
    /// Starting a drag records the origin and overwrites any drag already in
    /// progress. Ending one commits a connection exactly when the two ends
    /// have opposite polarity, live endpoints, and sit on different nodes —
    /// a self-loop is never stored — overwriting whatever the input end
    /// held. Deleting a node cascades: its parameters, their connections,
    /// its position, its place in the draw order, its selection and any drag
    /// it anchored all go with it. Disconnecting picks the wire up: the
    /// entry leaves the map and the drag origin becomes the output end.
    /// Events referencing dead entities degrade to no-ops rather than
    /// corrupt the session.
    #[verifier::rlimit(100)]
    pub fn apply_response(&mut self, resp: NodeResponse)
        requires
            old(self).wf(),
        ensures
            final(self).wf(),
            match resp {
                NodeResponse::ConnectEventStarted(m, p) => if old(self).graph.param_live(p)
                    && old(self).graph.param_node(p) == m {
                    *final(self) == (GraphEditorState {
                        connection_in_progress: Some((m, p)),
                        ..*old(self)
                    })
                } else {
                    *final(self) == *old(self)
                },
                NodeResponse::ConnectEventEnded(locator) => match old(
                    self,
                ).connection_in_progress {
                    Some((onode, oport)) => match polarity_pair(oport, locator) {
                        Some((i, o)) => {
                            &&& final(self).node_order == old(self).node_order
                            &&& final(self).node_positions == old(self).node_positions
                            &&& final(self).selected_node == old(self).selected_node
                            &&& final(self).connection_in_progress == old(
                                self,
                            ).connection_in_progress
                            &&& final(self).pan == old(self).pan
                            &&& final(self).node_finder == old(self).node_finder
                            &&& final(self).graph.nodes@ == old(self).graph.nodes@
                            &&& final(self).graph.inputs@ == old(self).graph.inputs@
                            &&& final(self).graph.outputs@ == old(self).graph.outputs@
                            &&& final(self).graph.next_id == old(self).graph.next_id
                            &&& if old(self).graph.input_live(i) && old(self).graph.output_live(
                                o,
                            ) && old(self).graph.input_at(i).node != old(self).graph.output_at(
                                o,
                            ).node {
                                &&& final(self).graph.conn_of(i) == Some(o)
                                &&& forall|j: InputId|
                                    j != i ==> final(self).graph.conn_of(j) == old(
                                        self,
                                    ).graph.conn_of(j)
                            } else {
                                &&& final(self).graph.connections@ == old(
                                    self,
                                ).graph.connections@
                                &&& forall|j: InputId|
                                    final(self).graph.conn_of(j) == old(self).graph.conn_of(j)
                            }
                        },
                        None => *final(self) == *old(self),
                    },
                    None => *final(self) == *old(self),
                },
                NodeResponse::SelectNode(m) => if old(self).graph.has_node(m) {
                    *final(self) == (GraphEditorState { selected_node: Some(m), ..*old(self) })
                } else {
                    *final(self) == *old(self)
                },
                NodeResponse::DeleteNode(m) => if old(self).graph.has_node(m) {
                    &&& forall|m2: NodeId|
                        #![trigger final(self).graph.has_node(m2)]
                        final(self).graph.has_node(m2) == (old(self).graph.has_node(m2) && m2
                            != m)
                    &&& forall|i: InputId|
                        #![trigger final(self).graph.input_live(i)]
                        final(self).graph.input_live(i) == (old(self).graph.input_live(i) && old(
                            self,
                        ).graph.input_at(i).node != m)
                    &&& forall|o: OutputId|
                        #![trigger final(self).graph.output_live(o)]
                        final(self).graph.output_live(o) == (old(self).graph.output_live(o)
                            && old(self).graph.output_at(o).node != m)
                    &&& forall|i: InputId|
                        #![trigger final(self).graph.conn_of(i)]
                        final(self).graph.conn_of(i) == (match old(self).graph.conn_of(i) {
                            Some(o) => if old(self).graph.input_at(i).node == m || old(
                                self,
                            ).graph.output_at(o).node == m {
                                None::<OutputId>
                            } else {
                                Some(o)
                            },
                            None => None::<OutputId>,
                        })
                    &&& final(self).node_order@ == remove_first(old(self).node_order@, m)
                    &&& pos_of(final(self).node_positions@, m) == None::<Pos>
                    &&& forall|m2: NodeId|
                        #![trigger pos_of(final(self).node_positions@, m2)]
                        m2 != m ==> pos_of(final(self).node_positions@, m2) == pos_of(
                            old(self).node_positions@,
                            m2,
                        )
                    &&& final(self).selected_node == (if old(self).selected_node == Some(m) {
                        None::<NodeId>
                    } else {
                        old(self).selected_node
                    })
                    &&& final(self).connection_in_progress == (match old(
                        self,
                    ).connection_in_progress {
                        Some((dn, dp)) => if dn == m {
                            None::<(NodeId, AnyParameterId)>
                        } else {
                            Some((dn, dp))
                        },
                        None => None::<(NodeId, AnyParameterId)>,
                    })
                    &&& final(self).pan == old(self).pan
                    &&& final(self).node_finder == old(self).node_finder
                } else {
                    *final(self) == *old(self)
                },
                NodeResponse::DisconnectEvent(i) => match old(self).graph.conn_of(i) {
                    Some(o) => {
                        &&& final(self).graph.nodes@ == old(self).graph.nodes@
                        &&& final(self).graph.inputs@ == old(self).graph.inputs@
                        &&& final(self).graph.outputs@ == old(self).graph.outputs@
                        &&& final(self).graph.next_id == old(self).graph.next_id
                        &&& final(self).graph.conn_of(i) == None::<OutputId>
                        &&& forall|j: InputId|
                            j != i ==> final(self).graph.conn_of(j) == old(self).graph.conn_of(j)
                        &&& final(self).connection_in_progress == Some(
                            (old(self).graph.output_at(o).node, AnyParameterId::Output(o)),
                        )
                        &&& final(self).node_order == old(self).node_order
                        &&& final(self).node_positions == old(self).node_positions
                        &&& final(self).selected_node == old(self).selected_node
                        &&& final(self).pan == old(self).pan
                        &&& final(self).node_finder == old(self).node_finder
                    },
                    None => *final(self) == *old(self),
                },
                NodeResponse::RaiseNode(m) => {
                    &&& final(self).node_order@ == raised(old(self).node_order@, m)
                    &&& final(self).graph == old(self).graph
                    &&& final(self).node_positions == old(self).node_positions
                    &&& final(self).selected_node == old(self).selected_node
                    &&& final(self).connection_in_progress == old(self).connection_in_progress
                    &&& final(self).pan == old(self).pan
                    &&& final(self).node_finder == old(self).node_finder
                },
                NodeResponse::User(_) => *final(self) == *old(self),
            },
    {
        match resp {
            NodeResponse::ConnectEventStarted(m, p) => {
                match self.graph.param_owner(p) {
                    Some(owner) => {
                        if owner == m {
                            proof {
                                self.graph.lemma_param_owner_live(p);
                            }
                            self.connection_in_progress = Some((m, p));
                        }
                    },
                    None => {},
                }
            },
            NodeResponse::ConnectEventEnded(locator) => {
                let pair = match self.connection_in_progress {
                    Some((_onode, oport)) => match (oport, locator) {
                        (AnyParameterId::Input(i), AnyParameterId::Output(o)) => Some((i, o)),
                        (AnyParameterId::Output(o), AnyParameterId::Input(i)) => Some((i, o)),
                        _ => None,
                    },
                    None => None,
                };
                match pair {
                    Some((i, o)) => {
                        let ghost g0 = self.graph;
                        match self.graph.add_connection(o, i) {
                            Ok(()) => {
                                proof {
                                    Graph::lemma_arena_views(g0, self.graph);
                                }
                            },
                            Err(_) => {
                                proof {
                                    Graph::lemma_arena_views(g0, self.graph);
                                    Graph::lemma_conn_views(g0, self.graph);
                                }
                            },
                        }
                    },
                    None => {},
                }
            },
            NodeResponse::SelectNode(m) => {
                match self.graph.node(m) {
                    Some(_) => {
                        self.selected_node = Some(m);
                    },
                    None => {},
                }
            },
            NodeResponse::DeleteNode(m) => {
                let ghost g0 = self.graph;
                match self.graph.remove_node(m) {
                    Err(_) => {},
                    Ok(()) => {
                        pos_remove(&mut self.node_positions, m);
                        match self.selected_node {
                            Some(sm) => if sm == m {
                                self.selected_node = None;
                            },
                            None => {},
                        }
                        order_remove(&mut self.node_order, m);
                        match self.connection_in_progress {
                            Some((dn, dp)) => if dn == m {
                                self.connection_in_progress = None;
                            } else {
                                proof {
                                    assert(g0.param_live(dp) && g0.param_node(dp) == dn);
                                    match dp {
                                        AnyParameterId::Input(ii) => {
                                            assert(self.graph.input_live(ii));
                                        },
                                        AnyParameterId::Output(oo) => {
                                            assert(self.graph.output_live(oo));
                                        },
                                    }
                                }
                            },
                            None => {},
                        }
                    },
                }
            },
            NodeResponse::DisconnectEvent(i) => {
                match self.graph.connection(i) {
                    Some(o) => {
                        proof {
                            let k = self.graph.conn_index(i);
                            assert(self.graph.connections@[k].1 == o);
                            assert(self.graph.output_live(o));
                        }
                        let ghost g0 = self.graph;
                        match self.graph.remove_connection(i) {
                            Some(_) => {},
                            None => {
                                vstd::pervasive::unreached::<()>();
                            },
                        }
                        proof {
                            Graph::lemma_arena_views(g0, self.graph);
                        }
                        let owner = match self.graph.get_output(o) {
                            Some(q) => q.node,
                            None => vstd::pervasive::unreached(),
                        };
                        proof {
                            self.graph.lemma_param_owner_live(AnyParameterId::Output(o));
                        }
                        self.connection_in_progress = Some((owner, AnyParameterId::Output(o)));
                    },
                    None => {},
                }
            },
            NodeResponse::RaiseNode(m) => {
                self.raise_node(m);
            },
            NodeResponse::User(_) => {},
        }
    }

    /// Confirm a choice in the open node finder: build the node and all its
    /// parameters from the template as one unit, place it at the cursor
    /// corrected by the current pan offset, append it to the draw order and
    /// close the finder. With no finder open this is a no-op: there is
    /// nothing to confirm.
    #[verifier::rlimit(80)]
    pub fn confirm_node_finder(&mut self, template: &NodeTemplate, cursor: Pos) -> (r: Option<
        NodeId,
    >)
        requires
            old(self).wf(),
            old(self).graph.next_id + 1 + template.inputs@.len() + template.outputs@.len()
                <= u64::MAX,
        ensures
            final(self).wf(),
            final(self).pan == old(self).pan,
            final(self).selected_node == old(self).selected_node,
            final(self).connection_in_progress == old(self).connection_in_progress,
            match old(self).node_finder {
                None => r == None::<NodeId> && *final(self) == *old(self),
                Some(_) => {
                    let id = (NodeId { 0: old(self).graph.next_id });
                    &&& r == Some(id)
                    &&& final(self).node_finder == None::<Pos>
                    &&& !old(self).graph.has_node(id)
                    &&& final(self).graph.has_node(id)
                    &&& forall|m: NodeId|
                        #![trigger final(self).graph.has_node(m)]
                        m != id ==> final(self).graph.has_node(m) == old(self).graph.has_node(m)
                    &&& final(self).graph.connections@ == old(self).graph.connections@
                    &&& forall|i: InputId|
                        #![trigger final(self).graph.conn_of(i)]
                        final(self).graph.conn_of(i) == old(self).graph.conn_of(i)
                    &&& final(self).node_order@ == old(self).node_order@.push(id)
                    &&& pos_of(final(self).node_positions@, id) == Some(
                        cursor.shifted_back_spec(old(self).pan),
                    )
                    &&& forall|m: NodeId|
                        #![trigger pos_of(final(self).node_positions@, m)]
                        m != id ==> pos_of(final(self).node_positions@, m) == pos_of(
                            old(self).node_positions@,
                            m,
                        )
                    &&& final(self).graph.node_at(id).label == template.label
                    &&& final(self).graph.node_at(id).user_data == template.user_data
                    &&& final(self).graph.node_at(id).inputs@.len() == template.inputs@.len()
                    &&& final(self).graph.node_at(id).outputs@.len() == template.outputs@.len()
                },
            },
    {
        match self.node_finder {
            None => None,
            Some(_) => {
                let ghost pre = *self;
                let id = self.graph.add_node(template);
                let p = cursor.shifted_back(self.pan);
                self.node_positions.push((id, p));
                self.node_order.push(id);
                self.node_finder = None;
                proof {
                    let fin = *self;
                    let s0 = pre.node_order@;
                    let s1 = fin.node_order@;
                    let last = s1.len() - 1;
                    assert(s1[last] == id);
                    assert(order_distinct(s1)) by {
                        assert forall|k1: int, k2: int|
                            0 <= k1 < k2 < s1.len() implies s1[k1] != s1[k2] by {
                            if k2 == last {
                                if s1[k1] == id {
                                    assert(order_has(s0, id));
                                }
                            }
                        }
                    }
                    assert forall|m: NodeId| order_has(s1, m) == fin.graph.has_node(m) by {
                        if m == id {
                            assert(s1[last] == m);
                        } else {
                            if order_has(s0, m) {
                                let j = order_index_of(s0, m);
                                assert(s1[j] == m);
                            }
                            if order_has(s1, m) {
                                let j = order_index_of(s1, m);
                                assert(s1[j] == m);
                                assert(j != last);
                                assert(s0[j] == m);
                            }
                        }
                    }
                    let p0 = pre.node_positions@;
                    let p1 = fin.node_positions@;
                    let plast = p1.len() - 1;
                    assert(p1[plast] == (id, p));
                    assert(pos_keys_distinct(p1)) by {
                        assert forall|k1: int, k2: int|
                            0 <= k1 < k2 < p1.len() implies (#[trigger] p1[k1]).0 != (
                        #[trigger] p1[k2]).0 by {
                            if k2 == plast {
                                if p1[k1].0 == id {
                                    assert(pos_has(p0, id));
                                }
                            }
                        }
                    }
                    assert forall|m: NodeId| pos_has(p1, m) == fin.graph.has_node(m) by {
                        if m == id {
                            assert(p1[plast].0 == m);
                        } else {
                            if pos_has(p0, m) {
                                let j = pos_index_of(p0, m);
                                assert(p1[j].0 == m);
                            }
                            if pos_has(p1, m) {
                                let j = pos_index_of(p1, m);
                                assert(p1[j].0 == m);
                                assert(j != plast);
                                assert(p0[j].0 == m);
                            }
                        }
                    }
                    lemma_pos_at(p1, plast);
                    assert forall|m: NodeId| m != id && pos_has(p1, m) implies pos_of(p1, m)
                        == pos_of(p0, m) by {
                        let j = pos_index_of(p1, m);
                        lemma_pos_at(p1, j);
                        assert(j != plast);
                        assert(p0[j] == p1[j]);
                        lemma_pos_at(p0, j);
                    }
                    match fin.connection_in_progress {
                        Some((dn, dp)) => {
                            assert(pre.graph.param_live(dp) && pre.graph.param_node(dp) == dn);
                            match dp {
                                AnyParameterId::Input(ii) => {
                                    assert(fin.graph.input_live(ii) && fin.graph.input_at(ii)
                                        == pre.graph.input_at(ii));
                                },
                                AnyParameterId::Output(oo) => {
                                    assert(fin.graph.output_live(oo) && fin.graph.output_at(oo)
                                        == pre.graph.output_at(oo));
                                },
                            }
                        },
                        None => {},
                    }
                }
                Some(id)
            },
        }
    }

    /// Raise a node to the tail of the draw order (top of the z-order); the
    /// rest of the order and all other session state are untouched. An id
    /// not in the order is left alone.
    pub fn raise_node(&mut self, n: NodeId)
        requires
            old(self).wf(),
        ensures
            final(self).wf(),
            final(self).node_order@ == raised(old(self).node_order@, n),
            final(self).graph == old(self).graph,
            final(self).node_positions == old(self).node_positions,
            final(self).selected_node == old(self).selected_node,
            final(self).connection_in_progress == old(self).connection_in_progress,
            final(self).pan == old(self).pan,
            final(self).node_finder == old(self).node_finder,
    {
        let ghost s0 = self.node_order@;
        let mut k: usize = 0;
        let n_len = self.node_order.len();
        while k < n_len
            invariant
                k <= s0.len(),
                n_len == s0.len(),
                *self == *old(self),
                self.node_order@ == s0,
                old(self).wf(),
                forall|j: int| 0 <= j < k ==> s0[j] != n,
            decreases s0.len() - k,
        {
            if self.node_order[k] == n {
                proof {
                    lemma_order_at(s0, k as int);
                }
                self.node_order.remove(k);
                self.node_order.push(n);
                proof {
                    let fin = self.node_order@;
                    let k = k as int;
                    assert(fin == s0.remove(k).push(n));
                    assert(fin == raised(s0, n));
                    let last = fin.len() - 1;
                    assert forall|j: int| 0 <= j < last implies (fin[j] == (if j < k {
                        s0[j]
                    } else {
                        s0[j + 1]
                    }) && fin[j] != n) by {
                        let o1 = if j < k {
                            j
                        } else {
                            j + 1
                        };
                        if o1 < k {
                            assert(s0[o1] != s0[k]);
                        } else if o1 > k {
                            assert(s0[k] != s0[o1]);
                        }
                    }
                    assert(order_distinct(fin)) by {
                        assert forall|k1: int, k2: int|
                            0 <= k1 < k2 < fin.len() implies fin[k1] != fin[k2] by {
                            if k2 < last {
                                let o1 = if k1 < k {
                                    k1
                                } else {
                                    k1 + 1
                                };
                                let o2 = if k2 < k {
                                    k2
                                } else {
                                    k2 + 1
                                };
                                assert(s0[o1] != s0[o2]);
                            }
                        }
                    }
                    assert forall|m: NodeId| order_has(fin, m) == order_has(s0, m) by {
                        if m == n {
                            assert(fin[last] == n);
                            assert(s0[k] == n);
                        } else {
                            if order_has(s0, m) {
                                let j0 = order_index_of(s0, m);
                                assert(j0 != k);
                                let j1 = if j0 < k {
                                    j0
                                } else {
                                    j0 - 1
                                };
                                assert(fin[j1] == m);
                            }
                            if order_has(fin, m) {
                                let j1 = order_index_of(fin, m);
                                assert(j1 < last);
                                let o1 = if j1 < k {
                                    j1
                                } else {
                                    j1 + 1
                                };
                                assert(s0[o1] == m);
                            }
                        }
                    }
                }
                return ;
            }
            k += 1;
        }
        proof {
            assert(!order_has(s0, n));
        }
    }
}

} // verus!
