use vstd::prelude::*;

use crate::ids::{AnyParameterId, DataType, InputId, InputParamKind, NodeId, OutputId};

verus! {

/// An input parameter slot, owned by exactly one node.
#[derive(Clone, Copy, Debug)]
pub struct InputParam {
    pub id: InputId,
    pub node: NodeId,
    pub typ: DataType,
    pub kind: InputParamKind,
    /// Opaque constant payload shown inline while the input is unconnected.
    pub value: u64,
    pub shown_inline: bool,
}

/// An output parameter slot, owned by exactly one node. An output may fan out
/// to any number of inputs.
#[derive(Clone, Copy, Debug)]
pub struct OutputParam {
    pub id: OutputId,
    pub node: NodeId,
    pub typ: DataType,
}

/// A node instance: a label, the ordered lists of its named ports, and an
/// opaque host payload.
#[derive(Clone, Debug)]
pub struct Node {
    pub id: NodeId,
    pub label: String,
    pub inputs: Vec<(String, InputId)>,
    pub outputs: Vec<(String, OutputId)>,
    pub user_data: u64,
}

/// Why a graph mutation was refused. The graph is left untouched in every
/// such case.
#[derive(Clone, Copy, PartialEq, Eq, Structural, Debug)]
pub enum GraphError {
    /// A referenced node or parameter is not (or no longer) live.
    NotFound,
    /// The two ports of a requested connection belong to the same node.
    SelfLoop,
}

/// Description of one input slot a node template attaches at creation time.
#[derive(Clone, Debug)]
pub struct InputTemplate {
    pub name: String,
    pub typ: DataType,
    pub kind: InputParamKind,
    pub value: u64,
    pub shown_inline: bool,
}

/// Description of one output slot a node template attaches at creation time.
#[derive(Clone, Debug)]
pub struct OutputTemplate {
    pub name: String,
    pub typ: DataType,
}

/// A node template: everything needed to build a node and all its parameters
/// as one atomic unit.
#[derive(Clone, Debug)]
pub struct NodeTemplate {
    pub label: String,
    pub user_data: u64,
    pub inputs: Vec<InputTemplate>,
    pub outputs: Vec<OutputTemplate>,
}

/// The graph store: an arena of nodes and parameters plus the single-valued
/// connection map from input to output.
pub struct Graph {
    pub nodes: Vec<Node>,
    pub inputs: Vec<InputParam>,
    pub outputs: Vec<OutputParam>,
    /// At most one entry per input; inserting again overwrites.
    pub connections: Vec<(InputId, OutputId)>,
    /// Next raw id to hand out; strictly above every id in the arena, so ids
    /// are never reused.
    pub next_id: u64,
}

impl Graph {
    pub open spec fn has_node(self, n: NodeId) -> bool {
        exists|k: int| 0 <= k < self.nodes@.len() && (#[trigger] self.nodes@[k]).id == n
    }

    pub open spec fn node_index(self, n: NodeId) -> int {
        choose|k: int| 0 <= k < self.nodes@.len() && (#[trigger] self.nodes@[k]).id == n
    }

    /// The node owning id `n`; meaningful only when `has_node(n)`.
    pub open spec fn node_at(self, n: NodeId) -> Node {
        self.nodes@[self.node_index(n)]
    }

    pub open spec fn input_live(self, i: InputId) -> bool {
        exists|k: int| 0 <= k < self.inputs@.len() && (#[trigger] self.inputs@[k]).id == i
    }

    pub open spec fn input_index(self, i: InputId) -> int {
        choose|k: int| 0 <= k < self.inputs@.len() && (#[trigger] self.inputs@[k]).id == i
    }

    /// The input parameter with id `i`; meaningful only when `input_live(i)`.
    pub open spec fn input_at(self, i: InputId) -> InputParam {
        self.inputs@[self.input_index(i)]
    }

    pub open spec fn output_live(self, o: OutputId) -> bool {
        exists|k: int| 0 <= k < self.outputs@.len() && (#[trigger] self.outputs@[k]).id == o
    }

    pub open spec fn output_index(self, o: OutputId) -> int {
        choose|k: int| 0 <= k < self.outputs@.len() && (#[trigger] self.outputs@[k]).id == o
    }

    /// The output parameter with id `o`; meaningful only when `output_live(o)`.
    pub open spec fn output_at(self, o: OutputId) -> OutputParam {
        self.outputs@[self.output_index(o)]
    }

    pub open spec fn has_conn(self, i: InputId) -> bool {
        exists|k: int| 0 <= k < self.connections@.len() && (#[trigger] self.connections@[k]).0
            == i
    }

    pub open spec fn conn_index(self, i: InputId) -> int {
        choose|k: int| 0 <= k < self.connections@.len() && (#[trigger] self.connections@[k]).0
            == i
    }

    /// The output currently connected to input `i`, if any. The connection
    /// map is single-valued, so under `wf` this is the whole story.
    pub open spec fn conn_of(self, i: InputId) -> Option<OutputId> {
        if self.has_conn(i) {
            Some(self.connections@[self.conn_index(i)].1)
        } else {
            None
        }
    }

    /// The data type of a port of either polarity, if the port is live.
    pub open spec fn param_type(self, p: AnyParameterId) -> Option<DataType> {
        match p {
            AnyParameterId::Input(i) => if self.input_live(i) {
                Some(self.input_at(i).typ)
            } else {
                None
            },
            AnyParameterId::Output(o) => if self.output_live(o) {
                Some(self.output_at(o).typ)
            } else {
                None
            },
        }
    }

    /// Whether a port of either polarity is live.
    pub open spec fn param_live(self, p: AnyParameterId) -> bool {
        match p {
            AnyParameterId::Input(i) => self.input_live(i),
            AnyParameterId::Output(o) => self.output_live(o),
        }
    }

    /// The node owning a port of either polarity; meaningful only when live.
    pub open spec fn param_node(self, p: AnyParameterId) -> NodeId {
        match p {
            AnyParameterId::Input(i) => self.input_at(i).node,
            AnyParameterId::Output(o) => self.output_at(o).node,
        }
    }

    /// Well-formedness of the store, maintained by every operation:
    /// distinct ids everywhere, parameters owned by live nodes, node port
    /// lists pointing at live parameters of that node, a single-valued
    /// connection map over live endpoints, no stored self-loop, and every id
    /// strictly below the allocation counter.
    pub open spec fn wf(self) -> bool {
        &&& forall|k1: int, k2: int|
            0 <= k1 < k2 < self.nodes@.len() ==> (#[trigger] self.nodes@[k1]).id != (
            #[trigger] self.nodes@[k2]).id
        &&& forall|k1: int, k2: int|
            0 <= k1 < k2 < self.inputs@.len() ==> (#[trigger] self.inputs@[k1]).id != (
            #[trigger] self.inputs@[k2]).id
        &&& forall|k1: int, k2: int|
            0 <= k1 < k2 < self.outputs@.len() ==> (#[trigger] self.outputs@[k1]).id != (
            #[trigger] self.outputs@[k2]).id
        &&& forall|k: int|
            0 <= k < self.inputs@.len() ==> self.has_node((#[trigger] self.inputs@[k]).node)
        &&& forall|k: int|
            0 <= k < self.outputs@.len() ==> self.has_node((#[trigger] self.outputs@[k]).node)
        &&& forall|k: int, j: int|
            0 <= k < self.nodes@.len() && 0 <= j < self.nodes@[k].inputs@.len() ==> {
                let i = (#[trigger] self.nodes@[k].inputs@[j]).1;
                &&& self.input_live(i)
                &&& self.input_at(i).node == self.nodes@[k].id
            }
        &&& forall|k: int, j: int|
            0 <= k < self.nodes@.len() && 0 <= j < self.nodes@[k].outputs@.len() ==> {
                let o = (#[trigger] self.nodes@[k].outputs@[j]).1;
                &&& self.output_live(o)
                &&& self.output_at(o).node == self.nodes@[k].id
            }
        &&& forall|k1: int, k2: int|
            0 <= k1 < k2 < self.connections@.len() ==> (#[trigger] self.connections@[k1]).0 != (
            #[trigger] self.connections@[k2]).0
        &&& forall|k: int|
            0 <= k < self.connections@.len() ==> {
                let (i, o) = #[trigger] self.connections@[k];
                &&& self.input_live(i)
                &&& self.output_live(o)
                &&& self.input_at(i).node != self.output_at(o).node
            }
        &&& forall|k: int|
            0 <= k < self.nodes@.len() ==> (#[trigger] self.nodes@[k]).id.0 < self.next_id
        &&& forall|k: int|
            0 <= k < self.inputs@.len() ==> (#[trigger] self.inputs@[k]).id.0 < self.next_id
        &&& forall|k: int|
            0 <= k < self.outputs@.len() ==> (#[trigger] self.outputs@[k]).id.0 < self.next_id
    }

    /// An empty graph store.
    pub fn new() -> (r: Graph)
        ensures
            r.wf(),
            r.nodes@.len() == 0,
            r.inputs@.len() == 0,
            r.outputs@.len() == 0,
            r.connections@.len() == 0,
            forall|n: NodeId| !r.has_node(n),
            forall|i: InputId| !r.input_live(i),
            forall|o: OutputId| !r.output_live(o),
            forall|i: InputId| r.conn_of(i) == None::<OutputId>,
    {
        Graph {
            nodes: Vec::new(),
            inputs: Vec::new(),
            outputs: Vec::new(),
            connections: Vec::new(),
            next_id: 0,
        }
    }

    /// Distinctness of ids, entry by entry; these three are the parts of `wf`
    /// that make the lookup functions well defined.
    pub open spec fn nodes_distinct(self) -> bool {
        forall|k1: int, k2: int|
            0 <= k1 < k2 < self.nodes@.len() ==> (#[trigger] self.nodes@[k1]).id != (
            #[trigger] self.nodes@[k2]).id
    }

    pub open spec fn params_distinct(self) -> bool {
        &&& forall|k1: int, k2: int|
            0 <= k1 < k2 < self.inputs@.len() ==> (#[trigger] self.inputs@[k1]).id != (
            #[trigger] self.inputs@[k2]).id
        &&& forall|k1: int, k2: int|
            0 <= k1 < k2 < self.outputs@.len() ==> (#[trigger] self.outputs@[k1]).id != (
            #[trigger] self.outputs@[k2]).id
    }

    pub open spec fn conn_keys_distinct(self) -> bool {
        forall|k1: int, k2: int|
            0 <= k1 < k2 < self.connections@.len() ==> (#[trigger] self.connections@[k1]).0 != (
            #[trigger] self.connections@[k2]).0
    }

    /// Under distinct node ids, a concrete index pins down `node_at`.
    pub proof fn lemma_node_at(self, k: int)
        requires
            self.nodes_distinct(),
            0 <= k < self.nodes@.len(),
        ensures
            self.has_node(self.nodes@[k].id),
            self.node_index(self.nodes@[k].id) == k,
            self.node_at(self.nodes@[k].id) == self.nodes@[k],
    {
        let n = self.nodes@[k].id;
        assert(self.has_node(n));
        let k2 = self.node_index(n);
        if k2 != k {
            if k2 < k {
                assert(self.nodes@[k2].id != self.nodes@[k].id);
            } else {
                assert(self.nodes@[k].id != self.nodes@[k2].id);
            }
        }
    }

    /// Under distinct input ids, a concrete index pins down `input_at`.
    pub proof fn lemma_input_at(self, k: int)
        requires
            self.params_distinct(),
            0 <= k < self.inputs@.len(),
        ensures
            self.input_live(self.inputs@[k].id),
            self.input_index(self.inputs@[k].id) == k,
            self.input_at(self.inputs@[k].id) == self.inputs@[k],
    {
        let i = self.inputs@[k].id;
        assert(self.input_live(i));
        let k2 = self.input_index(i);
        if k2 != k {
            if k2 < k {
                assert(self.inputs@[k2].id != self.inputs@[k].id);
            } else {
                assert(self.inputs@[k].id != self.inputs@[k2].id);
            }
        }
    }

    /// Under distinct output ids, a concrete index pins down `output_at`.
    pub proof fn lemma_output_at(self, k: int)
        requires
            self.params_distinct(),
            0 <= k < self.outputs@.len(),
        ensures
            self.output_live(self.outputs@[k].id),
            self.output_index(self.outputs@[k].id) == k,
            self.output_at(self.outputs@[k].id) == self.outputs@[k],
    {
        let o = self.outputs@[k].id;
        assert(self.output_live(o));
        let k2 = self.output_index(o);
        if k2 != k {
            if k2 < k {
                assert(self.outputs@[k2].id != self.outputs@[k].id);
            } else {
                assert(self.outputs@[k].id != self.outputs@[k2].id);
            }
        }
    }

    /// Under a single-valued connection map, a concrete entry pins down
    /// `conn_of`.
    pub proof fn lemma_conn_at(self, k: int)
        requires
            self.conn_keys_distinct(),
            0 <= k < self.connections@.len(),
        ensures
            self.has_conn(self.connections@[k].0),
            self.conn_index(self.connections@[k].0) == k,
            self.conn_of(self.connections@[k].0) == Some(self.connections@[k].1),
    {
        let i = self.connections@[k].0;
        assert(self.has_conn(i));
        let k2 = self.conn_index(i);
        if k2 != k {
            if k2 < k {
                assert(self.connections@[k2].0 != self.connections@[k].0);
            } else {
                assert(self.connections@[k].0 != self.connections@[k2].0);
            }
        }
    }

    /// Index of the node owning id `n` in the arena, if it is live.
    fn find_node(&self, n: NodeId) -> (r: Option<usize>)
        ensures
            match r {
                Some(k) => k < self.nodes@.len() && self.nodes@[k as int].id == n
                    && self.has_node(n),
                None => !self.has_node(n),
            },
    {
        let mut k: usize = 0;
        while k < self.nodes.len()
            invariant
                k <= self.nodes@.len(),
                forall|j: int| 0 <= j < k ==> (#[trigger] self.nodes@[j]).id != n,
            decreases self.nodes@.len() - k,
        {
            if self.nodes[k].id == n {
                return Some(k);
            }
            k += 1;
        }
        None
    }

    fn find_input(&self, i: InputId) -> (r: Option<usize>)
        ensures
            match r {
                Some(k) => k < self.inputs@.len() && self.inputs@[k as int].id == i
                    && self.input_live(i),
                None => !self.input_live(i),
            },
    {
        let mut k: usize = 0;
        while k < self.inputs.len()
            invariant
                k <= self.inputs@.len(),
                forall|j: int| 0 <= j < k ==> (#[trigger] self.inputs@[j]).id != i,
            decreases self.inputs@.len() - k,
        {
            if self.inputs[k].id == i {
                return Some(k);
            }
            k += 1;
        }
        None
    }

    fn find_output(&self, o: OutputId) -> (r: Option<usize>)
        ensures
            match r {
                Some(k) => k < self.outputs@.len() && self.outputs@[k as int].id == o
                    && self.output_live(o),
                None => !self.output_live(o),
            },
    {
        let mut k: usize = 0;
        while k < self.outputs.len()
            invariant
                k <= self.outputs@.len(),
                forall|j: int| 0 <= j < k ==> (#[trigger] self.outputs@[j]).id != o,
            decreases self.outputs@.len() - k,
        {
            if self.outputs[k].id == o {
                return Some(k);
            }
            k += 1;
        }
        None
    }

    fn find_conn(&self, i: InputId) -> (r: Option<usize>)
        ensures
            match r {
                Some(k) => k < self.connections@.len() && self.connections@[k as int].0 == i
                    && self.has_conn(i),
                None => !self.has_conn(i),
            },
    {
        let mut k: usize = 0;
        while k < self.connections.len()
            invariant
                k <= self.connections@.len(),
                forall|j: int| 0 <= j < k ==> (#[trigger] self.connections@[j]).0 != i,
            decreases self.connections@.len() - k,
        {
            if self.connections[k].0 == i {
                return Some(k);
            }
            k += 1;
        }
        None
    }

    /// Borrow the node owning id `n`, if it is live.
    pub fn node(&self, n: NodeId) -> (r: Option<&Node>)
        requires
            self.wf(),
        ensures
            match r {
                Some(nd) => self.has_node(n) && *nd == self.node_at(n),
                None => !self.has_node(n),
            },
    {
        match self.find_node(n) {
            Some(k) => {
                proof {
                    self.lemma_node_at(k as int);
                }
                Some(&self.nodes[k])
            },
            None => None,
        }
    }

    /// Borrow the input parameter with id `i`, if it is live.
    pub fn get_input(&self, i: InputId) -> (r: Option<&InputParam>)
        requires
            self.wf(),
        ensures
            match r {
                Some(p) => self.input_live(i) && *p == self.input_at(i),
                None => !self.input_live(i),
            },
    {
        match self.find_input(i) {
            Some(k) => {
                proof {
                    self.lemma_input_at(k as int);
                }
                Some(&self.inputs[k])
            },
            None => None,
        }
    }

    /// Borrow the output parameter with id `o`, if it is live.
    pub fn get_output(&self, o: OutputId) -> (r: Option<&OutputParam>)
        requires
            self.wf(),
        ensures
            match r {
                Some(p) => self.output_live(o) && *p == self.output_at(o),
                None => !self.output_live(o),
            },
    {
        match self.find_output(o) {
            Some(k) => {
                proof {
                    self.lemma_output_at(k as int);
                }
                Some(&self.outputs[k])
            },
            None => None,
        }
    }

    /// The data type of a port of either polarity, if it is live.
    pub fn any_param_type(&self, p: AnyParameterId) -> (r: Option<DataType>)
        requires
            self.wf(),
        ensures
            r == self.param_type(p),
    {
        match p {
            AnyParameterId::Input(i) => match self.get_input(i) {
                Some(param) => Some(param.typ),
                None => None,
            },
            AnyParameterId::Output(o) => match self.get_output(o) {
                Some(param) => Some(param.typ),
                None => None,
            },
        }
    }

    /// The node owning a port of either polarity, if the port is live.
    pub fn param_owner(&self, p: AnyParameterId) -> (r: Option<NodeId>)
        requires
            self.wf(),
        ensures
            r == if self.param_live(p) {
                Some(self.param_node(p))
            } else {
                None::<NodeId>
            },
    {
        match p {
            AnyParameterId::Input(i) => match self.get_input(i) {
                Some(q) => Some(q.node),
                None => None,
            },
            AnyParameterId::Output(o) => match self.get_output(o) {
                Some(q) => Some(q.node),
                None => None,
            },
        }
    }

    /// The owner of a live port is itself a live node.
    pub proof fn lemma_param_owner_live(self, p: AnyParameterId)
        requires
            self.wf(),
            self.param_live(p),
        ensures
            self.has_node(self.param_node(p)),
    {
        match p {
            AnyParameterId::Input(i) => {
                let k = self.input_index(i);
                assert(self.has_node(self.inputs@[k].node));
            },
            AnyParameterId::Output(o) => {
                let k = self.output_index(o);
                assert(self.has_node(self.outputs@[k].node));
            },
        }
    }

    /// The output currently connected to input `i`, if any.
    pub fn connection(&self, i: InputId) -> (r: Option<OutputId>)
        requires
            self.wf(),
        ensures
            r == self.conn_of(i),
    {
        match self.find_conn(i) {
            Some(k) => {
                proof {
                    self.lemma_conn_at(k as int);
                }
                Some(self.connections[k].1)
            },
            None => None,
        }
    }

    /// Under a single-valued connection map, a contained pair pins down
    /// `conn_of`.
    pub proof fn lemma_conn_of_contains(self, j: InputId, o: OutputId)
        requires
            self.conn_keys_distinct(),
            self.connections@.contains((j, o)),
        ensures
            self.conn_of(j) == Some(o),
    {
        let k = choose|k: int|
            0 <= k < self.connections@.len() && self.connections@[k] == (j, o);
        self.lemma_conn_at(k);
    }

    /// Two stores with the same arenas agree on every node and parameter
    /// lookup, whatever their connection maps hold.
    pub proof fn lemma_arena_views(a: Graph, b: Graph)
        requires
            a.nodes@ == b.nodes@,
            a.inputs@ == b.inputs@,
            a.outputs@ == b.outputs@,
            a.nodes_distinct(),
            a.params_distinct(),
        ensures
            forall|n: NodeId|
                #![trigger a.has_node(n)]
                #![trigger b.has_node(n)]
                a.has_node(n) == b.has_node(n),
            forall|n: NodeId|
                #![trigger a.node_at(n)]
                #![trigger b.node_at(n)]
                a.has_node(n) ==> a.node_at(n) == b.node_at(n),
            forall|i: InputId|
                #![trigger a.input_live(i)]
                #![trigger b.input_live(i)]
                a.input_live(i) == b.input_live(i),
            forall|i: InputId|
                #![trigger a.input_at(i)]
                #![trigger b.input_at(i)]
                a.input_live(i) ==> a.input_at(i) == b.input_at(i),
            forall|o: OutputId|
                #![trigger a.output_live(o)]
                #![trigger b.output_live(o)]
                a.output_live(o) == b.output_live(o),
            forall|o: OutputId|
                #![trigger a.output_at(o)]
                #![trigger b.output_at(o)]
                a.output_live(o) ==> a.output_at(o) == b.output_at(o),
    {
        assert forall|n: NodeId| a.has_node(n) == b.has_node(n) by {
            if a.has_node(n) {
                let k = a.node_index(n);
                assert(b.nodes@[k].id == n);
                assert(b.has_node(n));
            }
            if b.has_node(n) {
                let k = b.node_index(n);
                assert(a.nodes@[k].id == n);
                assert(a.has_node(n));
            }
        }
        assert forall|n: NodeId| a.has_node(n) implies a.node_at(n) == b.node_at(n) by {
            let k1 = a.node_index(n);
            let k2 = b.node_index(n);
            if k1 < k2 {
                assert(a.nodes@[k1].id != a.nodes@[k2].id);
            } else if k2 < k1 {
                assert(a.nodes@[k2].id != a.nodes@[k1].id);
            }
        }
        assert forall|i: InputId| a.input_live(i) == b.input_live(i) by {
            if a.input_live(i) {
                let k = a.input_index(i);
                assert(b.inputs@[k].id == i);
                assert(b.input_live(i));
            }
            if b.input_live(i) {
                let k = b.input_index(i);
                assert(a.inputs@[k].id == i);
                assert(a.input_live(i));
            }
        }
        assert forall|i: InputId| a.input_live(i) implies a.input_at(i) == b.input_at(i) by {
            let k1 = a.input_index(i);
            let k2 = b.input_index(i);
            if k1 < k2 {
                assert(a.inputs@[k1].id != a.inputs@[k2].id);
            } else if k2 < k1 {
                assert(a.inputs@[k2].id != a.inputs@[k1].id);
            }
        }
        assert forall|o: OutputId| a.output_live(o) == b.output_live(o) by {
            if a.output_live(o) {
                let k = a.output_index(o);
                assert(b.outputs@[k].id == o);
                assert(b.output_live(o));
            }
            if b.output_live(o) {
                let k = b.output_index(o);
                assert(a.outputs@[k].id == o);
                assert(a.output_live(o));
            }
        }
        assert forall|o: OutputId| a.output_live(o) implies a.output_at(o) == b.output_at(o) by {
            let k1 = a.output_index(o);
            let k2 = b.output_index(o);
            if k1 < k2 {
                assert(a.outputs@[k1].id != a.outputs@[k2].id);
            } else if k2 < k1 {
                assert(a.outputs@[k2].id != a.outputs@[k1].id);
            }
        }
    }

    /// Two stores with the same connection entries agree on every connection
    /// lookup, whatever their arenas hold.
    pub proof fn lemma_conn_views(a: Graph, b: Graph)
        requires
            a.connections@ == b.connections@,
            a.conn_keys_distinct(),
        ensures
            forall|i: InputId|
                #![trigger a.conn_of(i)]
                #![trigger b.conn_of(i)]
                a.conn_of(i) == b.conn_of(i),
    {
        assert forall|i: InputId| a.conn_of(i) == b.conn_of(i) by {
            if a.has_conn(i) {
                let k = a.conn_index(i);
                assert(b.connections@[k].0 == i);
                assert(b.has_conn(i));
            }
            if b.has_conn(i) {
                let k = b.conn_index(i);
                assert(a.connections@[k].0 == i);
                assert(a.has_conn(i));
            }
            if a.has_conn(i) {
                let k1 = a.conn_index(i);
                let k2 = b.conn_index(i);
                if k1 < k2 {
                    assert(a.connections@[k1].0 != a.connections@[k2].0);
                } else if k2 < k1 {
                    assert(a.connections@[k2].0 != a.connections@[k1].0);
                }
            }
        }
    }

    /// Connect `output` to `input`, overwriting any connection the input
    /// already had. Refused, leaving the store untouched, when an endpoint is
    /// dead or both ports sit on the same node; no other entry is affected.
    #[verifier::rlimit(80)]
    pub fn add_connection(&mut self, output: OutputId, input: InputId) -> (r: Result<
        (),
        GraphError,
    >)
        requires
            old(self).wf(),
        ensures
            final(self).wf(),
            final(self).nodes@ == old(self).nodes@,
            final(self).inputs@ == old(self).inputs@,
            final(self).outputs@ == old(self).outputs@,
            final(self).next_id == old(self).next_id,
            match r {
                Ok(()) => {
                    &&& old(self).input_live(input)
                    &&& old(self).output_live(output)
                    &&& old(self).input_at(input).node != old(self).output_at(output).node
                    &&& final(self).conn_of(input) == Some(output)
                    &&& forall|j: InputId|
                        j != input ==> final(self).conn_of(j) == old(self).conn_of(j)
                },
                Err(GraphError::NotFound) => (!old(self).input_live(input) || !old(
                    self,
                ).output_live(output)) && final(self).connections@ == old(self).connections@,
                Err(GraphError::SelfLoop) => {
                    &&& old(self).input_live(input)
                    &&& old(self).output_live(output)
                    &&& old(self).input_at(input).node == old(self).output_at(output).node
                    &&& final(self).connections@ == old(self).connections@
                },
            },
    {
        let inp = match self.find_input(input) {
            Some(k) => k,
            None => {
                return Err(GraphError::NotFound);
            },
        };
        let outp = match self.find_output(output) {
            Some(k) => k,
            None => {
                return Err(GraphError::NotFound);
            },
        };
        proof {
            self.lemma_input_at(inp as int);
            self.lemma_output_at(outp as int);
        }
        if self.inputs[inp].node == self.outputs[outp].node {
            return Err(GraphError::SelfLoop);
        }
        let ghost pre = *self;
        match self.find_conn(input) {
            Some(k) => {
                proof {
                    self.lemma_conn_at(k as int);
                }
                self.connections.remove(k);
            },
            None => {},
        }
        let ghost mid = *self;
        proof {
            assert forall|m: int| 0 <= m < mid.connections@.len() implies (
            #[trigger] mid.connections@[m]).0 != input && pre.connections@.contains(
                mid.connections@[m],
            ) by {
                if pre.has_conn(input) {
                    let k = pre.conn_index(input);
                    if m < k {
                        assert(mid.connections@[m] == pre.connections@[m]);
                    } else {
                        assert(mid.connections@[m] == pre.connections@[m + 1]);
                    }
                } else {
                    assert(mid.connections@[m] == pre.connections@[m]);
                }
            }
        }
        self.connections.push((input, output));
        proof {
            let fin = *self;
            let n = fin.connections@.len() - 1;
            Graph::lemma_arena_views(pre, fin);
            assert(fin.connections@[n] == (input, output));
            // every entry except the last is an old entry with a key other
            // than `input`, so distinctness and per-entry facts carry over
            assert forall|m: int| 0 <= m < n implies (#[trigger] fin.connections@[m]).0 != input
                && pre.connections@.contains(fin.connections@[m]) by {
                assert(fin.connections@[m] == mid.connections@[m]);
            }
            assert forall|k1: int, k2: int|
                0 <= k1 < k2 < fin.connections@.len() implies (
            #[trigger] fin.connections@[k1]).0 != (#[trigger] fin.connections@[k2]).0 by {
                if k2 < n {
                    if pre.has_conn(input) {
                        let k = pre.conn_index(input);
                        let o1 = if k1 < k {
                            k1
                        } else {
                            k1 + 1
                        };
                        let o2 = if k2 < k {
                            k2
                        } else {
                            k2 + 1
                        };
                        assert(fin.connections@[k1] == pre.connections@[o1]);
                        assert(fin.connections@[k2] == pre.connections@[o2]);
                    }
                }
            }
            assert forall|k: int| 0 <= k < fin.connections@.len() implies {
                let (i, o) = #[trigger] fin.connections@[k];
                &&& fin.input_live(i)
                &&& fin.output_live(o)
                &&& fin.input_at(i).node != fin.output_at(o).node
            } by {
                if k < n {
                    let e = fin.connections@[k];
                    let k0 = choose|k0: int|
                        0 <= k0 < pre.connections@.len() && pre.connections@[k0] == e;
                    assert(pre.input_live(e.0) && pre.output_live(e.1) && pre.input_at(e.0).node
                        != pre.output_at(e.1).node);
                }
            }
            assert(fin.wf());
            fin.lemma_conn_at(n);
            assert forall|j: InputId| j != input implies fin.conn_of(j) == pre.conn_of(j) by {
                if pre.has_conn(j) {
                    let k0 = pre.conn_index(j);
                    pre.lemma_conn_at(k0);
                    let e = pre.connections@[k0];
                    if pre.has_conn(input) {
                        let k = pre.conn_index(input);
                        let m = if k0 < k {
                            k0
                        } else {
                            k0 - 1
                        };
                        assert(fin.connections@[m] == e);
                    } else {
                        assert(fin.connections@[k0] == e);
                    }
                    fin.lemma_conn_of_contains(j, e.1);
                } else {
                    if fin.has_conn(j) {
                        let m = fin.conn_index(j);
                        assert(m < n || fin.connections@[m].0 == input);
                        if m < n {
                            let e = fin.connections@[m];
                            let k0 = choose|k0: int|
                                0 <= k0 < pre.connections@.len() && pre.connections@[k0] == e;
                            assert(pre.connections@[k0].0 == j);
                        }
                    }
                    assert(!fin.has_conn(j));
                }
            }
        }
        Ok(())
    }

    /// Clear the connection entry of `input`, returning the output it was
    /// connected to; a no-op returning `None` when no entry exists. No other
    /// entry is affected.
    pub fn remove_connection(&mut self, input: InputId) -> (r: Option<OutputId>)
        requires
            old(self).wf(),
        ensures
            final(self).wf(),
            final(self).nodes@ == old(self).nodes@,
            final(self).inputs@ == old(self).inputs@,
            final(self).outputs@ == old(self).outputs@,
            final(self).next_id == old(self).next_id,
            match r {
                Some(o) => {
                    &&& old(self).conn_of(input) == Some(o)
                    &&& final(self).conn_of(input) == None::<OutputId>
                    &&& forall|j: InputId|
                        j != input ==> final(self).conn_of(j) == old(self).conn_of(j)
                },
                None => old(self).conn_of(input) == None::<OutputId> && final(self).connections@
                    == old(self).connections@,
            },
    {
        match self.find_conn(input) {
            Some(k) => {
                let o = self.connections[k].1;
                proof {
                    self.lemma_conn_at(k as int);
                }
                let ghost pre = *self;
                self.connections.remove(k);
                proof {
                    let fin = *self;
                    let k = k as int;
                    Graph::lemma_arena_views(pre, fin);
                    assert forall|m: int| 0 <= m < fin.connections@.len() implies (
                    #[trigger] fin.connections@[m]).0 != input && pre.connections@.contains(
                        fin.connections@[m],
                    ) by {
                        if m < k {
                            assert(fin.connections@[m] == pre.connections@[m]);
                        } else {
                            assert(fin.connections@[m] == pre.connections@[m + 1]);
                        }
                    }
                    assert forall|k1: int, k2: int|
                        0 <= k1 < k2 < fin.connections@.len() implies (
                    #[trigger] fin.connections@[k1]).0 != (#[trigger] fin.connections@[k2]).0 by {
                        let o1 = if k1 < k {
                            k1
                        } else {
                            k1 + 1
                        };
                        let o2 = if k2 < k {
                            k2
                        } else {
                            k2 + 1
                        };
                        assert(fin.connections@[k1] == pre.connections@[o1]);
                        assert(fin.connections@[k2] == pre.connections@[o2]);
                    }
                    assert forall|m: int| 0 <= m < fin.connections@.len() implies {
                        let (i, o) = #[trigger] fin.connections@[m];
                        &&& fin.input_live(i)
                        &&& fin.output_live(o)
                        &&& fin.input_at(i).node != fin.output_at(o).node
                    } by {
                        let e = fin.connections@[m];
                        let k0 = choose|k0: int|
                            0 <= k0 < pre.connections@.len() && pre.connections@[k0] == e;
                        assert(pre.input_live(e.0) && pre.output_live(e.1) && pre.input_at(
                            e.0,
                        ).node != pre.output_at(e.1).node);
                    }
                    assert(fin.wf());
                    assert(!fin.has_conn(input));
                    assert forall|j: InputId| j != input implies fin.conn_of(j) == pre.conn_of(
                        j,
                    ) by {
                        if pre.has_conn(j) {
                            let k0 = pre.conn_index(j);
                            pre.lemma_conn_at(k0);
                            let e = pre.connections@[k0];
                            let m = if k0 < k {
                                k0
                            } else {
                                k0 - 1
                            };
                            assert(fin.connections@[m] == e);
                            fin.lemma_conn_of_contains(j, e.1);
                        } else {
                            if fin.has_conn(j) {
                                let m = fin.conn_index(j);
                                let e = fin.connections@[m];
                                let k0 = choose|k0: int|
                                    0 <= k0 < pre.connections@.len() && pre.connections@[k0] == e;
                                assert(pre.connections@[k0].0 == j);
                            }
                            assert(!fin.has_conn(j));
                        }
                    }
                }
                Some(o)
            },
            None => None,
        }
    }

    /// Create a node together with all parameters its template describes, as
    /// one atomic unit. The new node id and all new parameter ids are fresh:
    /// the counter never hands an id out twice. Nothing already in the store
    /// is touched.
    #[verifier::rlimit(80)]
    pub fn add_node(&mut self, template: &NodeTemplate) -> (r: NodeId)
        requires
            old(self).wf(),
            old(self).next_id + 1 + template.inputs@.len() + template.outputs@.len()
                <= u64::MAX,
        ensures
            final(self).wf(),
            r == (NodeId { 0: old(self).next_id }),
            !old(self).has_node(r),
            final(self).has_node(r),
            final(self).next_id == old(self).next_id + 1 + template.inputs@.len()
                + template.outputs@.len(),
            final(self).nodes@.len() == old(self).nodes@.len() + 1,
            forall|k: int|
                0 <= k < old(self).nodes@.len() ==> final(self).nodes@[k] == old(self).nodes@[k],
            ({
                let nd = final(self).nodes@[old(self).nodes@.len() as int];
                &&& nd == final(self).node_at(r)
                &&& nd.id == r
                &&& nd.label == template.label
                &&& nd.user_data == template.user_data
                &&& nd.inputs@.len() == template.inputs@.len()
                &&& forall|j: int|
                    0 <= j < template.inputs@.len() ==> (#[trigger] nd.inputs@[j]).1 == (InputId {
                        0: (old(self).next_id + 1 + j) as u64,
                    }) && nd.inputs@[j].0 == template.inputs@[j].name
                &&& nd.outputs@.len() == template.outputs@.len()
                &&& forall|j: int|
                    0 <= j < template.outputs@.len() ==> (#[trigger] nd.outputs@[j]).1 == (
                    OutputId { 0: (old(self).next_id + 1 + template.inputs@.len() + j) as u64 })
                        && nd.outputs@[j].0 == template.outputs@[j].name
            }),
            final(self).inputs@.len() == old(self).inputs@.len() + template.inputs@.len(),
            forall|k: int|
                0 <= k < old(self).inputs@.len() ==> final(self).inputs@[k] == old(
                    self,
                ).inputs@[k],
            forall|j: int|
                0 <= j < template.inputs@.len() ==> {
                    let p = #[trigger] final(self).inputs@[old(self).inputs@.len() + j];
                    &&& p.id == (InputId { 0: (old(self).next_id + 1 + j) as u64 })
                    &&& p.node == r
                    &&& p.typ == template.inputs@[j].typ
                    &&& p.kind == template.inputs@[j].kind
                    &&& p.value == template.inputs@[j].value
                    &&& p.shown_inline == template.inputs@[j].shown_inline
                },
            final(self).outputs@.len() == old(self).outputs@.len() + template.outputs@.len(),
            forall|k: int|
                0 <= k < old(self).outputs@.len() ==> final(self).outputs@[k] == old(
                    self,
                ).outputs@[k],
            forall|j: int|
                0 <= j < template.outputs@.len() ==> {
                    let p = #[trigger] final(self).outputs@[old(self).outputs@.len() + j];
                    &&& p.id == (OutputId {
                        0: (old(self).next_id + 1 + template.inputs@.len() + j) as u64,
                    })
                    &&& p.node == r
                    &&& p.typ == template.outputs@[j].typ
                },
            final(self).connections@ == old(self).connections@,
            forall|i: InputId|
                #![trigger final(self).conn_of(i)]
                final(self).conn_of(i) == old(self).conn_of(i),
            forall|m: NodeId|
                #![trigger final(self).has_node(m)]
                m != r ==> final(self).has_node(m) == old(self).has_node(m),
            forall|m: NodeId|
                #![trigger final(self).node_at(m)]
                old(self).has_node(m) ==> final(self).has_node(m) && final(self).node_at(m)
                    == old(self).node_at(m),
            forall|i: InputId|
                #![trigger final(self).input_at(i)]
                old(self).input_live(i) ==> final(self).input_live(i) && final(self).input_at(i)
                    == old(self).input_at(i),
            forall|o: OutputId|
                #![trigger final(self).output_at(o)]
                old(self).output_live(o) ==> final(self).output_live(o)
                    && final(self).output_at(o) == old(self).output_at(o),
    {
        let ghost pre = *self;
        let base = self.next_id;
        let node_id = NodeId(base);
        let n_in = template.inputs.len();
        let n_out = template.outputs.len();
        let mut node_inputs: Vec<(String, InputId)> = Vec::new();
        let mut j: usize = 0;
        while j < n_in
            invariant
                j <= n_in,
                n_in == template.inputs@.len(),
                n_out == template.outputs@.len(),
                base == pre.next_id,
                node_id == (NodeId { 0: base }),
                pre.next_id + 1 + n_in + n_out <= u64::MAX,
                self.nodes@ == pre.nodes@,
                self.outputs@ == pre.outputs@,
                self.connections@ == pre.connections@,
                self.next_id == pre.next_id,
                node_inputs@.len() == j,
                self.inputs@.len() == pre.inputs@.len() + j,
                forall|k: int| 0 <= k < pre.inputs@.len() ==> self.inputs@[k] == pre.inputs@[k],
                forall|jj: int|
                    0 <= jj < j ==> {
                        let p = #[trigger] self.inputs@[pre.inputs@.len() + jj];
                        &&& p.id == (InputId { 0: (base + 1 + jj) as u64 })
                        &&& p.node == node_id
                        &&& p.typ == template.inputs@[jj].typ
                        &&& p.kind == template.inputs@[jj].kind
                        &&& p.value == template.inputs@[jj].value
                        &&& p.shown_inline == template.inputs@[jj].shown_inline
                    },
                forall|jj: int|
                    0 <= jj < j ==> (#[trigger] node_inputs@[jj]).1 == (InputId {
                        0: (base + 1 + jj) as u64,
                    }) && node_inputs@[jj].0 == template.inputs@[jj].name,
            decreases n_in - j,
        {
            let t = &template.inputs[j];
            let iid = InputId(base + 1 + j as u64);
            node_inputs.push((t.name.clone(), iid));
            self.inputs.push(
                InputParam {
                    id: iid,
                    node: node_id,
                    typ: t.typ,
                    kind: t.kind,
                    value: t.value,
                    shown_inline: t.shown_inline,
                },
            );
            j += 1;
        }
        let mut node_outputs: Vec<(String, OutputId)> = Vec::new();
        let mut j: usize = 0;
        while j < n_out
            invariant
                j <= n_out,
                n_in == template.inputs@.len(),
                n_out == template.outputs@.len(),
                base == pre.next_id,
                node_id == (NodeId { 0: base }),
                pre.next_id + 1 + n_in + n_out <= u64::MAX,
                self.nodes@ == pre.nodes@,
                self.connections@ == pre.connections@,
                self.next_id == pre.next_id,
                self.inputs@.len() == pre.inputs@.len() + n_in,
                forall|k: int| 0 <= k < pre.inputs@.len() ==> self.inputs@[k] == pre.inputs@[k],
                forall|jj: int|
                    0 <= jj < n_in ==> {
                        let p = #[trigger] self.inputs@[pre.inputs@.len() + jj];
                        &&& p.id == (InputId { 0: (base + 1 + jj) as u64 })
                        &&& p.node == node_id
                        &&& p.typ == template.inputs@[jj].typ
                        &&& p.kind == template.inputs@[jj].kind
                        &&& p.value == template.inputs@[jj].value
                        &&& p.shown_inline == template.inputs@[jj].shown_inline
                    },
                node_inputs@.len() == n_in,
                forall|jj: int|
                    0 <= jj < n_in ==> (#[trigger] node_inputs@[jj]).1 == (InputId {
                        0: (base + 1 + jj) as u64,
                    }) && node_inputs@[jj].0 == template.inputs@[jj].name,
                node_outputs@.len() == j,
                self.outputs@.len() == pre.outputs@.len() + j,
                forall|k: int|
                    0 <= k < pre.outputs@.len() ==> self.outputs@[k] == pre.outputs@[k],
                forall|jj: int|
                    0 <= jj < j ==> {
                        let p = #[trigger] self.outputs@[pre.outputs@.len() + jj];
                        &&& p.id == (OutputId { 0: (base + 1 + n_in + jj) as u64 })
                        &&& p.node == node_id
                        &&& p.typ == template.outputs@[jj].typ
                    },
                forall|jj: int|
                    0 <= jj < j ==> (#[trigger] node_outputs@[jj]).1 == (OutputId {
                        0: (base + 1 + n_in + jj) as u64,
                    }) && node_outputs@[jj].0 == template.outputs@[jj].name,
            decreases n_out - j,
        {
            let t = &template.outputs[j];
            let oid = OutputId(base + 1 + n_in as u64 + j as u64);
            node_outputs.push((t.name.clone(), oid));
            self.outputs.push(OutputParam { id: oid, node: node_id, typ: t.typ });
            j += 1;
        }
        self.nodes.push(
            Node {
                id: node_id,
                label: template.label.clone(),
                inputs: node_inputs,
                outputs: node_outputs,
                user_data: template.user_data,
            },
        );
        self.next_id = base + 1 + n_in as u64 + n_out as u64;
        proof {
            let fin = *self;
            let nlen = pre.nodes@.len() as int;
            let ilen = pre.inputs@.len() as int;
            let olen = pre.outputs@.len() as int;
            assert(!pre.has_node(node_id));
            // distinctness: everything new carries an id at or above `base`,
            // and every old id sits strictly below it
            assert(fin.nodes_distinct()) by {
                assert forall|k1: int, k2: int|
                    0 <= k1 < k2 < fin.nodes@.len() implies (#[trigger] fin.nodes@[k1]).id != (
                #[trigger] fin.nodes@[k2]).id by {
                    if k2 == nlen {
                        assert(pre.nodes@[k1].id.0 < base);
                    }
                }
            }
            assert(fin.params_distinct()) by {
                assert forall|k1: int, k2: int|
                    0 <= k1 < k2 < fin.inputs@.len() implies (#[trigger] fin.inputs@[k1]).id != (
                #[trigger] fin.inputs@[k2]).id by {
                    assert(fin.inputs@.len() == ilen + n_in);
                    if k1 >= ilen {
                        assert(fin.inputs@[ilen + (k1 - ilen)].id == (InputId {
                            0: (base + 1 + (k1 - ilen)) as u64,
                        }));
                        assert(base + 1 + (k1 - ilen) <= u64::MAX);
                        assert(fin.inputs@[k1].id.0 == base + 1 + (k1 - ilen));
                    } else {
                        assert(fin.inputs@[k1] == pre.inputs@[k1]);
                        assert(pre.inputs@[k1].id.0 < base);
                    }
                    if k2 >= ilen {
                        assert(fin.inputs@[ilen + (k2 - ilen)].id == (InputId {
                            0: (base + 1 + (k2 - ilen)) as u64,
                        }));
                        assert(base + 1 + (k2 - ilen) <= u64::MAX);
                        assert(fin.inputs@[k2].id.0 == base + 1 + (k2 - ilen));
                    } else {
                        assert(fin.inputs@[k2] == pre.inputs@[k2]);
                        if k1 < ilen {
                            assert(pre.inputs@[k1].id != pre.inputs@[k2].id);
                        }
                    }
                }
                assert forall|k1: int, k2: int|
                    0 <= k1 < k2 < fin.outputs@.len() implies (#[trigger] fin.outputs@[k1]).id
                    != (#[trigger] fin.outputs@[k2]).id by {
                    assert(fin.outputs@.len() == olen + n_out);
                    if k1 >= olen {
                        assert(fin.outputs@[olen + (k1 - olen)].id == (OutputId {
                            0: (base + 1 + n_in + (k1 - olen)) as u64,
                        }));
                        assert(base + 1 + n_in + (k1 - olen) <= u64::MAX);
                        assert(fin.outputs@[k1].id.0 == base + 1 + n_in + (k1 - olen));
                    } else {
                        assert(fin.outputs@[k1] == pre.outputs@[k1]);
                        assert(pre.outputs@[k1].id.0 < base);
                    }
                    if k2 >= olen {
                        assert(fin.outputs@[olen + (k2 - olen)].id == (OutputId {
                            0: (base + 1 + n_in + (k2 - olen)) as u64,
                        }));
                        assert(base + 1 + n_in + (k2 - olen) <= u64::MAX);
                        assert(fin.outputs@[k2].id.0 == base + 1 + n_in + (k2 - olen));
                    } else {
                        assert(fin.outputs@[k2] == pre.outputs@[k2]);
                        if k1 < olen {
                            assert(pre.outputs@[k1].id != pre.outputs@[k2].id);
                        }
                    }
                }
            }
            assert(fin.conn_keys_distinct());
            Graph::lemma_conn_views(pre, fin);
            // old lookups carry over entry by entry
            assert forall|m: NodeId| pre.has_node(m) implies fin.has_node(m) && fin.node_at(m)
                == pre.node_at(m) by {
                let k = pre.node_index(m);
                assert(fin.nodes@[k].id == m);
                fin.lemma_node_at(k);
            }
            assert forall|i: InputId| pre.input_live(i) implies fin.input_live(i)
                && fin.input_at(i) == pre.input_at(i) by {
                let k = pre.input_index(i);
                assert(fin.inputs@[k].id == i);
                fin.lemma_input_at(k);
            }
            assert forall|o: OutputId| pre.output_live(o) implies fin.output_live(o)
                && fin.output_at(o) == pre.output_at(o) by {
                let k = pre.output_index(o);
                assert(fin.outputs@[k].id == o);
                fin.lemma_output_at(k);
            }
            assert forall|m: NodeId| m != node_id && fin.has_node(m) implies pre.has_node(m) by {
                let k = fin.node_index(m);
                assert(k < nlen);
                assert(pre.nodes@[k].id == m);
            }
            fin.lemma_node_at(nlen);
            // the new node's list entries point at the new parameters
            assert forall|jj: int| 0 <= jj < n_in implies fin.input_live(
                (#[trigger] fin.nodes@[nlen].inputs@[jj]).1,
            ) && fin.input_at(fin.nodes@[nlen].inputs@[jj].1).node == node_id by {
                assert(fin.inputs@[ilen + jj].id == (InputId { 0: (base + 1 + jj) as u64 }));
                fin.lemma_input_at(ilen + jj);
            }
            assert forall|jj: int| 0 <= jj < n_out implies fin.output_live(
                (#[trigger] fin.nodes@[nlen].outputs@[jj]).1,
            ) && fin.output_at(fin.nodes@[nlen].outputs@[jj].1).node == node_id by {
                assert(fin.outputs@[olen + jj].id == (OutputId {
                    0: (base + 1 + n_in + jj) as u64,
                }));
                fin.lemma_output_at(olen + jj);
            }
            // well-formedness, clause by clause
            assert forall|k: int| 0 <= k < fin.inputs@.len() implies fin.has_node(
                (#[trigger] fin.inputs@[k]).node,
            ) by {
                if k < ilen {
                    assert(fin.inputs@[k] == pre.inputs@[k]);
                    assert(pre.has_node(pre.inputs@[k].node));
                } else {
                    assert(fin.inputs@[ilen + (k - ilen)].node == node_id);
                    assert(fin.inputs@[k].node == node_id);
                }
            }
            assert forall|k: int| 0 <= k < fin.outputs@.len() implies fin.has_node(
                (#[trigger] fin.outputs@[k]).node,
            ) by {
                if k < olen {
                    assert(fin.outputs@[k] == pre.outputs@[k]);
                    assert(pre.has_node(pre.outputs@[k].node));
                } else {
                    assert(fin.outputs@[olen + (k - olen)].node == node_id);
                    assert(fin.outputs@[k].node == node_id);
                }
            }
            assert forall|k: int, jj: int|
                0 <= k < fin.nodes@.len() && 0 <= jj < fin.nodes@[k].inputs@.len() implies {
                let i = (#[trigger] fin.nodes@[k].inputs@[jj]).1;
                &&& fin.input_live(i)
                &&& fin.input_at(i).node == fin.nodes@[k].id
            } by {
                if k < nlen {
                    assert(pre.nodes@[k].inputs@[jj] == fin.nodes@[k].inputs@[jj]);
                    assert(pre.input_live(pre.nodes@[k].inputs@[jj].1));
                }
            }
            assert forall|k: int, jj: int|
                0 <= k < fin.nodes@.len() && 0 <= jj < fin.nodes@[k].outputs@.len() implies {
                let o = (#[trigger] fin.nodes@[k].outputs@[jj]).1;
                &&& fin.output_live(o)
                &&& fin.output_at(o).node == fin.nodes@[k].id
            } by {
                if k < nlen {
                    assert(pre.nodes@[k].outputs@[jj] == fin.nodes@[k].outputs@[jj]);
                    assert(pre.output_live(pre.nodes@[k].outputs@[jj].1));
                }
            }
            assert forall|k: int| 0 <= k < fin.connections@.len() implies {
                let (i, o) = #[trigger] fin.connections@[k];
                &&& fin.input_live(i)
                &&& fin.output_live(o)
                &&& fin.input_at(i).node != fin.output_at(o).node
            } by {
                assert(pre.connections@[k] == fin.connections@[k]);
                let (i, o) = pre.connections@[k];
                assert(pre.input_live(i) && pre.output_live(o) && pre.input_at(i).node
                    != pre.output_at(o).node);
            }
            assert forall|k: int| 0 <= k < fin.nodes@.len() implies (
            #[trigger] fin.nodes@[k]).id.0 < fin.next_id by {
                if k < nlen {
                    assert(fin.nodes@[k] == pre.nodes@[k]);
                    assert(pre.nodes@[k].id.0 < base);
                }
            }
            assert forall|k: int| 0 <= k < fin.inputs@.len() implies (
            #[trigger] fin.inputs@[k]).id.0 < fin.next_id by {
                if k < ilen {
                    assert(fin.inputs@[k] == pre.inputs@[k]);
                    assert(pre.inputs@[k].id.0 < base);
                } else {
                    assert(fin.inputs@[ilen + (k - ilen)].id == (InputId {
                        0: (base + 1 + (k - ilen)) as u64,
                    }));
                }
            }
            assert forall|k: int| 0 <= k < fin.outputs@.len() implies (
            #[trigger] fin.outputs@[k]).id.0 < fin.next_id by {
                if k < olen {
                    assert(fin.outputs@[k] == pre.outputs@[k]);
                    assert(pre.outputs@[k].id.0 < base);
                } else {
                    assert(fin.outputs@[olen + (k - olen)].id == (OutputId {
                        0: (base + 1 + n_in + (k - olen)) as u64,
                    }));
                }
            }
            assert(fin.wf());
        }
        node_id
    }

    /// Law: the connection map is single valued. An input records at most
    /// one connected output — any pair the map holds is the one `conn_of`
    /// reports, so a second output connected to the same input can only have
    /// replaced the first, never joined it.
    pub proof fn lemma_single_valued_input(self)
        requires
            self.wf(),
        ensures
            self.conn_keys_distinct(),
            forall|i: InputId, o: OutputId| #[trigger]
                self.connections@.contains((i, o)) ==> self.conn_of(i) == Some(o),
    {
        assert forall|i: InputId, o: OutputId| #[trigger]
            self.connections@.contains((i, o)) implies self.conn_of(i) == Some(o) by {
            self.lemma_conn_of_contains(i, o);
        }
    }

    /// Law: no self-loop is ever stored. Every entry of the connection map
    /// joins ports of two different nodes, whatever sequence of operations
    /// built the store.
    pub proof fn lemma_no_self_loop(self)
        requires
            self.wf(),
        ensures
            forall|k: int|
                0 <= k < self.connections@.len() ==> self.input_at(
                    (#[trigger] self.connections@[k]).0,
                ).node != self.output_at(self.connections@[k].1).node,
    {
    }

    /// Law: the connection map never dangles. Every entry references live
    /// parameters of live nodes; together with `remove_node`'s contract this
    /// is the cascade: once a node is gone, nothing in the map can reach it
    /// or its parameters.
    pub proof fn lemma_no_dangling_connection(self)
        requires
            self.wf(),
        ensures
            forall|k: int|
                0 <= k < self.connections@.len() ==> {
                    let (i, o) = #[trigger] self.connections@[k];
                    &&& self.input_live(i)
                    &&& self.output_live(o)
                    &&& self.has_node(self.input_at(i).node)
                    &&& self.has_node(self.output_at(o).node)
                },
    {
        assert forall|k: int| 0 <= k < self.connections@.len() implies {
            let (i, o) = #[trigger] self.connections@[k];
            &&& self.input_live(i)
            &&& self.output_live(o)
            &&& self.has_node(self.input_at(i).node)
            &&& self.has_node(self.output_at(o).node)
        } by {
            let (i, o) = self.connections@[k];
            self.lemma_param_owner_live(AnyParameterId::Input(i));
            self.lemma_param_owner_live(AnyParameterId::Output(o));
        }
    }

    /// Remove a node, all parameters belonging to it, and every connection
    /// referencing any of those parameters, as one atomic unit. Calling it on
    /// an id that is not live is a refused no-op. Surviving nodes,
    /// parameters and connections are untouched.
    #[verifier::rlimit(100)]
    pub fn remove_node(&mut self, n: NodeId) -> (r: Result<(), GraphError>)
        requires
            old(self).wf(),
        ensures
            final(self).wf(),
            final(self).next_id == old(self).next_id,
            match r {
                Ok(()) => {
                    &&& old(self).has_node(n)
                    &&& forall|m: NodeId|
                        #![trigger final(self).has_node(m)]
                        final(self).has_node(m) == (old(self).has_node(m) && m != n)
                    &&& forall|m: NodeId|
                        #![trigger final(self).node_at(m)]
                        final(self).has_node(m) ==> final(self).node_at(m) == old(self).node_at(
                            m,
                        )
                    &&& forall|i: InputId|
                        #![trigger final(self).input_live(i)]
                        final(self).input_live(i) == (old(self).input_live(i) && old(
                            self,
                        ).input_at(i).node != n)
                    &&& forall|i: InputId|
                        #![trigger final(self).input_at(i)]
                        final(self).input_live(i) ==> final(self).input_at(i) == old(
                            self,
                        ).input_at(i)
                    &&& forall|o: OutputId|
                        #![trigger final(self).output_live(o)]
                        final(self).output_live(o) == (old(self).output_live(o) && old(
                            self,
                        ).output_at(o).node != n)
                    &&& forall|o: OutputId|
                        #![trigger final(self).output_at(o)]
                        final(self).output_live(o) ==> final(self).output_at(o) == old(
                            self,
                        ).output_at(o)
                    &&& forall|i: InputId|
                        #![trigger final(self).conn_of(i)]
                        final(self).conn_of(i) == (match old(self).conn_of(i) {
                            Some(o) => if old(self).input_at(i).node == n || old(
                                self,
                            ).output_at(o).node == n {
                                None::<OutputId>
                            } else {
                                Some(o)
                            },
                            None => None::<OutputId>,
                        })
                },
                Err(e) => e == GraphError::NotFound && !old(self).has_node(n) && *final(self)
                    == *old(self),
            },
    {
        let idx = match self.find_node(n) {
            Some(k) => k,
            None => {
                return Err(GraphError::NotFound);
            },
        };
        let ghost pre = *self;
        // keep exactly the connections whose two endpoints survive; the
        // parameter arenas are still intact here, so ownership can be looked
        // up for every entry
        let mut new_conns: Vec<(InputId, OutputId)> = Vec::new();
        let mut k: usize = 0;
        while k < self.connections.len()
            invariant
                *self == pre,
                pre.wf(),
                k <= pre.connections@.len(),
                forall|j: int|
                    0 <= j < new_conns@.len() ==> exists|k0: int|
                        0 <= k0 < k && pre.connections@[k0] == #[trigger] new_conns@[j],
                forall|j: int|
                    0 <= j < new_conns@.len() ==> pre.input_at(
                        (#[trigger] new_conns@[j]).0,
                    ).node != n && pre.output_at(new_conns@[j].1).node != n,
                forall|k0: int|
                    0 <= k0 < k ==> (pre.input_at((#[trigger] pre.connections@[k0]).0).node != n
                        && pre.output_at(pre.connections@[k0].1).node != n)
                        ==> new_conns@.contains(pre.connections@[k0]),
                forall|j1: int, j2: int|
                    0 <= j1 < j2 < new_conns@.len() ==> (#[trigger] new_conns@[j1]).0 != (
                    #[trigger] new_conns@[j2]).0,
            decreases pre.connections@.len() - k,
        {
            let (i, o) = self.connections[k];
            proof {
                self.lemma_conn_at(k as int);
            }
            let node_in = match self.get_input(i) {
                Some(p) => p.node,
                None => vstd::pervasive::unreached(),
            };
            let node_out = match self.get_output(o) {
                Some(p) => p.node,
                None => vstd::pervasive::unreached(),
            };
            if node_in != n && node_out != n {
                let ghost prev = new_conns@;
                new_conns.push((i, o));
                proof {
                    assert forall|e: (InputId, OutputId)| prev.contains(e) implies new_conns@.contains(e) by {
                        let j = choose|j: int| 0 <= j < prev.len() && prev[j] == e;
                        assert(new_conns@[j] == e);
                    }
                    assert(new_conns@[new_conns@.len() - 1] == (i, o));
                    assert(new_conns@.contains(pre.connections@[k as int]));
                    assert forall|j1: int, j2: int|
                        0 <= j1 < j2 < new_conns@.len() implies (#[trigger] new_conns@[j1]).0
                        != (#[trigger] new_conns@[j2]).0 by {
                        if j2 == new_conns@.len() - 1 {
                            let k0 = choose|k0: int|
                                0 <= k0 < k && pre.connections@[k0] == prev[j1];
                            assert(pre.connections@[k0].0 != pre.connections@[k as int].0);
                        }
                    }
                }
            }
            k += 1;
        }
        // keep exactly the parameters owned by surviving nodes
        let mut new_inputs: Vec<InputParam> = Vec::new();
        let mut k: usize = 0;
        while k < self.inputs.len()
            invariant
                *self == pre,
                pre.wf(),
                k <= pre.inputs@.len(),
                forall|j: int|
                    0 <= j < new_inputs@.len() ==> exists|k0: int|
                        0 <= k0 < k && pre.inputs@[k0] == #[trigger] new_inputs@[j],
                forall|j: int|
                    0 <= j < new_inputs@.len() ==> (#[trigger] new_inputs@[j]).node != n,
                forall|k0: int|
                    0 <= k0 < k ==> ((#[trigger] pre.inputs@[k0]).node != n
                        ==> new_inputs@.contains(pre.inputs@[k0])),
                forall|j1: int, j2: int|
                    0 <= j1 < j2 < new_inputs@.len() ==> (#[trigger] new_inputs@[j1]).id != (
                    #[trigger] new_inputs@[j2]).id,
            decreases pre.inputs@.len() - k,
        {
            let p = self.inputs[k];
            if p.node != n {
                let ghost prev = new_inputs@;
                new_inputs.push(p);
                proof {
                    assert forall|e: InputParam| prev.contains(e) implies new_inputs@.contains(e) by {
                        let j = choose|j: int| 0 <= j < prev.len() && prev[j] == e;
                        assert(new_inputs@[j] == e);
                    }
                    assert(new_inputs@[new_inputs@.len() - 1] == p);
                    assert(new_inputs@.contains(pre.inputs@[k as int]));
                    assert forall|j1: int, j2: int|
                        0 <= j1 < j2 < new_inputs@.len() implies (#[trigger] new_inputs@[j1]).id
                        != (#[trigger] new_inputs@[j2]).id by {
                        if j2 == new_inputs@.len() - 1 {
                            let k0 = choose|k0: int| 0 <= k0 < k && pre.inputs@[k0] == prev[j1];
                            assert(pre.inputs@[k0].id != pre.inputs@[k as int].id);
                        }
                    }
                }
            }
            k += 1;
        }
        let mut new_outputs: Vec<OutputParam> = Vec::new();
        let mut k: usize = 0;
        while k < self.outputs.len()
            invariant
                *self == pre,
                pre.wf(),
                k <= pre.outputs@.len(),
                forall|j: int|
                    0 <= j < new_outputs@.len() ==> exists|k0: int|
                        0 <= k0 < k && pre.outputs@[k0] == #[trigger] new_outputs@[j],
                forall|j: int|
                    0 <= j < new_outputs@.len() ==> (#[trigger] new_outputs@[j]).node != n,
                forall|k0: int|
                    0 <= k0 < k ==> ((#[trigger] pre.outputs@[k0]).node != n
                        ==> new_outputs@.contains(pre.outputs@[k0])),
                forall|j1: int, j2: int|
                    0 <= j1 < j2 < new_outputs@.len() ==> (#[trigger] new_outputs@[j1]).id != (
                    #[trigger] new_outputs@[j2]).id,
            decreases pre.outputs@.len() - k,
        {
            let p = self.outputs[k];
            if p.node != n {
                let ghost prev = new_outputs@;
                new_outputs.push(p);
                proof {
                    assert forall|e: OutputParam| prev.contains(e) implies new_outputs@.contains(e) by {
                        let j = choose|j: int| 0 <= j < prev.len() && prev[j] == e;
                        assert(new_outputs@[j] == e);
                    }
                    assert(new_outputs@[new_outputs@.len() - 1] == p);
                    assert(new_outputs@.contains(pre.outputs@[k as int]));
                    assert forall|j1: int, j2: int|
                        0 <= j1 < j2 < new_outputs@.len() implies (
                    #[trigger] new_outputs@[j1]).id != (#[trigger] new_outputs@[j2]).id by {
                        if j2 == new_outputs@.len() - 1 {
                            let k0 = choose|k0: int| 0 <= k0 < k && pre.outputs@[k0] == prev[j1];
                            assert(pre.outputs@[k0].id != pre.outputs@[k as int].id);
                        }
                    }
                }
            }
            k += 1;
        }
        self.connections = new_conns;
        self.inputs = new_inputs;
        self.outputs = new_outputs;
        self.nodes.remove(idx);
        proof {
            let fin = *self;
            let idx = idx as int;
            assert(pre.nodes@[idx].id == n);
            // surviving nodes keep their index order around the removed slot
            assert forall|k1: int| 0 <= k1 < fin.nodes@.len() implies fin.nodes@[k1] == (if k1
                < idx {
                pre.nodes@[k1]
            } else {
                pre.nodes@[k1 + 1]
            }) by {}
            assert(fin.nodes_distinct()) by {
                assert forall|k1: int, k2: int|
                    0 <= k1 < k2 < fin.nodes@.len() implies (#[trigger] fin.nodes@[k1]).id != (
                #[trigger] fin.nodes@[k2]).id by {
                    let o1 = if k1 < idx {
                        k1
                    } else {
                        k1 + 1
                    };
                    let o2 = if k2 < idx {
                        k2
                    } else {
                        k2 + 1
                    };
                    assert(pre.nodes@[o1].id != pre.nodes@[o2].id);
                }
            }
            // node membership: everything but `n` survives
            assert forall|m: NodeId| fin.has_node(m) == (pre.has_node(m) && m != n) by {
                if pre.has_node(m) && m != n {
                    let k0 = pre.node_index(m);
                    if k0 < idx {
                        assert(fin.nodes@[k0].id == m);
                    } else {
                        assert(k0 != idx);
                        assert(fin.nodes@[k0 - 1].id == m);
                    }
                    assert(fin.has_node(m));
                }
                if fin.has_node(m) {
                    let k1 = fin.node_index(m);
                    let o1 = if k1 < idx {
                        k1
                    } else {
                        k1 + 1
                    };
                    assert(pre.nodes@[o1].id == m);
                    assert(pre.has_node(m));
                    if m == n {
                        if o1 < idx {
                            assert(pre.nodes@[o1].id != pre.nodes@[idx].id);
                        } else {
                            assert(pre.nodes@[idx].id != pre.nodes@[o1].id);
                        }
                    }
                }
            }
            assert forall|m: NodeId| fin.has_node(m) implies fin.node_at(m) == pre.node_at(
                m,
            ) by {
                let k1 = fin.node_index(m);
                let o1 = if k1 < idx {
                    k1
                } else {
                    k1 + 1
                };
                assert(pre.nodes@[o1].id == m);
                pre.lemma_node_at(o1);
            }
            // parameter membership: survivors are exactly those owned by
            // other nodes
            assert(fin.params_distinct());
            assert forall|i: InputId| fin.input_live(i) == (pre.input_live(i) && pre.input_at(
                i,
            ).node != n) by {
                if fin.input_live(i) {
                    let j = fin.input_index(i);
                    let k0 = choose|k0: int|
                        0 <= k0 < pre.inputs@.len() && pre.inputs@[k0] == fin.inputs@[j];
                    pre.lemma_input_at(k0);
                    assert(pre.input_at(i) == fin.inputs@[j]);
                    assert(pre.input_live(i) && pre.input_at(i).node != n);
                }
                if pre.input_live(i) && pre.input_at(i).node != n {
                    let k0 = pre.input_index(i);
                    assert(fin.inputs@.contains(pre.inputs@[k0]));
                    let j = choose|j: int|
                        0 <= j < fin.inputs@.len() && fin.inputs@[j] == pre.inputs@[k0];
                    assert(fin.inputs@[j].id == i);
                    assert(fin.input_live(i));
                }
            }
            assert forall|i: InputId| fin.input_live(i) implies fin.input_at(i) == pre.input_at(
                i,
            ) by {
                let j = fin.input_index(i);
                let k0 = choose|k0: int|
                    0 <= k0 < pre.inputs@.len() && pre.inputs@[k0] == fin.inputs@[j];
                pre.lemma_input_at(k0);
            }
            assert forall|o: OutputId| fin.output_live(o) == (pre.output_live(o)
                && pre.output_at(o).node != n) by {
                if fin.output_live(o) {
                    let j = fin.output_index(o);
                    let k0 = choose|k0: int|
                        0 <= k0 < pre.outputs@.len() && pre.outputs@[k0] == fin.outputs@[j];
                    pre.lemma_output_at(k0);
                    assert(pre.output_at(o) == fin.outputs@[j]);
                    assert(pre.output_live(o) && pre.output_at(o).node != n);
                }
                if pre.output_live(o) && pre.output_at(o).node != n {
                    let k0 = pre.output_index(o);
                    assert(fin.outputs@.contains(pre.outputs@[k0]));
                    let j = choose|j: int|
                        0 <= j < fin.outputs@.len() && fin.outputs@[j] == pre.outputs@[k0];
                    assert(fin.outputs@[j].id == o);
                    assert(fin.output_live(o));
                }
            }
            assert forall|o: OutputId| fin.output_live(o) implies fin.output_at(o)
                == pre.output_at(o) by {
                let j = fin.output_index(o);
                let k0 = choose|k0: int|
                    0 <= k0 < pre.outputs@.len() && pre.outputs@[k0] == fin.outputs@[j];
                pre.lemma_output_at(k0);
            }
            // connection map: exactly the entries with two surviving
            // endpoints
            assert(fin.conn_keys_distinct());
            assert forall|i: InputId| fin.conn_of(i) == (match pre.conn_of(i) {
                Some(o) => if pre.input_at(i).node == n || pre.output_at(o).node == n {
                    None::<OutputId>
                } else {
                    Some(o)
                },
                None => None::<OutputId>,
            }) by {
                if fin.has_conn(i) {
                    let j = fin.conn_index(i);
                    let e = fin.connections@[j];
                    fin.lemma_conn_at(j);
                    let k0 = choose|k0: int|
                        0 <= k0 < pre.connections@.len() && pre.connections@[k0] == e;
                    pre.lemma_conn_at(k0);
                    assert(pre.conn_of(i) == Some(e.1));
                    assert(pre.input_at(i).node != n && pre.output_at(e.1).node != n);
                } else {
                    if pre.has_conn(i) {
                        let k0 = pre.conn_index(i);
                        let e = pre.connections@[k0];
                        if pre.input_at(i).node != n && pre.output_at(e.1).node != n {
                            assert(fin.connections@.contains(e));
                            let j = choose|j: int|
                                0 <= j < fin.connections@.len() && fin.connections@[j] == e;
                            assert(fin.connections@[j].0 == i);
                            assert(fin.has_conn(i));
                        }
                    }
                }
            }
            // well-formedness of the result, clause by clause
            assert forall|k: int| 0 <= k < fin.inputs@.len() implies fin.has_node(
                (#[trigger] fin.inputs@[k]).node,
            ) by {
                let k0 = choose|k0: int|
                    0 <= k0 < pre.inputs@.len() && pre.inputs@[k0] == fin.inputs@[k];
                assert(pre.has_node(pre.inputs@[k0].node));
            }
            assert forall|k: int| 0 <= k < fin.outputs@.len() implies fin.has_node(
                (#[trigger] fin.outputs@[k]).node,
            ) by {
                let k0 = choose|k0: int|
                    0 <= k0 < pre.outputs@.len() && pre.outputs@[k0] == fin.outputs@[k];
                assert(pre.has_node(pre.outputs@[k0].node));
            }
            assert forall|k: int, jj: int|
                0 <= k < fin.nodes@.len() && 0 <= jj < fin.nodes@[k].inputs@.len() implies {
                let i = (#[trigger] fin.nodes@[k].inputs@[jj]).1;
                &&& fin.input_live(i)
                &&& fin.input_at(i).node == fin.nodes@[k].id
            } by {
                let o1 = if k < idx {
                    k
                } else {
                    k + 1
                };
                assert(fin.nodes@[k] == pre.nodes@[o1]);
                let i = pre.nodes@[o1].inputs@[jj].1;
                assert(pre.input_live(i) && pre.input_at(i).node == pre.nodes@[o1].id);
                if o1 < idx {
                    assert(pre.nodes@[o1].id != pre.nodes@[idx].id);
                } else {
                    assert(pre.nodes@[idx].id != pre.nodes@[o1].id);
                }
                assert(pre.input_at(i).node != n);
            }
            assert forall|k: int, jj: int|
                0 <= k < fin.nodes@.len() && 0 <= jj < fin.nodes@[k].outputs@.len() implies {
                let o = (#[trigger] fin.nodes@[k].outputs@[jj]).1;
                &&& fin.output_live(o)
                &&& fin.output_at(o).node == fin.nodes@[k].id
            } by {
                let o1 = if k < idx {
                    k
                } else {
                    k + 1
                };
                assert(fin.nodes@[k] == pre.nodes@[o1]);
                let o = pre.nodes@[o1].outputs@[jj].1;
                assert(pre.output_live(o) && pre.output_at(o).node == pre.nodes@[o1].id);
                if o1 < idx {
                    assert(pre.nodes@[o1].id != pre.nodes@[idx].id);
                } else {
                    assert(pre.nodes@[idx].id != pre.nodes@[o1].id);
                }
                assert(pre.output_at(o).node != n);
            }
            assert forall|k: int| 0 <= k < fin.connections@.len() implies {
                let (i, o) = #[trigger] fin.connections@[k];
                &&& fin.input_live(i)
                &&& fin.output_live(o)
                &&& fin.input_at(i).node != fin.output_at(o).node
            } by {
                let e = fin.connections@[k];
                let k0 = choose|k0: int|
                    0 <= k0 < pre.connections@.len() && pre.connections@[k0] == e;
                assert(pre.input_live(e.0) && pre.output_live(e.1));
                assert(pre.input_at(e.0).node != pre.output_at(e.1).node);
                assert(pre.input_at(e.0).node != n && pre.output_at(e.1).node != n);
            }
            assert forall|k: int| 0 <= k < fin.nodes@.len() implies (
            #[trigger] fin.nodes@[k]).id.0 < fin.next_id by {
                let o1 = if k < idx {
                    k
                } else {
                    k + 1
                };
                assert(pre.nodes@[o1].id.0 < pre.next_id);
            }
            assert forall|k: int| 0 <= k < fin.inputs@.len() implies (
            #[trigger] fin.inputs@[k]).id.0 < fin.next_id by {
                let k0 = choose|k0: int|
                    0 <= k0 < pre.inputs@.len() && pre.inputs@[k0] == fin.inputs@[k];
                assert(pre.inputs@[k0].id.0 < pre.next_id);
            }
            assert forall|k: int| 0 <= k < fin.outputs@.len() implies (
            #[trigger] fin.outputs@[k]).id.0 < fin.next_id by {
                let k0 = choose|k0: int|
                    0 <= k0 < pre.outputs@.len() && pre.outputs@[k0] == fin.outputs@[k];
                assert(pre.outputs@[k0].id.0 < pre.next_id);
            }
            assert(fin.wf());
        }
        Ok(())
    }

    /// The ids of all live nodes, in arena order.
    pub fn iter_nodes(&self) -> (r: Vec<NodeId>)
        ensures
            r@.len() == self.nodes@.len(),
            forall|k: int| 0 <= k < r@.len() ==> r@[k] == (#[trigger] self.nodes@[k]).id,
    {
        let mut out: Vec<NodeId> = Vec::new();
        let mut k: usize = 0;
        while k < self.nodes.len()
            invariant
                k <= self.nodes@.len(),
                out@.len() == k,
                forall|j: int| 0 <= j < k ==> out@[j] == (#[trigger] self.nodes@[j]).id,
            decreases self.nodes@.len() - k,
        {
            out.push(self.nodes[k].id);
            k += 1;
        }
        out
    }

    /// All (input, output) pairs currently connected, in stable store order.
    pub fn iter_connections(&self) -> (r: Vec<(InputId, OutputId)>)
        ensures
            r@ == self.connections@,
    {
        let mut out: Vec<(InputId, OutputId)> = Vec::new();
        let mut k: usize = 0;
        while k < self.connections.len()
            invariant
                k <= self.connections@.len(),
                out@ == self.connections@.subrange(0, k as int),
            decreases self.connections@.len() - k,
        {
            out.push(self.connections[k]);
            k += 1;
            proof {
                assert(out@ =~= self.connections@.subrange(0, k as int));
            }
        }
        proof {
            assert(out@ =~= self.connections@);
        }
        out
    }
}

} // verus!
