use vstd::prelude::*;

verus! {

/// Stable, opaque handle of a node instance. Ids are handed out from a
/// monotone counter and never reused while the graph lives.
#[derive(Clone, Copy, PartialEq, Eq, Structural, Debug)]
pub struct NodeId(pub u64);

/// Handle of a single input parameter slot; each belongs to exactly one node.
#[derive(Clone, Copy, PartialEq, Eq, Structural, Debug)]
pub struct InputId(pub u64);

/// Handle of a single output parameter slot; each belongs to exactly one node.
#[derive(Clone, Copy, PartialEq, Eq, Structural, Debug)]
pub struct OutputId(pub u64);

/// A port of either polarity: wherever a drag endpoint or a registry key can
/// be an input or an output, this tagged union carries it.
#[derive(Clone, Copy, PartialEq, Eq, Structural, Debug)]
pub enum AnyParameterId {
    Input(InputId),
    Output(OutputId),
}

/// How an input parameter may be fed: only by a connection, only by an inline
/// constant (such an input never shows a port and can never be connected), or
/// by either.
#[derive(Clone, Copy, PartialEq, Eq, Structural, Debug)]
pub enum InputParamKind {
    ConnectionOnly,
    ConstantOnly,
    ConnectionOrConstant,
}

/// Opaque tag naming a port's data type; two ports may be wired together only
/// when their tags are equal. The host decides what each tag means.
#[derive(Clone, Copy, PartialEq, Eq, Structural, Debug)]
pub struct DataType(pub u64);

} // verus!
