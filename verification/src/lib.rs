//! Core of an embeddable node-graph editor: a typed graph store (nodes with
//! input/output ports and a single-valued input-to-output connection map)
//! together with the per-frame interaction state machine that turns pointer
//! input into graph mutations and a stream of discrete edit events.
//!
//! Rendering, layout and input capture belong to the host; this crate owns the
//! data model, its invariants, and the rules that reduce one frame's input to
//! mutations and events.

pub mod editor;
pub mod frame;
pub mod geom;
pub mod graph;
pub mod ids;
pub mod widget;
