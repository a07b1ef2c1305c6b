//! The intermediate representation: an arena of immutable nodes, each a
//! constant, a graph input, an operator application or the synthetic
//! output-collection root, wired by edges that name a producer node and one
//! of its output slots.
//!
//! Sharing is by arena index: for a given output name exactly one node is
//! built, and every consumer edge for that name carries the same index.
//! Edges always point to earlier arena slots, so a well-formed graph is
//! acyclic by construction.
use vstd::prelude::*;

use crate::name_map::NameMap;
use crate::tensor::DataTypeError;
use crate::tensor::Shape;
use crate::tensor::Tensor;

verus! {

/// A resolved operator attribute value. Floats are carried as IEEE-754 bit
/// patterns.
pub enum AttributeValue {
    I64(i64),
    F32(u32),
    I64s(Vec<i64>),
    F32s(Vec<u32>),
    Text(String),
    Tensor(Tensor),
}

/// An operator application: its type tag, attributes by name, resolved
/// output shapes, and a display name.
pub struct OperatorDefinition {
    pub op_type: String,
    pub attributes: NameMap<AttributeValue>,
    pub output_shapes: Vec<Shape>,
    pub display_name: String,
}

/// What an IR node stands for.
pub enum NodeDefinition {
    /// An operator application.
    Operator(OperatorDefinition),
    /// A constant tensor (an initializer or a folded value).
    Tensor(Tensor),
    /// A graph input with its declared shape.
    Input { name: String, shape: Shape },
    /// The synthetic root that collects the requested outputs.
    Outputs { names: Vec<String> },
    /// The placeholder bound where an optional operand is explicitly
    /// omitted (an empty input name).
    Missing,
}

/// An edge to a producer node: the producer's arena index and which of its
/// output slots feeds this consumer.
#[derive(Clone, Copy, PartialEq, Eq, Structural, Debug)]
pub struct Input {
    pub source_node: usize,
    pub output_index: usize,
}

/// An IR node: what it is, plus one edge per declared input.
pub struct Node {
    pub definition: NodeDefinition,
    pub inputs: Vec<Input>,
}

impl Node {
    pub fn new(definition: NodeDefinition, inputs: Vec<Input>) -> (r: Node)
        ensures
            r.definition == definition,
            r.inputs == inputs,
    {
        Node { definition, inputs }
    }
}

/// Every edge of `node` points strictly below `bound`.
pub open spec fn node_edges_below(node: Node, bound: int) -> bool {
    forall|k: int| 0 <= k < node.inputs@.len() ==> (#[trigger] node.inputs@[k]).source_node < bound
}

/// Every node's edges point to strictly earlier arena slots, so the arena
/// order is a topological order and the graph is acyclic.
pub open spec fn arena_acyclic(nodes: Seq<Node>) -> bool {
    forall|i: int| 0 <= i < nodes.len() ==> node_edges_below(#[trigger] nodes[i], i)
}

/// Errors raised while building the IR from a model.
#[derive(Debug, PartialEq, Eq)]
pub enum IrError {
    /// A requested output is produced by no node, or a node's output has no
    /// declared shape.
    OutputNodeNotFound(String),
    /// A node references a non-empty input name that no node, initializer
    /// or graph input provides.
    InputNodeNotFound { target_node_name: String, input_name: String },
    /// Two producers declare the same output name.
    DuplicateOutputName(String),
    /// The model's nodes consume each other in a cycle around the named
    /// node.
    Cyclic(String),
    /// A declared type, shape or data buffer is invalid.
    Type(DataTypeError),
}

/// A built IR graph: the node arena, the built nodes indexed by output
/// name, and the arena index of the output-collection root.
pub struct IrGraph {
    pub nodes: Vec<Node>,
    pub by_name: NameMap<usize>,
    pub root: usize,
}

impl IrGraph {
    /// The arena is acyclic, every name binding points into the arena, and
    /// the root is the arena's last node.
    pub open spec fn wf(self) -> bool {
        &&& arena_acyclic(self.nodes@)
        &&& forall|n: Seq<char>| #[trigger]
            self.by_name@.contains_key(n) ==> self.by_name@[n] < self.nodes@.len()
        &&& self.nodes@.len() > 0
        &&& self.root == self.nodes@.len() - 1
    }
}

} // verus!
