use vstd::prelude::*;

verus! {

/// Compatibility tag of a pin that carries a number.
pub const PIN_NUM: usize = 1;

/// Compatibility tag of a pin that carries a string.
pub const PIN_STR: usize = 2;

/// Mask of the Sink input: it accepts both numbers and strings.
pub const PIN_SINK: usize = 3;

/// Node variants of the editor graph.
#[derive(Debug, PartialEq, Eq)]
pub enum EditorNode {
    /// Displays the value of the connected input.
    Sink,
    /// Outputs a number, held as the bit pattern of an IEEE-754 double.
    Number(u64),
    /// Outputs a string.
    String(String),
}

impl Clone for EditorNode {
    fn clone(&self) -> (r: EditorNode)
        ensures
            r == *self,
    {
        match self {
            EditorNode::Sink => EditorNode::Sink,
            EditorNode::Number(v) => EditorNode::Number(*v),
            EditorNode::String(s) => EditorNode::String(s.clone()),
        }
    }
}

/// The node kinds that menus offer for insertion.
#[derive(Clone, Copy, Debug, PartialEq, Eq, Structural)]
pub enum NodeKind {
    Sink,
    Number,
    String,
}

/// Number of input pins of a node.
pub open spec fn spec_inputs(node: EditorNode) -> nat {
    match node {
        EditorNode::Sink => 1,
        _ => 0,
    }
}

/// Number of output pins of a node.
pub open spec fn spec_outputs(node: EditorNode) -> nat {
    match node {
        EditorNode::Sink => 0,
        _ => 1,
    }
}

/// Compatibility mask of a node's output pins.
pub open spec fn out_mask(node: EditorNode) -> usize {
    match node {
        EditorNode::Sink => 0,
        EditorNode::Number(_) => PIN_NUM,
        EditorNode::String(_) => PIN_STR,
    }
}

/// Compatibility mask of a node's input pins.
pub open spec fn in_mask(node: EditorNode) -> usize {
    match node {
        EditorNode::Sink => PIN_SINK,
        _ => 0,
    }
}

/// Title shown in a node's header.
pub open spec fn spec_title(node: EditorNode) -> Seq<char> {
    match node {
        EditorNode::Sink => "Sink"@,
        EditorNode::Number(_) => "Number"@,
        EditorNode::String(_) => "String"@,
    }
}

/// Header fill colour of a node, as red, green and blue.
pub open spec fn spec_header_rgb(node: EditorNode) -> (u8, u8, u8) {
    match node {
        EditorNode::Sink => (70, 70, 80),
        EditorNode::Number(_) => (70, 40, 40),
        EditorNode::String(_) => (40, 70, 40),
    }
}

/// Colour of a pin that carries a value of the given node, as red, green and blue.
pub open spec fn spec_value_rgb(node: EditorNode) -> (u8, u8, u8) {
    match node {
        EditorNode::Sink => (0xb0, 0xb0, 0xb0),
        EditorNode::Number(_) => (0xb0, 0x00, 0x00),
        EditorNode::String(_) => (0x00, 0xb0, 0x00),
    }
}

/// A node is the fresh one that a menu inserts for a kind: a Sink, the
/// number zero, or the empty string.
pub open spec fn is_template(kind: NodeKind, node: EditorNode) -> bool {
    match kind {
        NodeKind::Sink => node is Sink,
        NodeKind::Number => node == EditorNode::Number(0),
        NodeKind::String => node is String && node->String_0@.len() == 0,
    }
}

/// Output mask of the node that a kind inserts.
pub open spec fn kind_out_mask(kind: NodeKind) -> usize {
    match kind {
        NodeKind::Sink => 0,
        NodeKind::Number => PIN_NUM,
        NodeKind::String => PIN_STR,
    }
}

/// Compatibility mask of a node's output pins.
pub fn pin_out_compat(node: &EditorNode) -> (r: usize)
    ensures
        r == out_mask(*node),
{
    match node {
        EditorNode::Sink => 0,
        EditorNode::Number(_) => PIN_NUM,
        EditorNode::String(_) => PIN_STR,
    }
}

/// Compatibility mask of a node's input pins.
pub fn pin_in_compat(node: &EditorNode) -> (r: usize)
    ensures
        r == in_mask(*node),
{
    match node {
        EditorNode::Sink => PIN_SINK,
        EditorNode::Number(_) | EditorNode::String(_) => 0,
    }
}

/// Output mask of the node that a kind inserts.
pub fn kind_out_compat(kind: NodeKind) -> (r: usize)
    ensures
        r == kind_out_mask(kind),
{
    match kind {
        NodeKind::Sink => 0,
        NodeKind::Number => PIN_NUM,
        NodeKind::String => PIN_STR,
    }
}

/// The fresh node that a menu inserts for a kind.
pub fn template(kind: NodeKind) -> (r: EditorNode)
    ensures
        is_template(kind, r),
{
    match kind {
        NodeKind::Sink => EditorNode::Sink,
        NodeKind::Number => EditorNode::Number(0),
        NodeKind::String => EditorNode::String(String::new()),
    }
}

/// Number of input pins of a node.
pub fn node_inputs(node: &EditorNode) -> (r: usize)
    ensures
        r == spec_inputs(*node),
{
    match node {
        EditorNode::Sink => 1,
        EditorNode::Number(_) | EditorNode::String(_) => 0,
    }
}

/// Number of output pins of a node.
pub fn node_outputs(node: &EditorNode) -> (r: usize)
    ensures
        r == spec_outputs(*node),
{
    match node {
        EditorNode::Sink => 0,
        EditorNode::Number(_) | EditorNode::String(_) => 1,
    }
}

} // verus!
