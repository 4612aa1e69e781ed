use vstd::prelude::*;
use egui_snarl::Snarl;
use crate::nodes::{EditorNode, in_mask, out_mask, pin_in_compat, pin_out_compat, spec_inputs, spec_outputs};

verus! {

#[verifier::external_type_specification]
#[verifier::external_body]
#[verifier::reject_recursive_types(T)]
pub struct ExSnarl<T>(egui_snarl::Snarl<T>);

#[verifier::external_type_specification]
#[verifier::external_body]
pub struct ExPos2(egui::Pos2);

/// An output pin: node identifier and output index.
#[derive(Clone, Copy, Debug, PartialEq, Eq, Structural)]
pub struct OutPin {
    pub node: usize,
    pub output: usize,
}

/// An input pin: node identifier and input index.
#[derive(Clone, Copy, Debug, PartialEq, Eq, Structural)]
pub struct InPin {
    pub node: usize,
    pub input: usize,
}

/// Why a graph operation was refused.
#[derive(Clone, Copy, Debug, PartialEq, Eq, Structural)]
pub enum GraphError {
    /// A node identifier names no node of the graph.
    NotFound,
    /// A pin does not exist on its node, or the two pins cannot carry a common value.
    InvalidPin,
    /// Several output pins were dragged at once.
    UnsupportedGesture,
}

/// The nodes that a graph holds, by identifier.
pub uninterp spec fn snarl_nodes(s: Snarl<EditorNode>) -> Map<usize, EditorNode>;

/// The wires that a graph holds, each from an output pin to an input pin.
pub uninterp spec fn snarl_wires(s: Snarl<EditorNode>) -> Set<(OutPin, InPin)>;

/// The key that the next inserted node takes.
pub uninterp spec fn snarl_next_key(s: Snarl<EditorNode>) -> usize;

/// The node store has no free slot: every key below the next one is taken.
pub uninterp spec fn snarl_dense(s: Snarl<EditorNode>) -> bool;

/// Mask of an output pin in a node table: zero where the pin does not exist.
pub open spec fn out_pin_mask(nodes: Map<usize, EditorNode>, p: OutPin) -> usize {
    if nodes.contains_key(p.node) && p.output < spec_outputs(nodes[p.node]) {
        out_mask(nodes[p.node])
    } else {
        0
    }
}

/// Mask of an input pin in a node table: zero where the pin does not exist.
pub open spec fn in_pin_mask(nodes: Map<usize, EditorNode>, p: InPin) -> usize {
    if nodes.contains_key(p.node) && p.input < spec_inputs(nodes[p.node]) {
        in_mask(nodes[p.node])
    } else {
        0
    }
}

/// Two pins can be wired: their masks have a tag in common.
pub open spec fn connectable(nodes: Map<usize, EditorNode>, from: OutPin, to: InPin) -> bool {
    out_pin_mask(nodes, from) & in_pin_mask(nodes, to) != 0
}

/// The wires into one input pin.
pub open spec fn wires_into(wires: Set<(OutPin, InPin)>, to: InPin) -> Set<(OutPin, InPin)> {
    wires.filter(|w: (OutPin, InPin)| w.1 == to)
}

/// The wires out of one output pin.
pub open spec fn wires_out_of(wires: Set<(OutPin, InPin)>, from: OutPin) -> Set<(OutPin, InPin)> {
    wires.filter(|w: (OutPin, InPin)| w.0 == from)
}

/// The wires that touch neither pin of a node.
pub open spec fn wires_without_node(wires: Set<(OutPin, InPin)>, id: usize) -> Set<(OutPin, InPin)> {
    wires.filter(|w: (OutPin, InPin)| w.0.node != id && w.1.node != id)
}

/// What a successful connect leaves: the input's old wire gives way to the new one.
pub open spec fn wires_after_connect(wires: Set<(OutPin, InPin)>, from: OutPin, to: InPin) -> Set<(OutPin, InPin)> {
    wires.filter(|w: (OutPin, InPin)| w.1 != to).insert((from, to))
}

/// A graph is well formed: every wire joins two compatible pins that exist,
/// and no input pin carries more than one wire.
pub open spec fn graph_wf(nodes: Map<usize, EditorNode>, wires: Set<(OutPin, InPin)>) -> bool {
    &&& forall|w: (OutPin, InPin)| #[trigger] wires.contains(w) ==> connectable(nodes, w.0, w.1)
    &&& forall|a: (OutPin, InPin), b: (OutPin, InPin)|
        #[trigger] wires.contains(a) && #[trigger] wires.contains(b) && a.1 == b.1 ==> a == b
}

/// A graph value is well formed.
pub open spec fn snarl_wf(s: Snarl<EditorNode>) -> bool {
    graph_wf(snarl_nodes(s), snarl_wires(s))
}

/// Masks are unions of the two tags; a zero mask meets nothing.
pub proof fn lemma_mask_facts(x: usize)
    ensures
        0usize & x == 0,
        x & 0usize == 0,
        1usize & 3usize == 1,
        2usize & 3usize == 2,
        3usize & 1usize == 1,
        3usize & 2usize == 2,
        1usize & 2usize == 0,
        2usize & 1usize == 0,
        1usize & 1usize == 1,
        2usize & 2usize == 2,
{
    assert(0usize & x == 0) by (bit_vector);
    assert(x & 0usize == 0) by (bit_vector);
    assert(1usize & 3usize == 1) by (bit_vector);
    assert(2usize & 3usize == 2) by (bit_vector);
    assert(3usize & 1usize == 1) by (bit_vector);
    assert(3usize & 2usize == 2) by (bit_vector);
    assert(1usize & 2usize == 0) by (bit_vector);
    assert(2usize & 1usize == 0) by (bit_vector);
    assert(1usize & 1usize == 1) by (bit_vector);
    assert(2usize & 2usize == 2) by (bit_vector);
}

/// Connecting to an input, whatever wires it held, leaves exactly the new
/// wire into it; so after any run of successful connects to one input it
/// holds one wire, from the most recent, and connects to other inputs keep it.
pub proof fn lemma_last_connect_wins(wires: Set<(OutPin, InPin)>, from: OutPin, to: InPin, other: OutPin, elsewhere: InPin)
    requires
        elsewhere != to,
    ensures
        wires_into(wires_after_connect(wires, from, to), to) == set![(from, to)],
        wires_into(wires_after_connect(wires_after_connect(wires, from, to), other, elsewhere), to)
            == set![(from, to)],
{
    assert(wires_into(wires_after_connect(wires, from, to), to) =~= set![(from, to)]);
    assert(wires_into(wires_after_connect(wires_after_connect(wires, from, to), other, elsewhere), to)
        =~= set![(from, to)]);
}

/// Once a node is removed, no wire has an end on it and its key is absent,
/// so a lookup of it reports `NotFound`.
pub proof fn lemma_removed_node_gone(wires: Set<(OutPin, InPin)>, nodes: Map<usize, EditorNode>, id: usize)
    ensures
        !nodes.remove(id).contains_key(id),
        forall|w: (OutPin, InPin)| #[trigger] wires_without_node(wires, id).contains(w)
            ==> w.0.node != id && w.1.node != id,
{
}

/// Relies on Snarl::new: a graph with no nodes and no wires.
#[verifier::external_body]
fn snarl_new() -> (r: Snarl<EditorNode>)
    ensures
        snarl_nodes(r).dom().is_empty(),
        snarl_wires(r).is_empty(),
        snarl_dense(r),
        snarl_next_key(r) == 0,
{
    Snarl::new()
}

/// Relies on Snarl::insert_node: the node goes under a vacant key, wires stay.
/// The key is the slab's next key; in a slab with no free slot that is one
/// past the last, and the slab stays without one.
#[verifier::external_body]
fn snarl_insert(s: &mut Snarl<EditorNode>, pos: egui::Pos2, node: EditorNode) -> (r: usize)
    ensures
        r == snarl_next_key(*old(s)),
        snarl_dense(*old(s)) ==> snarl_dense(*final(s)) && snarl_next_key(*final(s)) == r + 1,
        !snarl_nodes(*old(s)).contains_key(r),
        snarl_nodes(*final(s)) == snarl_nodes(*old(s)).insert(r, node),
        snarl_wires(*final(s)) == snarl_wires(*old(s)),
{
    s.insert_node(pos, node).0
}

/// Relies on Snarl::remove_node: the node and every wire touching it go.
/// It panics on a missing node.
#[verifier::external_body]
fn snarl_remove(s: &mut Snarl<EditorNode>, id: usize) -> (r: EditorNode)
    requires
        snarl_nodes(*old(s)).contains_key(id),
    ensures
        r == snarl_nodes(*old(s))[id],
        snarl_nodes(*final(s)) == snarl_nodes(*old(s)).remove(id),
        snarl_wires(*final(s)) == wires_without_node(snarl_wires(*old(s)), id),
{
    s.remove_node(egui_snarl::NodeId(id))
}

/// Relies on Snarl::connect: the wire is added to the set.
/// It panics where either node is missing.
#[verifier::external_body]
fn snarl_connect(s: &mut Snarl<EditorNode>, from: OutPin, to: InPin) -> (r: bool)
    requires
        snarl_nodes(*old(s)).contains_key(from.node),
        snarl_nodes(*old(s)).contains_key(to.node),
    ensures
        r == !snarl_wires(*old(s)).contains((from, to)),
        snarl_nodes(*final(s)) == snarl_nodes(*old(s)),
        snarl_wires(*final(s)) == snarl_wires(*old(s)).insert((from, to)),
{
    s.connect(
        egui_snarl::OutPinId { node: egui_snarl::NodeId(from.node), output: from.output },
        egui_snarl::InPinId { node: egui_snarl::NodeId(to.node), input: to.input },
    )
}

/// Relies on Snarl::disconnect: the wire is taken out of the set.
/// It panics where either node is missing.
#[verifier::external_body]
fn snarl_disconnect(s: &mut Snarl<EditorNode>, from: OutPin, to: InPin) -> (r: bool)
    requires
        snarl_nodes(*old(s)).contains_key(from.node),
        snarl_nodes(*old(s)).contains_key(to.node),
    ensures
        r == snarl_wires(*old(s)).contains((from, to)),
        snarl_nodes(*final(s)) == snarl_nodes(*old(s)),
        snarl_wires(*final(s)) == snarl_wires(*old(s)).remove((from, to)),
{
    s.disconnect(
        egui_snarl::OutPinId { node: egui_snarl::NodeId(from.node), output: from.output },
        egui_snarl::InPinId { node: egui_snarl::NodeId(to.node), input: to.input },
    )
}

/// Relies on Snarl::drop_inputs: every wire into the pin goes.
/// It panics on a missing node.
#[verifier::external_body]
fn snarl_drop_inputs(s: &mut Snarl<EditorNode>, to: InPin)
    requires
        snarl_nodes(*old(s)).contains_key(to.node),
    ensures
        snarl_nodes(*final(s)) == snarl_nodes(*old(s)),
        snarl_wires(*final(s)) == snarl_wires(*old(s)).filter(|w: (OutPin, InPin)| w.1 != to),
{
    s.drop_inputs(egui_snarl::InPinId { node: egui_snarl::NodeId(to.node), input: to.input });
}

/// Relies on Snarl::get_node: the node under the key, if any.
#[verifier::external_body]
fn snarl_get(s: &Snarl<EditorNode>, id: usize) -> (r: Option<&EditorNode>)
    ensures
        r == (if snarl_nodes(*s).contains_key(id) {
            Some(&snarl_nodes(*s)[id])
        } else {
            None::<&EditorNode>
        }),
{
    s.get_node(egui_snarl::NodeId(id))
}

/// Relies on Snarl::nodes_pos_ids: every node once, with its position, in
/// ascending key order, as the slab walks its entries.
#[verifier::external_body]
pub(crate) fn snarl_node_list(s: &Snarl<EditorNode>) -> (r: Vec<(usize, egui::Pos2, EditorNode)>)
    ensures
        forall|i: int, j: int| 0 <= i < j < r@.len() ==> r@[i].0 < r@[j].0,
        forall|i: int| 0 <= i < r@.len() ==> snarl_nodes(*s).contains_key(#[trigger] r@[i].0)
            && snarl_nodes(*s)[r@[i].0] == r@[i].2,
        forall|k: usize| #[trigger] snarl_nodes(*s).contains_key(k) ==> exists|i: int| 0 <= i < r@.len() && r@[i].0 == k,
{
    s.nodes_pos_ids().map(|(id, pos, node)| (id.0, pos, node.clone())).collect()
}

/// Relies on Snarl::wires: every wire once, in an order that is left open.
#[verifier::external_body]
pub(crate) fn snarl_wire_list(s: &Snarl<EditorNode>) -> (r: Vec<(OutPin, InPin)>)
    ensures
        r@.to_set() == snarl_wires(*s),
        r@.no_duplicates(),
{
    s.wires().map(|(o, i)| (
        OutPin { node: o.node.0, output: o.output },
        InPin { node: i.node.0, input: i.input },
    )).collect()
}

/// A wire between two pins that can be wired joins two nodes that exist.
pub proof fn lemma_connectable_nodes_exist(nodes: Map<usize, EditorNode>, from: OutPin, to: InPin)
    requires
        connectable(nodes, from, to),
    ensures
        nodes.contains_key(from.node),
        nodes.contains_key(to.node),
        out_pin_mask(nodes, from) != 0,
        in_pin_mask(nodes, to) != 0,
{
    lemma_mask_facts(in_pin_mask(nodes, to));
    lemma_mask_facts(out_pin_mask(nodes, from));
}

/// Mask of an output pin of a graph: zero where the pin does not exist.
pub fn out_pin_compat(snarl: &Snarl<EditorNode>, p: OutPin) -> (r: usize)
    ensures
        r == out_pin_mask(snarl_nodes(*snarl), p),
{
    match snarl_get(snarl, p.node) {
        Some(node) => {
            if p.output < crate::nodes::node_outputs(node) {
                pin_out_compat(node)
            } else {
                0
            }
        },
        None => 0,
    }
}

/// Mask of an input pin of a graph: zero where the pin does not exist.
pub fn in_pin_compat(snarl: &Snarl<EditorNode>, p: InPin) -> (r: usize)
    ensures
        r == in_pin_mask(snarl_nodes(*snarl), p),
{
    match snarl_get(snarl, p.node) {
        Some(node) => {
            if p.input < crate::nodes::node_inputs(node) {
                pin_in_compat(node)
            } else {
                0
            }
        },
        None => 0,
    }
}

/// A new graph with no nodes and no wires.
pub fn new_graph() -> (r: Snarl<EditorNode>)
    ensures
        snarl_nodes(r).dom().is_empty(),
        snarl_wires(r).is_empty(),
        snarl_wf(r),
        snarl_dense(r),
        snarl_next_key(r) == 0,
{
    snarl_new()
}

/// Inserts a node at a canvas position and returns its fresh identifier.
pub fn insert_node(snarl: &mut Snarl<EditorNode>, pos: egui::Pos2, node: EditorNode) -> (r: usize)
    ensures
        !snarl_nodes(*old(snarl)).contains_key(r),
        snarl_nodes(*final(snarl)) == snarl_nodes(*old(snarl)).insert(r, node),
        snarl_wires(*final(snarl)) == snarl_wires(*old(snarl)),
        snarl_wf(*old(snarl)) ==> snarl_wf(*final(snarl)),
        r == snarl_next_key(*old(snarl)),
        snarl_dense(*old(snarl)) ==> snarl_dense(*final(snarl)) && snarl_next_key(*final(snarl)) == r + 1,
{
    let ghost before = snarl_nodes(*snarl);
    let r = snarl_insert(snarl, pos, node);
    proof {
        let after = snarl_nodes(*snarl);
        assert forall|w: (OutPin, InPin)| #[trigger] snarl_wires(*snarl).contains(w) && snarl_wf(*old(snarl))
            implies connectable(after, w.0, w.1) by {
            lemma_connectable_nodes_exist(before, w.0, w.1);
        }
    }
    r
}

/// Removes a node and every wire with an end on it, and returns the node.
pub fn remove_node(snarl: &mut Snarl<EditorNode>, id: usize) -> (r: Result<EditorNode, GraphError>)
    ensures
        snarl_nodes(*old(snarl)).contains_key(id) <==> r is Ok,
        r is Ok ==> r->Ok_0 == snarl_nodes(*old(snarl))[id],
        r is Ok ==> snarl_nodes(*final(snarl)) == snarl_nodes(*old(snarl)).remove(id),
        r is Ok ==> snarl_wires(*final(snarl)) == wires_without_node(snarl_wires(*old(snarl)), id),
        r is Err ==> r == Err::<EditorNode, GraphError>(GraphError::NotFound) && *final(snarl) == *old(snarl),
        !snarl_nodes(*final(snarl)).contains_key(id),
        forall|w: (OutPin, InPin)| #[trigger] snarl_wires(*final(snarl)).contains(w)
            ==> w.0.node != id && w.1.node != id || !snarl_nodes(*old(snarl)).contains_key(id),
        snarl_wf(*old(snarl)) ==> snarl_wf(*final(snarl)),
{
    match snarl_get(snarl, id) {
        None => {
            proof {
                assert forall|w: (OutPin, InPin)| #[trigger] snarl_wires(*snarl).contains(w) && snarl_wf(*snarl)
                    implies w.0.node != id && w.1.node != id by {
                    lemma_connectable_nodes_exist(snarl_nodes(*snarl), w.0, w.1);
                }
            }
            Err(GraphError::NotFound)
        },
        Some(_) => {
            let ghost before = snarl_nodes(*snarl);
            let node = snarl_remove(snarl, id);
            proof {
                let after = snarl_nodes(*snarl);
                assert forall|w: (OutPin, InPin)| #[trigger] snarl_wires(*snarl).contains(w) && snarl_wf(*old(snarl))
                    implies connectable(after, w.0, w.1) by {
                    assert(snarl_wires(*old(snarl)).contains(w));
                }
            }
            Ok(node)
        },
    }
}

/// Wires an output pin to an input pin. The input's previous wire, if any,
/// gives way to the new one.
pub fn connect(snarl: &mut Snarl<EditorNode>, from: OutPin, to: InPin) -> (r: Result<(), GraphError>)
    ensures
        r == (if !snarl_nodes(*old(snarl)).contains_key(from.node) || !snarl_nodes(*old(snarl)).contains_key(to.node) {
            Err::<(), GraphError>(GraphError::NotFound)
        } else if !connectable(snarl_nodes(*old(snarl)), from, to) {
            Err::<(), GraphError>(GraphError::InvalidPin)
        } else {
            Ok::<(), GraphError>(())
        }),
        snarl_nodes(*final(snarl)) == snarl_nodes(*old(snarl)),
        r is Ok ==> snarl_wires(*final(snarl)) == wires_after_connect(snarl_wires(*old(snarl)), from, to),
        r is Ok ==> wires_into(snarl_wires(*final(snarl)), to) == set![(from, to)],
        r is Err ==> *final(snarl) == *old(snarl),
        snarl_wf(*old(snarl)) ==> snarl_wf(*final(snarl)),
{
    if snarl_get(snarl, from.node).is_none() || snarl_get(snarl, to.node).is_none() {
        return Err(GraphError::NotFound);
    }
    let out_ty = out_pin_compat(snarl, from);
    let in_ty = in_pin_compat(snarl, to);
    if out_ty & in_ty == 0 {
        return Err(GraphError::InvalidPin);
    }
    snarl_drop_inputs(snarl, to);
    snarl_connect(snarl, from, to);
    proof {
        let nodes = snarl_nodes(*snarl);
        let wires = snarl_wires(*snarl);
        assert(wires_into(wires, to) =~= set![(from, to)]);
        if snarl_wf(*old(snarl)) {
            assert forall|a: (OutPin, InPin), b: (OutPin, InPin)|
                #[trigger] wires.contains(a) && #[trigger] wires.contains(b) && a.1 == b.1 implies a == b by {
                if a.1 != to {
                    assert(snarl_wires(*old(snarl)).contains(a));
                    assert(snarl_wires(*old(snarl)).contains(b));
                }
            }
            assert forall|w: (OutPin, InPin)| #[trigger] wires.contains(w) implies connectable(nodes, w.0, w.1) by {
                if w != (from, to) {
                    assert(snarl_wires(*old(snarl)).contains(w));
                }
            }
        }
    }
    Ok(())
}

/// Removes the wire between two pins, where there is one.
pub fn disconnect(snarl: &mut Snarl<EditorNode>, from: OutPin, to: InPin) -> (r: Result<(), GraphError>)
    ensures
        r is Ok <==> snarl_nodes(*old(snarl)).contains_key(from.node) && snarl_nodes(*old(snarl)).contains_key(to.node),
        r is Err ==> r == Err::<(), GraphError>(GraphError::NotFound) && *final(snarl) == *old(snarl),
        snarl_nodes(*final(snarl)) == snarl_nodes(*old(snarl)),
        r is Ok ==> snarl_wires(*final(snarl)) == snarl_wires(*old(snarl)).remove((from, to)),
        snarl_wf(*old(snarl)) ==> snarl_wf(*final(snarl)),
{
    if snarl_get(snarl, from.node).is_none() || snarl_get(snarl, to.node).is_none() {
        return Err(GraphError::NotFound);
    }
    snarl_disconnect(snarl, from, to);
    proof {
        if snarl_wf(*old(snarl)) {
            let wires = snarl_wires(*snarl);
            assert forall|a: (OutPin, InPin), b: (OutPin, InPin)|
                #[trigger] wires.contains(a) && #[trigger] wires.contains(b) && a.1 == b.1 implies a == b by {
                assert(snarl_wires(*old(snarl)).contains(a));
                assert(snarl_wires(*old(snarl)).contains(b));
            }
            assert forall|w: (OutPin, InPin)| #[trigger] wires.contains(w) implies connectable(snarl_nodes(*snarl), w.0, w.1) by {
                assert(snarl_wires(*old(snarl)).contains(w));
            }
        }
    }
    Ok(())
}

/// Looks a node up by identifier.
pub fn get(snarl: &Snarl<EditorNode>, id: usize) -> (r: Result<&EditorNode, GraphError>)
    ensures
        r == (if snarl_nodes(*snarl).contains_key(id) {
            Ok::<&EditorNode, GraphError>(&snarl_nodes(*snarl)[id])
        } else {
            Err::<&EditorNode, GraphError>(GraphError::NotFound)
        }),
{
    match snarl_get(snarl, id) {
        Some(n) => Ok(n),
        None => Err(GraphError::NotFound),
    }
}

/// The wires into an input pin: none or, in a well-formed graph, one.
pub fn connections_into(snarl: &Snarl<EditorNode>, to: InPin) -> (r: Vec<(OutPin, InPin)>)
    ensures
        r@.to_set() == wires_into(snarl_wires(*snarl), to),
        r@.no_duplicates(),
        snarl_wf(*snarl) ==> r@.len() <= 1,
{
    let all = snarl_wire_list(snarl);
    let mut out: Vec<(OutPin, InPin)> = Vec::new();
    let mut i: usize = 0;
    while i < all.len()
        invariant
            i <= all@.len(),
            all@.no_duplicates(),
            out@.no_duplicates(),
            forall|k: int| 0 <= k < out@.len() ==> (#[trigger] out@[k]).1 == to
                && exists|j: int| 0 <= j < i && all@[j] == out@[k],
            forall|j: int| 0 <= j < i && (#[trigger] all@[j]).1 == to ==> out@.contains(all@[j]),
        decreases all@.len() - i,
    {
        let w = all[i];
        if w.1 == to {
            proof {
                assert forall|k: int| 0 <= k < out@.len() implies out@[k] != w by {
                    let j = choose|j: int| 0 <= j < i && all@[j] == out@[k];
                    assert(all@[j] != all@[i as int]);
                }
            }
            let ghost prev = out@;
            out.push(w);
            proof {
                assert forall|j: int| 0 <= j <= i && (#[trigger] all@[j]).1 == to implies out@.contains(all@[j]) by {
                    if j < i {
                        let k = choose|k: int| 0 <= k < prev.len() && prev[k] == all@[j];
                        assert(out@[k] == all@[j]);
                    } else {
                        assert(out@[prev.len() as int] == all@[j]);
                    }
                }
            }
        }
        i = i + 1;
    }
    proof {
        let wires = snarl_wires(*snarl);
        assert forall|w: (OutPin, InPin)| out@.to_set().contains(w) <==> wires_into(wires, to).contains(w) by {
            if out@.contains(w) {
                let k = choose|k: int| 0 <= k < out@.len() && out@[k] == w;
                let j = choose|j: int| 0 <= j < i && all@[j] == out@[k];
                assert(all@.to_set().contains(w));
            }
            if wires.contains(w) && w.1 == to {
                assert(all@.to_set().contains(w));
                let j = choose|j: int| 0 <= j < all@.len() && all@[j] == w;
            }
        }
        assert(out@.to_set() =~= wires_into(wires, to));
        if snarl_wf(*snarl) && out@.len() > 1 {
            assert(out@.to_set().contains(out@[0]));
            assert(out@.to_set().contains(out@[1]));
        }
    }
    out
}

/// The wires out of an output pin, in no fixed order.
pub fn connections_out_of(snarl: &Snarl<EditorNode>, from: OutPin) -> (r: Vec<(OutPin, InPin)>)
    ensures
        r@.to_set() == wires_out_of(snarl_wires(*snarl), from),
        r@.no_duplicates(),
{
    let all = snarl_wire_list(snarl);
    let mut out: Vec<(OutPin, InPin)> = Vec::new();
    let mut i: usize = 0;
    while i < all.len()
        invariant
            i <= all@.len(),
            all@.no_duplicates(),
            out@.no_duplicates(),
            forall|k: int| 0 <= k < out@.len() ==> (#[trigger] out@[k]).0 == from
                && exists|j: int| 0 <= j < i && all@[j] == out@[k],
            forall|j: int| 0 <= j < i && (#[trigger] all@[j]).0 == from ==> out@.contains(all@[j]),
        decreases all@.len() - i,
    {
        let w = all[i];
        if w.0 == from {
            proof {
                assert forall|k: int| 0 <= k < out@.len() implies out@[k] != w by {
                    let j = choose|j: int| 0 <= j < i && all@[j] == out@[k];
                    assert(all@[j] != all@[i as int]);
                }
            }
            let ghost prev = out@;
            out.push(w);
            proof {
                assert forall|j: int| 0 <= j <= i && (#[trigger] all@[j]).0 == from implies out@.contains(all@[j]) by {
                    if j < i {
                        let k = choose|k: int| 0 <= k < prev.len() && prev[k] == all@[j];
                        assert(out@[k] == all@[j]);
                    } else {
                        assert(out@[prev.len() as int] == all@[j]);
                    }
                }
            }
        }
        i = i + 1;
    }
    proof {
        let wires = snarl_wires(*snarl);
        assert forall|w: (OutPin, InPin)| out@.to_set().contains(w) <==> wires_out_of(wires, from).contains(w) by {
            if out@.contains(w) {
                let k = choose|k: int| 0 <= k < out@.len() && out@[k] == w;
                let j = choose|j: int| 0 <= j < i && all@[j] == out@[k];
                assert(all@.to_set().contains(w));
            }
            if wires.contains(w) && w.0 == from {
                assert(all@.to_set().contains(w));
                let j = choose|j: int| 0 <= j < all@.len() && all@[j] == w;
            }
        }
        assert(out@.to_set() =~= wires_out_of(wires, from));
    }
    out
}

} // verus!
