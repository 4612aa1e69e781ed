use vstd::prelude::*;
use egui_snarl::Snarl;
use crate::graph::{
    connectable, connect, get, in_pin_compat, in_pin_mask, insert_node, out_pin_compat,
    out_pin_mask, remove_node, snarl_nodes, snarl_wf, snarl_wires, wires_after_connect, wires_into,
    lemma_mask_facts, GraphError, InPin, OutPin,
};
use crate::nodes::{
    is_template, kind_out_compat, kind_out_mask, node_inputs, node_outputs, spec_header_rgb,
    spec_inputs, spec_outputs, spec_title, spec_value_rgb, template, EditorNode, NodeKind,
    PIN_NUM, PIN_SINK, PIN_STR,
};

verus! {

/// Union of the masks of a bundle of input pins.
pub open spec fn union_in_masks(nodes: Map<usize, EditorNode>, pins: Seq<InPin>) -> usize
    decreases pins.len(),
{
    if pins.len() == 0 {
        0
    } else {
        union_in_masks(nodes, pins.drop_last()) | in_pin_mask(nodes, pins.last())
    }
}

/// Every pin of a bundle sits on a node of the graph.
pub open spec fn all_nodes_exist(nodes: Map<usize, EditorNode>, pins: Seq<InPin>) -> bool {
    forall|i: int| 0 <= i < pins.len() ==> nodes.contains_key(#[trigger] pins[i].node)
}

/// The source kinds offered for a bundle of inputs with the given union mask.
pub open spec fn offered_sources(u: usize) -> Seq<NodeKind> {
    (if u & PIN_NUM != 0 { seq![NodeKind::Number] } else { Seq::empty() })
        + (if u & PIN_STR != 0 { seq![NodeKind::String] } else { Seq::empty() })
}

/// An input pin of the bundle takes a value of the given output mask.
pub open spec fn selected(nodes: Map<usize, EditorNode>, pins: Seq<InPin>, out_ty: usize, p: InPin) -> bool {
    pins.contains(p) && out_ty & in_pin_mask(nodes, p) != 0
}

/// The wires after every selected input of a bundle is rewired to one output.
pub open spec fn rewired(
    wires: Set<(OutPin, InPin)>,
    nodes: Map<usize, EditorNode>,
    pins: Seq<InPin>,
    out_ty: usize,
    src: OutPin,
) -> Set<(OutPin, InPin)> {
    Set::new(|w: (OutPin, InPin)|
        (wires.contains(w) && !selected(nodes, pins, out_ty, w.1))
        || (w.0 == src && selected(nodes, pins, out_ty, w.1)))
}

/// Every source kind that the input menu offers has an output mask that meets
/// the bundle's union, and no such kind is a Sink.
pub proof fn lemma_offered_sources_compatible(u: usize)
    ensures
        forall|i: int| 0 <= i < offered_sources(u).len()
            ==> u & kind_out_mask(#[trigger] offered_sources(u)[i]) != 0 && offered_sources(u)[i] != NodeKind::Sink,
{
    let s = offered_sources(u);
    assert forall|i: int| 0 <= i < s.len() implies u & kind_out_mask(#[trigger] s[i]) != 0 && s[i] != NodeKind::Sink by {
        if u & PIN_NUM != 0 {
            if i == 0 {
                assert(s[i] == NodeKind::Number);
            } else {
                assert(s[i] == NodeKind::String);
            }
        } else {
            assert(s[i] == NodeKind::String);
        }
    }
}

/// A mask meets the union of a bundle only where it meets one pin of it: a
/// kind that the input menu offers is wired to at least one dragged input.
pub proof fn lemma_union_meets_some_pin(nodes: Map<usize, EditorNode>, pins: Seq<InPin>, m: usize)
    requires
        union_in_masks(nodes, pins) & m != 0,
    ensures
        exists|i: int| 0 <= i < pins.len() && selected(nodes, pins, m, #[trigger] pins[i]),
    decreases pins.len(),
{
    lemma_mask_facts(m);
    let a = union_in_masks(nodes, pins.drop_last());
    let b = in_pin_mask(nodes, pins.last());
    assert((a | b) & m != 0 ==> a & m != 0 || m & b != 0) by (bit_vector);
    if m & b != 0 {
        assert(pins.contains(pins.last()) && pins[pins.len() - 1] == pins.last());
        assert(selected(nodes, pins, m, pins[pins.len() - 1]));
    } else {
        lemma_union_meets_some_pin(nodes, pins.drop_last(), m);
        let i = choose|i: int| 0 <= i < pins.drop_last().len() && selected(nodes, pins.drop_last(), m, #[trigger] pins.drop_last()[i]);
        assert(pins[i] == pins.drop_last()[i]);
        assert(pins.contains(pins[i]));
        assert(selected(nodes, pins, m, pins[i]));
    }
}

/// Union of the input masks of a bundle; `NotFound` where a pin's node is missing.
fn union_of_inputs(snarl: &Snarl<EditorNode>, src: &Vec<InPin>) -> (r: Result<usize, GraphError>)
    ensures
        r is Ok <==> all_nodes_exist(snarl_nodes(*snarl), src@),
        r is Ok ==> r->Ok_0 == union_in_masks(snarl_nodes(*snarl), src@),
        r is Err ==> r == Err::<usize, GraphError>(GraphError::NotFound),
{
    let ghost nodes = snarl_nodes(*snarl);
    let mut acc: usize = 0;
    let mut i: usize = 0;
    while i < src.len()
        invariant
            i <= src@.len(),
            nodes == snarl_nodes(*snarl),
            acc == union_in_masks(nodes, src@.take(i as int)),
            forall|j: int| 0 <= j < i ==> nodes.contains_key(#[trigger] src@[j].node),
        decreases src@.len() - i,
    {
        let p = src[i];
        if get(snarl, p.node).is_err() {
            return Err(GraphError::NotFound);
        }
        acc = acc | in_pin_compat(snarl, p);
        proof {
            assert(src@.take(i as int + 1).drop_last() =~= src@.take(i as int));
        }
        i = i + 1;
    }
    proof {
        assert(src@.take(src@.len() as int) =~= src@);
    }
    Ok(acc)
}

/// The viewer that interprets gestures on the editor graph.
pub struct EditorViewer;

impl EditorViewer {
    /// Wires a dragged output onto an input; the input's old wire gives way.
    pub fn connect(&mut self, from: OutPin, to: InPin, snarl: &mut Snarl<EditorNode>) -> (r: Result<(), GraphError>)
        ensures
            r == (if !snarl_nodes(*old(snarl)).contains_key(from.node) || !snarl_nodes(*old(snarl)).contains_key(to.node) {
                Err::<(), GraphError>(GraphError::NotFound)
            } else if !connectable(snarl_nodes(*old(snarl)), from, to) {
                Err::<(), GraphError>(GraphError::InvalidPin)
            } else {
                Ok::<(), GraphError>(())
            }),
            snarl_nodes(*final(snarl)) == snarl_nodes(*old(snarl)),
            r is Ok ==> snarl_wires(*final(snarl)) == wires_after_connect(snarl_wires(*old(snarl)), from, to),
            r is Err ==> *final(snarl) == *old(snarl),
            snarl_wf(*old(snarl)) ==> snarl_wf(*final(snarl)),
    {
        connect(snarl, from, to)
    }

    /// Title of a node's header.
    pub fn title(&mut self, node: &EditorNode) -> (r: String)
        ensures
            r@ == spec_title(*node),
    {
        match node {
            EditorNode::Sink => "Sink".to_owned(),
            EditorNode::Number(_) => "Number".to_owned(),
            EditorNode::String(_) => "String".to_owned(),
        }
    }

    /// Number of input pins of a node.
    pub fn inputs(&mut self, node: &EditorNode) -> (r: usize)
        ensures
            r == spec_inputs(*node),
    {
        node_inputs(node)
    }

    /// Number of output pins of a node.
    pub fn outputs(&mut self, node: &EditorNode) -> (r: usize)
        ensures
            r == spec_outputs(*node),
    {
        node_outputs(node)
    }

    /// Header fill colour of a node, as red, green and blue.
    pub fn header_rgb(&mut self, node: &EditorNode) -> (r: (u8, u8, u8))
        ensures
            r == spec_header_rgb(*node),
    {
        match node {
            EditorNode::Sink => (70, 70, 80),
            EditorNode::Number(_) => (70, 40, 40),
            EditorNode::String(_) => (40, 70, 40),
        }
    }

    /// Colour of a pin that carries the value of a node, as red, green and blue.
    pub fn value_rgb(&mut self, node: &EditorNode) -> (r: (u8, u8, u8))
        ensures
            r == spec_value_rgb(*node),
    {
        match node {
            EditorNode::Sink => (0xb0, 0xb0, 0xb0),
            EditorNode::Number(_) => (0xb0, 0x00, 0x00),
            EditorNode::String(_) => (0x00, 0xb0, 0x00),
        }
    }

    /// The node that feeds an input pin, if a wire comes into it.
    pub fn input_source(&mut self, pin: InPin, snarl: &Snarl<EditorNode>) -> (r: Option<usize>)
        ensures
            r is None <==> wires_into(snarl_wires(*snarl), pin).is_empty(),
            r is Some ==> exists|o: OutPin| o.node == r->Some_0 && #[trigger] snarl_wires(*snarl).contains((o, pin)),
    {
        let ws = crate::graph::connections_into(snarl, pin);
        if ws.len() == 0 {
            proof {
                assert(wires_into(snarl_wires(*snarl), pin) =~= ws@.to_set());
            }
            None
        } else {
            let w = ws[0];
            proof {
                assert(ws@.to_set().contains(w));
                assert(wires_into(snarl_wires(*snarl), pin).contains(w));
            }
            Some(w.0.node)
        }
    }

    /// Canvas menu: inserts a fresh node of the chosen kind, with no wire.
    pub fn graph_menu_insert(&mut self, pos: egui::Pos2, kind: NodeKind, snarl: &mut Snarl<EditorNode>) -> (r: usize)
        ensures
            !snarl_nodes(*old(snarl)).contains_key(r),
            snarl_nodes(*final(snarl)).dom() == snarl_nodes(*old(snarl)).dom().insert(r),
            snarl_nodes(*final(snarl)).remove(r) == snarl_nodes(*old(snarl)),
            is_template(kind, snarl_nodes(*final(snarl))[r]),
            snarl_wires(*final(snarl)) == snarl_wires(*old(snarl)),
            snarl_wf(*old(snarl)) ==> snarl_wf(*final(snarl)),
    {
        let node = template(kind);
        let r = insert_node(snarl, pos, node);
        proof {
            assert(snarl_nodes(*final(snarl)).remove(r) =~= snarl_nodes(*old(snarl)));
        }
        r
    }

    /// Node menu: removes the node and every wire touching it.
    pub fn remove(&mut self, node: usize, snarl: &mut Snarl<EditorNode>) -> (r: Result<EditorNode, GraphError>)
        ensures
            snarl_nodes(*old(snarl)).contains_key(node) <==> r is Ok,
            r is Ok ==> snarl_nodes(*final(snarl)) == snarl_nodes(*old(snarl)).remove(node),
            r is Ok ==> snarl_wires(*final(snarl)) == crate::graph::wires_without_node(snarl_wires(*old(snarl)), node),
            r is Err ==> *final(snarl) == *old(snarl),
            snarl_wf(*old(snarl)) ==> snarl_wf(*final(snarl)),
    {
        remove_node(snarl, node)
    }

    /// Menu for a wire dragged from outputs and dropped on the canvas: the
    /// input kinds that the dragged output can feed.
    pub fn out_drop_menu(&mut self, src: &Vec<OutPin>, snarl: &Snarl<EditorNode>) -> (r: Result<Vec<NodeKind>, GraphError>)
        ensures
            src@.len() == 0 ==> r is Ok && r->Ok_0@.len() == 0,
            src@.len() > 1 ==> r == Err::<Vec<NodeKind>, GraphError>(GraphError::UnsupportedGesture),
            src@.len() == 1 && !snarl_nodes(*snarl).contains_key(src@[0].node)
                ==> r == Err::<Vec<NodeKind>, GraphError>(GraphError::NotFound),
            src@.len() == 1 && snarl_nodes(*snarl).contains_key(src@[0].node) ==> r is Ok
                && r->Ok_0@ == (if out_pin_mask(snarl_nodes(*snarl), src@[0]) & PIN_SINK != 0 {
                    seq![NodeKind::Sink]
                } else {
                    Seq::<NodeKind>::empty()
                }),
    {
        let mut offered: Vec<NodeKind> = Vec::new();
        if src.len() == 0 {
            return Ok(offered);
        }
        if src.len() != 1 {
            return Err(GraphError::UnsupportedGesture);
        }
        let p = src[0];
        if get(snarl, p.node).is_err() {
            return Err(GraphError::NotFound);
        }
        if out_pin_compat(snarl, p) & PIN_SINK != 0 {
            offered.push(NodeKind::Sink);
        }
        proof {
            if out_pin_mask(snarl_nodes(*snarl), p) & PIN_SINK != 0 {
                assert(offered@ =~= seq![NodeKind::Sink]);
            } else {
                assert(offered@ =~= Seq::<NodeKind>::empty());
            }
        }
        Ok(offered)
    }

    /// Chooses the Sink from the output menu: inserts a Sink and wires the
    /// dragged output to its input.
    pub fn out_drop_select(&mut self, pos: egui::Pos2, src: &Vec<OutPin>, snarl: &mut Snarl<EditorNode>) -> (r: Result<usize, GraphError>)
        ensures
            src@.len() != 1 ==> r == Err::<usize, GraphError>(GraphError::UnsupportedGesture),
            src@.len() == 1 && !snarl_nodes(*old(snarl)).contains_key(src@[0].node)
                ==> r == Err::<usize, GraphError>(GraphError::NotFound),
            src@.len() == 1 && snarl_nodes(*old(snarl)).contains_key(src@[0].node)
                && out_pin_mask(snarl_nodes(*old(snarl)), src@[0]) & PIN_SINK == 0
                ==> r == Err::<usize, GraphError>(GraphError::InvalidPin),
            src@.len() == 1 && snarl_nodes(*old(snarl)).contains_key(src@[0].node)
                && out_pin_mask(snarl_nodes(*old(snarl)), src@[0]) & PIN_SINK != 0 ==> r is Ok,
            r is Err ==> *final(snarl) == *old(snarl),
            r is Ok ==> !snarl_nodes(*old(snarl)).contains_key(r->Ok_0)
                && snarl_nodes(*final(snarl)) == snarl_nodes(*old(snarl)).insert(r->Ok_0, EditorNode::Sink)
                && snarl_wires(*final(snarl)) == wires_after_connect(
                    snarl_wires(*old(snarl)), src@[0], InPin { node: r->Ok_0, input: 0 }),
            snarl_wf(*old(snarl)) ==> snarl_wf(*final(snarl)),
    {
        if src.len() != 1 {
            return Err(GraphError::UnsupportedGesture);
        }
        let p = src[0];
        if get(snarl, p.node).is_err() {
            return Err(GraphError::NotFound);
        }
        if out_pin_compat(snarl, p) & PIN_SINK == 0 {
            return Err(GraphError::InvalidPin);
        }
        let ghost nodes0 = snarl_nodes(*snarl);
        let n = insert_node(snarl, pos, EditorNode::Sink);
        let dst = InPin { node: n, input: 0 };
        proof {
            assert(out_pin_mask(snarl_nodes(*snarl), p) == out_pin_mask(nodes0, p));
            assert(in_pin_mask(snarl_nodes(*snarl), dst) == PIN_SINK);
        }
        let res = connect(snarl, p, dst);
        assert(res is Ok);
        Ok(n)
    }

    /// Menu for a wire dragged from inputs and dropped on the canvas: the
    /// source kinds that at least one dragged input accepts.
    pub fn in_drop_menu(&mut self, src: &Vec<InPin>, snarl: &Snarl<EditorNode>) -> (r: Result<Vec<NodeKind>, GraphError>)
        ensures
            r is Ok <==> all_nodes_exist(snarl_nodes(*snarl), src@),
            r is Err ==> r == Err::<Vec<NodeKind>, GraphError>(GraphError::NotFound),
            r is Ok ==> r->Ok_0@ == offered_sources(union_in_masks(snarl_nodes(*snarl), src@)),
    {
        let u = match union_of_inputs(snarl, src) {
            Ok(u) => u,
            Err(e) => return Err(e),
        };
        let mut offered: Vec<NodeKind> = Vec::new();
        if u & PIN_NUM != 0 {
            offered.push(NodeKind::Number);
        }
        if u & PIN_STR != 0 {
            offered.push(NodeKind::String);
        }
        proof {
            assert(offered@ =~= offered_sources(u));
        }
        Ok(offered)
    }

    /// Chooses a source kind from the input menu: inserts one fresh source and
    /// rewires to it every dragged input that accepts its value; the other
    /// inputs are left as they were.
    pub fn in_drop_select(&mut self, pos: egui::Pos2, kind: NodeKind, src: &Vec<InPin>, snarl: &mut Snarl<EditorNode>) -> (r: Result<usize, GraphError>)
        ensures
            !all_nodes_exist(snarl_nodes(*old(snarl)), src@) ==> r == Err::<usize, GraphError>(GraphError::NotFound),
            all_nodes_exist(snarl_nodes(*old(snarl)), src@)
                && union_in_masks(snarl_nodes(*old(snarl)), src@) & kind_out_mask(kind) == 0
                ==> r == Err::<usize, GraphError>(GraphError::InvalidPin),
            all_nodes_exist(snarl_nodes(*old(snarl)), src@)
                && union_in_masks(snarl_nodes(*old(snarl)), src@) & kind_out_mask(kind) != 0 ==> r is Ok,
            r is Err ==> *final(snarl) == *old(snarl),
            r is Ok ==> !snarl_nodes(*old(snarl)).contains_key(r->Ok_0)
                && snarl_nodes(*final(snarl)).dom() == snarl_nodes(*old(snarl)).dom().insert(r->Ok_0)
                && snarl_nodes(*final(snarl)).remove(r->Ok_0) == snarl_nodes(*old(snarl))
                && is_template(kind, snarl_nodes(*final(snarl))[r->Ok_0])
                && snarl_wires(*final(snarl)) == rewired(
                    snarl_wires(*old(snarl)), snarl_nodes(*old(snarl)), src@, kind_out_mask(kind),
                    OutPin { node: r->Ok_0, output: 0 }),
            snarl_wf(*old(snarl)) ==> snarl_wf(*final(snarl)),
    {
        let u = match union_of_inputs(snarl, src) {
            Ok(u) => u,
            Err(e) => return Err(e),
        };
        let out_ty = kind_out_compat(kind);
        if u & out_ty == 0 {
            return Err(GraphError::InvalidPin);
        }
        proof {
            lemma_mask_facts(u);
        }
        let ghost nodes0 = snarl_nodes(*snarl);
        let ghost wires0 = snarl_wires(*snarl);
        let node = template(kind);
        let n = insert_node(snarl, pos, node);
        let ghost nodes1 = snarl_nodes(*snarl);
        let dst = OutPin { node: n, output: 0 };
        proof {
            assert(out_pin_mask(nodes1, dst) == out_ty);
            assert(rewired(wires0, nodes0, src@.take(0), out_ty, dst) =~= wires0);
        }
        let mut i: usize = 0;
        while i < src.len()
            invariant
                i <= src@.len(),
                nodes0 == snarl_nodes(*old(snarl)),
                wires0 == snarl_wires(*old(snarl)),
                !nodes0.contains_key(n),
                nodes1 == nodes0.insert(n, nodes1[n]),
                is_template(kind, nodes1[n]),
                out_ty == kind_out_mask(kind),
                out_ty != 0,
                dst == (OutPin { node: n, output: 0 }),
                out_pin_mask(nodes1, dst) == out_ty,
                all_nodes_exist(nodes0, src@),
                snarl_nodes(*snarl) == nodes1,
                snarl_wires(*snarl) == rewired(wires0, nodes0, src@.take(i as int), out_ty, dst),
                snarl_wf(*old(snarl)) ==> snarl_wf(*snarl),
            decreases src@.len() - i,
        {
            let p = src[i];
            let ghost t0 = src@.take(i as int);
            let ghost t1 = src@.take(i as int + 1);
            proof {
                assert(nodes0.contains_key(src@[i as int].node));
                assert(in_pin_mask(nodes1, p) == in_pin_mask(nodes0, p));
                assert forall|x: InPin| t1.contains(x) <==> (t0.contains(x) || x == p) by {
                    if t1.contains(x) {
                        let k = choose|k: int| 0 <= k < t1.len() && t1[k] == x;
                        if k < i {
                            assert(t0[k] == x);
                        }
                    }
                    if t0.contains(x) {
                        let k = choose|k: int| 0 <= k < t0.len() && t0[k] == x;
                        assert(t1[k] == x);
                    }
                    if x == p {
                        assert(t1[i as int] == x);
                    }
                }
            }
            if out_ty & in_pin_compat(snarl, p) != 0 {
                let res = connect(snarl, dst, p);
                assert(res is Ok);
                proof {
                    assert(snarl_wires(*snarl) =~= rewired(wires0, nodes0, t1, out_ty, dst));
                }
            } else {
                proof {
                    assert(snarl_wires(*snarl) =~= rewired(wires0, nodes0, t1, out_ty, dst));
                }
            }
            i = i + 1;
        }
        proof {
            assert(src@.take(src@.len() as int) =~= src@);
            assert(snarl_nodes(*snarl).remove(n) =~= nodes0);
        }
        Ok(n)
    }
}

} // verus!
