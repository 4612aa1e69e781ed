use egui_snarl::Snarl;
use nsim::graph::{
    connect, connections_into, connections_out_of, disconnect, get, in_pin_compat, insert_node,
    new_graph, out_pin_compat, remove_node, GraphError, InPin, OutPin,
};
use nsim::nodes::{pin_in_compat, pin_out_compat, template, EditorNode, NodeKind};
use nsim::snapshot::{export, import};
use nsim::viewer::EditorViewer;

fn origin() -> egui::Pos2 {
    egui::pos2(0.0, 0.0)
}

fn out0(node: usize) -> OutPin {
    OutPin { node, output: 0 }
}

fn in0(node: usize) -> InPin {
    InPin { node, input: 0 }
}

fn node_count(snarl: &Snarl<EditorNode>) -> usize {
    snarl.nodes().count()
}

fn sorted_wires(snarl: &Snarl<EditorNode>) -> Vec<(usize, usize, usize, usize)> {
    let mut v: Vec<(usize, usize, usize, usize)> = snarl
        .wires()
        .map(|(o, i)| (o.node.0, o.output, i.node.0, i.input))
        .collect();
    v.sort();
    v
}

#[test]
fn reconnect_replaces_previous_wire() {
    let mut g = new_graph();
    let s = insert_node(&mut g, origin(), EditorNode::Sink);
    let n = insert_node(&mut g, origin(), EditorNode::Number(3.14f64.to_bits()));
    assert_eq!(connect(&mut g, out0(n), in0(s)), Ok(()));
    assert_eq!(connections_into(&g, in0(s)), vec![(out0(n), in0(s))]);
    let n2 = insert_node(&mut g, origin(), EditorNode::Number(1.0f64.to_bits()));
    assert_eq!(connect(&mut g, out0(n2), in0(s)), Ok(()));
    assert_eq!(connections_into(&g, in0(s)), vec![(out0(n2), in0(s))]);
    assert!(connections_out_of(&g, out0(n)).is_empty());
    assert_eq!(get(&g, n), Ok(&EditorNode::Number(3.14f64.to_bits())));
}

#[test]
fn repeated_connects_keep_one_wire_per_input() {
    let mut g = new_graph();
    let s = insert_node(&mut g, origin(), EditorNode::Sink);
    let a = insert_node(&mut g, origin(), EditorNode::String("a".to_string()));
    let b = insert_node(&mut g, origin(), EditorNode::Number(0));
    for src in [a, b, a, a, b] {
        assert_eq!(connect(&mut g, out0(src), in0(s)), Ok(()));
        assert_eq!(connections_into(&g, in0(s)), vec![(out0(src), in0(s))]);
    }
    assert_eq!(sorted_wires(&g), vec![(b, 0, s, 0)]);
}

#[test]
fn output_fans_out_to_many_inputs() {
    let mut g = new_graph();
    let n = insert_node(&mut g, origin(), EditorNode::Number(0));
    let s1 = insert_node(&mut g, origin(), EditorNode::Sink);
    let s2 = insert_node(&mut g, origin(), EditorNode::Sink);
    assert_eq!(connect(&mut g, out0(n), in0(s1)), Ok(()));
    assert_eq!(connect(&mut g, out0(n), in0(s2)), Ok(()));
    let mut outs = connections_out_of(&g, out0(n));
    outs.sort_by_key(|w| w.1.node);
    let mut expected = vec![(out0(n), in0(s1)), (out0(n), in0(s2))];
    expected.sort_by_key(|w| w.1.node);
    assert_eq!(outs, expected);
}

#[test]
fn bundle_of_inputs_gets_one_string_source() {
    let mut g = new_graph();
    let mut v = EditorViewer;
    let s = insert_node(&mut g, origin(), EditorNode::Sink);
    let s2 = insert_node(&mut g, origin(), EditorNode::Sink);
    let other = insert_node(&mut g, origin(), EditorNode::Number(7));
    let before = node_count(&g);
    let bundle = vec![in0(s), in0(s2)];
    assert_eq!(
        v.in_drop_menu(&bundle, &g),
        Ok(vec![NodeKind::Number, NodeKind::String])
    );
    let created = v
        .in_drop_select(origin(), NodeKind::String, &bundle, &mut g)
        .unwrap();
    assert_eq!(node_count(&g), before + 1);
    assert_eq!(get(&g, created), Ok(&EditorNode::String(String::new())));
    assert_eq!(connections_into(&g, in0(s)), vec![(out0(created), in0(s))]);
    assert_eq!(connections_into(&g, in0(s2)), vec![(out0(created), in0(s2))]);
    assert_eq!(get(&g, other), Ok(&EditorNode::Number(7)));
    assert!(connections_out_of(&g, out0(other)).is_empty());
}

#[test]
fn bundle_drop_replaces_existing_wires() {
    let mut g = new_graph();
    let mut v = EditorViewer;
    let s = insert_node(&mut g, origin(), EditorNode::Sink);
    let old = insert_node(&mut g, origin(), EditorNode::String("x".to_string()));
    assert_eq!(connect(&mut g, out0(old), in0(s)), Ok(()));
    let created = v
        .in_drop_select(origin(), NodeKind::Number, &vec![in0(s)], &mut g)
        .unwrap();
    assert_eq!(get(&g, created), Ok(&EditorNode::Number(0)));
    assert_eq!(sorted_wires(&g), vec![(created, 0, s, 0)]);
}

#[test]
fn in_drop_rejects_sink_kind_and_missing_nodes() {
    let mut g = new_graph();
    let mut v = EditorViewer;
    let s = insert_node(&mut g, origin(), EditorNode::Sink);
    let n = insert_node(&mut g, origin(), EditorNode::Number(0));
    let before = node_count(&g);
    assert_eq!(
        v.in_drop_select(origin(), NodeKind::Sink, &vec![in0(s)], &mut g),
        Err(GraphError::InvalidPin)
    );
    assert_eq!(
        v.in_drop_select(origin(), NodeKind::Number, &vec![in0(s), in0(99)], &mut g),
        Err(GraphError::NotFound)
    );
    assert_eq!(v.in_drop_menu(&vec![in0(99)], &g), Err(GraphError::NotFound));
    assert_eq!(v.in_drop_menu(&vec![in0(n)], &g), Ok(vec![]));
    assert_eq!(
        v.in_drop_select(origin(), NodeKind::String, &vec![in0(n)], &mut g),
        Err(GraphError::InvalidPin)
    );
    assert_eq!(node_count(&g), before);
    assert!(sorted_wires(&g).is_empty());
}

#[test]
fn two_dragged_outputs_are_unsupported() {
    let mut g = new_graph();
    let mut v = EditorViewer;
    let a = insert_node(&mut g, origin(), EditorNode::Number(1));
    let b = insert_node(&mut g, origin(), EditorNode::String("b".to_string()));
    let s = insert_node(&mut g, origin(), EditorNode::Sink);
    assert_eq!(connect(&mut g, out0(a), in0(s)), Ok(()));
    let before_nodes = node_count(&g);
    let before_wires = sorted_wires(&g);
    let pins = vec![out0(a), out0(b)];
    assert_eq!(v.out_drop_menu(&pins, &g), Err(GraphError::UnsupportedGesture));
    assert_eq!(
        v.out_drop_select(origin(), &pins, &mut g),
        Err(GraphError::UnsupportedGesture)
    );
    assert_eq!(node_count(&g), before_nodes);
    assert_eq!(sorted_wires(&g), before_wires);
}

#[test]
fn single_dragged_output_gets_a_sink() {
    let mut g = new_graph();
    let mut v = EditorViewer;
    let a = insert_node(&mut g, origin(), EditorNode::Number(1));
    assert_eq!(v.out_drop_menu(&vec![out0(a)], &g), Ok(vec![NodeKind::Sink]));
    assert_eq!(v.out_drop_menu(&vec![], &g), Ok(vec![]));
    let s = v.out_drop_select(origin(), &vec![out0(a)], &mut g).unwrap();
    assert_eq!(get(&g, s), Ok(&EditorNode::Sink));
    assert_eq!(sorted_wires(&g), vec![(a, 0, s, 0)]);
    assert_eq!(v.input_source(in0(s), &g), Some(a));
}

#[test]
fn output_drop_from_sink_or_missing_node_fails() {
    let mut g = new_graph();
    let mut v = EditorViewer;
    let s = insert_node(&mut g, origin(), EditorNode::Sink);
    assert_eq!(v.out_drop_menu(&vec![out0(s)], &g), Ok(vec![]));
    assert_eq!(
        v.out_drop_select(origin(), &vec![out0(s)], &mut g),
        Err(GraphError::InvalidPin)
    );
    assert_eq!(v.out_drop_menu(&vec![out0(42)], &g), Err(GraphError::NotFound));
    assert_eq!(
        v.out_drop_select(origin(), &vec![out0(42)], &mut g),
        Err(GraphError::NotFound)
    );
    assert_eq!(
        v.out_drop_select(origin(), &vec![], &mut g),
        Err(GraphError::UnsupportedGesture)
    );
    assert_eq!(node_count(&g), 1);
}

#[test]
fn removing_source_leaves_sink_unwired() {
    let mut g = new_graph();
    let mut v = EditorViewer;
    let s = insert_node(&mut g, origin(), EditorNode::Sink);
    let n = insert_node(&mut g, origin(), EditorNode::Number(5));
    assert_eq!(connect(&mut g, out0(n), in0(s)), Ok(()));
    assert_eq!(v.remove(n, &mut g), Ok(EditorNode::Number(5)));
    assert!(connections_into(&g, in0(s)).is_empty());
    assert_eq!(get(&g, s), Ok(&EditorNode::Sink));
    assert_eq!(v.input_source(in0(s), &g), None);
}

#[test]
fn removed_node_is_not_found() {
    let mut g = new_graph();
    let s = insert_node(&mut g, origin(), EditorNode::Sink);
    let n = insert_node(&mut g, origin(), EditorNode::String("v".to_string()));
    assert_eq!(connect(&mut g, out0(n), in0(s)), Ok(()));
    assert_eq!(remove_node(&mut g, s), Ok(EditorNode::Sink));
    assert_eq!(get(&g, s), Err(GraphError::NotFound));
    assert!(connections_out_of(&g, out0(n)).is_empty());
    assert!(sorted_wires(&g).is_empty());
    assert_eq!(remove_node(&mut g, s), Err(GraphError::NotFound));
}

#[test]
fn incompatible_or_missing_pins_are_refused() {
    let mut g = new_graph();
    let mut v = EditorViewer;
    let s = insert_node(&mut g, origin(), EditorNode::Sink);
    let s2 = insert_node(&mut g, origin(), EditorNode::Sink);
    let n = insert_node(&mut g, origin(), EditorNode::Number(0));
    let t = insert_node(&mut g, origin(), EditorNode::String(String::new()));
    assert_eq!(connect(&mut g, out0(s), in0(s2)), Err(GraphError::InvalidPin));
    assert_eq!(connect(&mut g, out0(n), in0(t)), Err(GraphError::InvalidPin));
    assert_eq!(
        connect(&mut g, OutPin { node: n, output: 1 }, in0(s)),
        Err(GraphError::InvalidPin)
    );
    assert_eq!(
        connect(&mut g, out0(n), InPin { node: s, input: 1 }),
        Err(GraphError::InvalidPin)
    );
    assert_eq!(connect(&mut g, out0(77), in0(s)), Err(GraphError::NotFound));
    assert_eq!(v.connect(out0(n), in0(77), &mut g), Err(GraphError::NotFound));
    assert!(sorted_wires(&g).is_empty());
    assert_eq!(v.connect(out0(t), in0(s), &mut g), Ok(()));
    assert_eq!(sorted_wires(&g), vec![(t, 0, s, 0)]);
}

#[test]
fn disconnect_removes_exact_wire() {
    let mut g = new_graph();
    let s = insert_node(&mut g, origin(), EditorNode::Sink);
    let n = insert_node(&mut g, origin(), EditorNode::Number(0));
    let m = insert_node(&mut g, origin(), EditorNode::Number(1));
    assert_eq!(connect(&mut g, out0(n), in0(s)), Ok(()));
    assert_eq!(disconnect(&mut g, out0(m), in0(s)), Ok(()));
    assert_eq!(sorted_wires(&g), vec![(n, 0, s, 0)]);
    assert_eq!(disconnect(&mut g, out0(n), in0(s)), Ok(()));
    assert!(sorted_wires(&g).is_empty());
    assert_eq!(disconnect(&mut g, out0(n), in0(55)), Err(GraphError::NotFound));
}

#[test]
fn canvas_menu_inserts_fresh_unwired_nodes() {
    let mut g = new_graph();
    let mut v = EditorViewer;
    let a = v.graph_menu_insert(origin(), NodeKind::Number, &mut g);
    let b = v.graph_menu_insert(origin(), NodeKind::String, &mut g);
    let c = v.graph_menu_insert(origin(), NodeKind::Sink, &mut g);
    assert!(a != b && b != c && a != c);
    assert_eq!(get(&g, a), Ok(&EditorNode::Number(0)));
    assert_eq!(f64::from_bits(0), 0.0);
    assert_eq!(get(&g, b), Ok(&EditorNode::String(String::new())));
    assert_eq!(get(&g, c), Ok(&EditorNode::Sink));
    assert!(sorted_wires(&g).is_empty());
}

#[test]
fn masks_pin_counts_titles_and_colours() {
    let mut v = EditorViewer;
    let sink = EditorNode::Sink;
    let num = EditorNode::Number(0);
    let text = EditorNode::String("s".to_string());
    assert_eq!((pin_out_compat(&sink), pin_in_compat(&sink)), (0, 3));
    assert_eq!((pin_out_compat(&num), pin_in_compat(&num)), (1, 0));
    assert_eq!((pin_out_compat(&text), pin_in_compat(&text)), (2, 0));
    assert_eq!((v.inputs(&sink), v.outputs(&sink)), (1, 0));
    assert_eq!((v.inputs(&num), v.outputs(&num)), (0, 1));
    assert_eq!((v.inputs(&text), v.outputs(&text)), (0, 1));
    assert_eq!(v.title(&sink), "Sink");
    assert_eq!(v.title(&num), "Number");
    assert_eq!(v.title(&text), "String");
    assert_eq!(v.header_rgb(&sink), (70, 70, 80));
    assert_eq!(v.header_rgb(&num), (70, 40, 40));
    assert_eq!(v.header_rgb(&text), (40, 70, 40));
    assert_eq!(v.value_rgb(&num), (0xb0, 0, 0));
    assert_eq!(v.value_rgb(&text), (0, 0xb0, 0));
    assert_eq!(v.value_rgb(&sink), (0xb0, 0xb0, 0xb0));
    assert_eq!(template(NodeKind::Number), EditorNode::Number(0));
    assert_eq!(template(NodeKind::String), EditorNode::String(String::new()));
    assert_eq!(template(NodeKind::Sink), EditorNode::Sink);
}

#[test]
fn pin_masks_of_graph_pins() {
    let mut g = new_graph();
    let s = insert_node(&mut g, origin(), EditorNode::Sink);
    let t = insert_node(&mut g, origin(), EditorNode::String(String::new()));
    assert_eq!(in_pin_compat(&g, in0(s)), 3);
    assert_eq!(in_pin_compat(&g, InPin { node: s, input: 1 }), 0);
    assert_eq!(in_pin_compat(&g, in0(t)), 0);
    assert_eq!(out_pin_compat(&g, out0(t)), 2);
    assert_eq!(out_pin_compat(&g, out0(s)), 0);
    assert_eq!(out_pin_compat(&g, out0(9)), 0);
}

#[test]
fn export_then_import_restores_keys_values_and_wires() {
    let mut g = new_graph();
    let s = insert_node(&mut g, egui::pos2(1.0, 2.0), EditorNode::Sink);
    let gone = insert_node(&mut g, origin(), EditorNode::Sink);
    let n = insert_node(&mut g, origin(), EditorNode::Number(2.5f64.to_bits()));
    let t = insert_node(&mut g, origin(), EditorNode::String("hi".to_string()));
    let s2 = insert_node(&mut g, origin(), EditorNode::Sink);
    assert_eq!(remove_node(&mut g, gone), Ok(EditorNode::Sink));
    assert_eq!(connect(&mut g, out0(n), in0(s)), Ok(()));
    assert_eq!(connect(&mut g, out0(t), in0(s2)), Ok(()));
    let (nodes, wires) = export(&g);
    assert_eq!(
        nodes.iter().map(|(id, _, _)| *id).collect::<Vec<usize>>(),
        vec![s, n, t, s2]
    );
    let h = import(&nodes, &wires).unwrap();
    for id in [s, n, t, s2] {
        assert_eq!(get(&h, id), get(&g, id));
    }
    assert_eq!(get(&h, gone), Err(GraphError::NotFound));
    assert_eq!(node_count(&h), 4);
    assert_eq!(sorted_wires(&h), sorted_wires(&g));
    assert_eq!(h.get_node_info(egui_snarl::NodeId(s)).unwrap().pos, egui::pos2(1.0, 2.0));
}

#[test]
fn import_refuses_bad_lists() {
    let sink = |id: usize| (id, origin(), EditorNode::Sink);
    let num = |id: usize| (id, origin(), EditorNode::Number(0));
    assert_eq!(import(&vec![sink(2), sink(1)], &vec![]).err(), Some(GraphError::InvalidPin));
    assert_eq!(import(&vec![sink(1), sink(1)], &vec![]).err(), Some(GraphError::InvalidPin));
    assert_eq!(import(&vec![sink(usize::MAX)], &vec![]).err(), Some(GraphError::InvalidPin));
    assert_eq!(
        import(&vec![sink(0)], &vec![(out0(3), in0(0))]).err(),
        Some(GraphError::InvalidPin)
    );
    assert_eq!(
        import(&vec![sink(0), num(1), num(2)], &vec![(out0(1), in0(0)), (out0(2), in0(0))]).err(),
        Some(GraphError::InvalidPin)
    );
    assert_eq!(
        import(&vec![sink(0), num(1)], &vec![(out0(0), in0(1))]).err(),
        Some(GraphError::InvalidPin)
    );
    let h = import(&vec![num(3), sink(7)], &vec![(out0(3), in0(7))]).unwrap();
    assert_eq!(node_count(&h), 2);
    assert_eq!(get(&h, 3), Ok(&EditorNode::Number(0)));
    assert_eq!(get(&h, 7), Ok(&EditorNode::Sink));
    assert_eq!(sorted_wires(&h), vec![(3, 0, 7, 0)]);
}
