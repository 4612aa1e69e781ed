use vstd::prelude::*;
use egui_snarl::Snarl;
use crate::graph::{
    connect, connections_into, graph_wf, insert_node, new_graph, remove_node,
    snarl_dense, snarl_next_key, snarl_node_list, snarl_nodes, snarl_wf, snarl_wire_list,
    snarl_wires, GraphError, InPin, OutPin,
};
use crate::nodes::EditorNode;

verus! {

/// The node that a saved node list gives for a key: the last entry with it.
pub open spec fn lookup(ns: Seq<(usize, egui::Pos2, EditorNode)>, k: usize) -> Option<EditorNode>
    decreases ns.len(),
{
    if ns.len() == 0 {
        None
    } else if ns.last().0 == k {
        Some(ns.last().2)
    } else {
        lookup(ns.drop_last(), k)
    }
}

/// The node table that a saved node list describes.
pub open spec fn nodes_of(ns: Seq<(usize, egui::Pos2, EditorNode)>) -> Map<usize, EditorNode> {
    Map::new(|k: usize| lookup(ns, k) is Some, |k: usize| lookup(ns, k)->Some_0)
}

/// The keys of a saved node list rise strictly.
pub open spec fn keys_increasing(ns: Seq<(usize, egui::Pos2, EditorNode)>) -> bool {
    forall|i: int, j: int| 0 <= i < j < ns.len() ==> ns[i].0 < ns[j].0
}

/// A saved graph can be restored: keys rise strictly and stay below the
/// largest `usize`, no wire is listed twice, and the wires form a
/// well-formed graph over the saved nodes.
pub open spec fn restorable(ns: Seq<(usize, egui::Pos2, EditorNode)>, ws: Seq<(OutPin, InPin)>) -> bool {
    &&& keys_increasing(ns)
    &&& forall|i: int| 0 <= i < ns.len() ==> (#[trigger] ns[i]).0 < usize::MAX
    &&& ws.no_duplicates()
    &&& graph_wf(nodes_of(ns), ws.to_set())
}

/// In a list with rising keys, each entry is what its key looks up.
pub proof fn lemma_lookup_entry(ns: Seq<(usize, egui::Pos2, EditorNode)>, i: int)
    requires
        keys_increasing(ns),
        0 <= i < ns.len(),
    ensures
        lookup(ns, ns[i].0) == Some(ns[i].2),
    decreases ns.len(),
{
    if i < ns.len() - 1 {
        assert(ns.drop_last()[i] == ns[i]);
        lemma_lookup_entry(ns.drop_last(), i);
    }
}

/// A key looks something up only where an entry holds it.
pub proof fn lemma_lookup_found(ns: Seq<(usize, egui::Pos2, EditorNode)>, k: usize)
    requires
        lookup(ns, k) is Some,
    ensures
        exists|i: int| 0 <= i < ns.len() && ns[i].0 == k,
    decreases ns.len(),
{
    if ns.last().0 != k {
        lemma_lookup_found(ns.drop_last(), k);
        let i = choose|i: int| 0 <= i < ns.drop_last().len() && ns.drop_last()[i].0 == k;
        assert(ns[i] == ns.drop_last()[i]);
    } else {
        assert(ns[ns.len() - 1].0 == k);
    }
}

/// A node table equals the one a list with rising keys describes when the
/// list holds exactly its entries.
pub proof fn lemma_nodes_of(ns: Seq<(usize, egui::Pos2, EditorNode)>, m: Map<usize, EditorNode>)
    requires
        keys_increasing(ns),
        forall|i: int| 0 <= i < ns.len() ==> m.contains_key(#[trigger] ns[i].0) && m[ns[i].0] == ns[i].2,
        forall|k: usize| #[trigger] m.contains_key(k) ==> exists|i: int| 0 <= i < ns.len() && ns[i].0 == k,
    ensures
        m == nodes_of(ns),
{
    assert forall|k: usize| m.contains_key(k) <==> nodes_of(ns).contains_key(k) by {
        if m.contains_key(k) {
            let i = choose|i: int| 0 <= i < ns.len() && ns[i].0 == k;
            lemma_lookup_entry(ns, i);
        }
        if lookup(ns, k) is Some {
            lemma_lookup_found(ns, k);
            let i = choose|i: int| 0 <= i < ns.len() && ns[i].0 == k;
            assert(m.contains_key(ns[i].0));
        }
    }
    assert forall|k: usize| m.contains_key(k) implies m[k] == nodes_of(ns)[k] by {
        let i = choose|i: int| 0 <= i < ns.len() && ns[i].0 == k;
        lemma_lookup_entry(ns, i);
    }
    assert(m =~= nodes_of(ns));
}

/// Lists a graph's nodes, by rising key with their positions, and its wires.
pub fn export(snarl: &Snarl<EditorNode>) -> (r: (Vec<(usize, egui::Pos2, EditorNode)>, Vec<(OutPin, InPin)>))
    ensures
        keys_increasing(r.0@),
        nodes_of(r.0@) == snarl_nodes(*snarl),
        r.1@.to_set() == snarl_wires(*snarl),
        r.1@.no_duplicates(),
{
    let ns = snarl_node_list(snarl);
    let ws = snarl_wire_list(snarl);
    proof {
        lemma_nodes_of(ns@, snarl_nodes(*snarl));
    }
    (ns, ws)
}

/// Round trip: what `export` lists for a well-formed graph (keys below the
/// largest `usize`) is restorable, so `import` succeeds on it and rebuilds
/// the same node under every key and the same set of wires.
pub proof fn lemma_round_trip(
    s: Snarl<EditorNode>,
    ns: Seq<(usize, egui::Pos2, EditorNode)>,
    ws: Seq<(OutPin, InPin)>,
)
    requires
        snarl_wf(s),
        keys_increasing(ns),
        nodes_of(ns) == snarl_nodes(s),
        ws.to_set() == snarl_wires(s),
        ws.no_duplicates(),
        forall|i: int| 0 <= i < ns.len() ==> (#[trigger] ns[i]).0 < usize::MAX,
    ensures
        restorable(ns, ws),
        nodes_of(ns) == snarl_nodes(s) && ws.to_set() == snarl_wires(s),
{
}

/// An element is in the first `i + 1` items of a sequence exactly when it is
/// in the first `i` or is item `i`.
pub proof fn lemma_take_next<A>(s: Seq<A>, i: int)
    requires
        0 <= i < s.len(),
    ensures
        forall|x: A| #[trigger] s.take(i + 1).contains(x) <==> s.take(i).contains(x) || x == s[i],
{
    assert forall|x: A| #[trigger] s.take(i + 1).contains(x) <==> s.take(i).contains(x) || x == s[i] by {
        if s.take(i + 1).contains(x) {
            let k = choose|k: int| 0 <= k < s.take(i + 1).len() && #[trigger] s.take(i + 1)[k] == x;
            if k < i {
                assert(s.take(i)[k] == x);
            }
        }
        if s.take(i).contains(x) {
            let k = choose|k: int| 0 <= k < s.take(i).len() && #[trigger] s.take(i)[k] == x;
            assert(s.take(i + 1)[k] == x);
        }
        if x == s[i] {
            assert(s.take(i + 1)[i] == x);
        }
    }
}

/// Rebuilds a graph from a saved node list and wire list: each node gets its
/// saved key back, and the graph holds exactly the saved wires.
pub fn import(ns: &Vec<(usize, egui::Pos2, EditorNode)>, ws: &Vec<(OutPin, InPin)>) -> (r: Result<Snarl<EditorNode>, GraphError>)
    ensures
        restorable(ns@, ws@) <==> r is Ok,
        r is Err ==> r == Err::<Snarl<EditorNode>, GraphError>(GraphError::InvalidPin),
        r is Ok ==> snarl_nodes(r->Ok_0) == nodes_of(ns@),
        r is Ok ==> snarl_wires(r->Ok_0) == ws@.to_set(),
        r is Ok ==> snarl_wf(r->Ok_0),
{
    let n = ns.len();
    let mut i: usize = 0;
    while i < n
        invariant
            i <= n,
            n == ns@.len(),
            forall|a: int, b: int| 0 <= a < b < i ==> ns@[a].0 < ns@[b].0,
            forall|a: int| 0 <= a < i ==> (#[trigger] ns@[a]).0 < usize::MAX,
        decreases n - i,
    {
        if ns[i].0 == usize::MAX {
            return Err(GraphError::InvalidPin);
        }
        if i > 0 && ns[i - 1].0 >= ns[i].0 {
            return Err(GraphError::InvalidPin);
        }
        proof {
            assert forall|a: int, b: int| 0 <= a < b < i + 1 implies ns@[a].0 < ns@[b].0 by {
                if b == i && a < i - 1 {
                    assert(ns@[a].0 < ns@[i - 1].0);
                }
            }
        }
        i = i + 1;
    }
    let ghost s = ns@;
    let mut g = new_graph();
    let mut ph: Vec<usize> = Vec::new();
    let mut j: usize = 0;
    let mut next: usize = 0;
    proof {
        assert(snarl_nodes(g).dom() =~= Set::<usize>::empty());
    }
    while j < n
        invariant
            j <= n,
            n == s.len(),
            s == ns@,
            keys_increasing(s),
            forall|a: int| 0 <= a < n ==> (#[trigger] s[a]).0 < usize::MAX,
            next == snarl_next_key(g),
            snarl_dense(g),
            snarl_wf(g),
            snarl_wires(g).is_empty(),
            forall|k: usize| #[trigger] snarl_nodes(g).contains_key(k) <==> k < next,
            j < n ==> next <= s[j as int].0,
            forall|a: int| 0 <= a < j ==> (#[trigger] s[a]).0 < next,
            forall|a: int| 0 <= a < j ==> snarl_nodes(g)[(#[trigger] s[a]).0] == s[a].2,
            forall|k: usize| k < next ==> (exists|a: int| 0 <= a < j && (#[trigger] s[a]).0 == k) || ph@.contains(k),
            forall|m: int, a: int| 0 <= m < ph@.len() && 0 <= a < n ==> #[trigger] ph@[m] != (#[trigger] s[a]).0,
        decreases n - j, if j < n { s[j as int].0 - next } else { 0 },
    {
        let pos = ns[j].1;
        if next < ns[j].0 {
            let ghost old_ph = ph@;
            let k = insert_node(&mut g, pos, EditorNode::Sink);
            ph.push(k);
            proof {
                assert(ph@[ph@.len() - 1] == k);
                assert forall|kk: usize| kk < next + 1 implies (exists|a: int| 0 <= a < j && (#[trigger] s[a]).0 == kk) || ph@.contains(kk) by {
                    if kk == next {
                        assert(ph@.contains(k));
                    } else if old_ph.contains(kk) {
                        let m = choose|m: int| 0 <= m < old_ph.len() && old_ph[m] == kk;
                        assert(ph@[m] == kk);
                    }
                }
                assert forall|m: int, a: int| 0 <= m < ph@.len() && 0 <= a < n implies #[trigger] ph@[m] != (#[trigger] s[a]).0 by {
                    if m < old_ph.len() {
                        assert(ph@[m] == old_ph[m]);
                    } else if a >= j {
                        assert(s[j as int].0 <= s[a].0);
                    }
                }
            }
            next = next + 1;
        } else {
            let node = ns[j].2.clone();
            let k = insert_node(&mut g, pos, node);
            proof {
                assert(k == s[j as int].0);
                if j + 1 < n {
                    assert(s[j as int].0 < s[j + 1].0);
                }
                assert forall|kk: usize| kk < next + 1 implies (exists|a: int| 0 <= a < j + 1 && (#[trigger] s[a]).0 == kk) || ph@.contains(kk) by {
                    if kk == next {
                        assert(s[j as int].0 == kk);
                    } else if !ph@.contains(kk) {
                        let a = choose|a: int| 0 <= a < j && (#[trigger] s[a]).0 == kk;
                        assert(0 <= a < j + 1 && s[a].0 == kk);
                    }
                }
            }
            next = next + 1;
            j = j + 1;
        }
    }
    let mut m: usize = 0;
    while m < ph.len()
        invariant
            m <= ph@.len(),
            n == s.len(),
            s == ns@,
            keys_increasing(s),
            snarl_wf(g),
            snarl_wires(g).is_empty(),
            forall|k: usize| #[trigger] snarl_nodes(g).contains_key(k) <==> k < next && !ph@.take(m as int).contains(k),
            forall|a: int| 0 <= a < n ==> (#[trigger] s[a]).0 < next,
            forall|a: int| 0 <= a < n ==> snarl_nodes(g)[(#[trigger] s[a]).0] == s[a].2,
            forall|k: usize| k < next ==> (exists|a: int| 0 <= a < n && (#[trigger] s[a]).0 == k) || ph@.contains(k),
            forall|m2: int, a: int| 0 <= m2 < ph@.len() && 0 <= a < n ==> #[trigger] ph@[m2] != (#[trigger] s[a]).0,
        decreases ph@.len() - m,
    {
        let ghost before = snarl_nodes(g);
        let _ = remove_node(&mut g, ph[m]);
        proof {
            lemma_take_next(ph@, m as int);
            assert(snarl_wires(g) =~= Set::<(OutPin, InPin)>::empty());
            assert forall|a: int| 0 <= a < n implies snarl_nodes(g)[(#[trigger] s[a]).0] == s[a].2 by {
                assert(ph@[m as int] != s[a].0);
            }
        }
        m = m + 1;
    }
    proof {
        assert(ph@.take(ph@.len() as int) =~= ph@);
        assert forall|a: int| 0 <= a < n implies snarl_nodes(g).contains_key(#[trigger] s[a].0)
            && snarl_nodes(g)[s[a].0] == s[a].2 by {
            if ph@.contains(s[a].0) {
                let m2 = choose|m2: int| 0 <= m2 < ph@.len() && ph@[m2] == s[a].0;
                assert(ph@[m2] != s[a].0);
            }
        }
        assert forall|k: usize| #[trigger] snarl_nodes(g).contains_key(k) implies exists|a: int| 0 <= a < n && s[a].0 == k by {
            assert(k < next);
        }
        lemma_nodes_of(s, snarl_nodes(g));
        assert(ws@.take(0).to_set() =~= Set::<(OutPin, InPin)>::empty());
    }
    let nodes = Ghost(snarl_nodes(g));
    let mut w: usize = 0;
    while w < ws.len()
        invariant
            w <= ws@.len(),
            snarl_nodes(g) == nodes_of(ns@),
            snarl_wires(g) == ws@.take(w as int).to_set(),
            snarl_wf(g),
            ws@.take(w as int).no_duplicates(),
            keys_increasing(ns@),
            forall|a: int| 0 <= a < ns@.len() ==> (#[trigger] ns@[a]).0 < usize::MAX,
        decreases ws@.len() - w,
    {
        let (from, to) = ws[w];
        let ghost cur = snarl_wires(g);
        let into = connections_into(&g, to);
        proof {
            lemma_take_next(ws@, w as int);
        }
        if into.len() != 0 {
            proof {
                let x = into@[0];
                assert(into@.to_set().contains(x));
                assert(ws@.take(w as int).contains(x));
                if restorable(ns@, ws@) {
                    let k = choose|k: int| 0 <= k < ws@.take(w as int).len() && #[trigger] ws@.take(w as int)[k] == x;
                    assert(ws@[k] == x);
                    assert(ws@.to_set().contains(x));
                    assert(ws@.to_set().contains(ws@[w as int]));
                    assert(x == ws@[w as int]);
                }
            }
            return Err(GraphError::InvalidPin);
        }
        match connect(&mut g, from, to) {
            Ok(()) => {},
            Err(_) => {
                proof {
                    if restorable(ns@, ws@) {
                        assert(ws@.to_set().contains(ws@[w as int]));
                        crate::graph::lemma_connectable_nodes_exist(nodes_of(ns@), from, to);
                    }
                }
                return Err(GraphError::InvalidPin);
            },
        }
        proof {
            assert forall|x: (OutPin, InPin)| cur.contains(x) implies x.1 != to by {
                if x.1 == to {
                    assert(into@.to_set().contains(x));
                }
            }
            assert(ws@[w as int] == (from, to));
            assert forall|x: (OutPin, InPin)| #[trigger] snarl_wires(g).contains(x)
                <==> ws@.take(w as int + 1).to_set().contains(x) by {
                assert(ws@.take(w as int + 1).to_set().contains(x) <==> ws@.take(w as int + 1).contains(x));
                assert(cur.contains(x) <==> ws@.take(w as int).contains(x));
            }
            assert(snarl_wires(g) =~= ws@.take(w as int + 1).to_set());
            assert(!ws@.take(w as int).contains(ws@[w as int])) by {
                if ws@.take(w as int).contains(ws@[w as int]) {
                    assert(cur.contains(ws@[w as int]));
                }
            }
            assert(ws@.take(w as int + 1) =~= ws@.take(w as int).push(ws@[w as int]));
            let t0 = ws@.take(w as int);
            let t1 = ws@.take(w as int + 1);
            assert forall|a: int, b: int| 0 <= a < t1.len() && 0 <= b < t1.len() && a != b implies #[trigger] t1[a] != #[trigger] t1[b] by {
                if b == w {
                    assert(t0.contains(t0[a]));
                } else if a == w {
                    assert(t0.contains(t0[b]));
                } else {
                    assert(t0[a] != t0[b]);
                }
            }
        }
        w = w + 1;
    }
    proof {
        assert(ws@.take(ws@.len() as int) =~= ws@);
    }
    Ok(g)
}

} // verus!
