//! From a drawn schematic (blocks and wires between their pins) to circuit
//! nodes: pins joined by wires form one node, every node joined to a ground
//! block is node 0, and the other nodes are numbered 1, 2, ... in the order
//! in which their first pin appears.
use vstd::prelude::*;
use crate::dsu::{Dsu, relabel, joined, singletons};
use crate::nodes::NodeId;
use crate::sim_state::{ComponentKind, PinRef, Wire, pins_of};

verus! {

/// A block of the schematic, as far as its connections go: its id and kind.
pub struct PartRef {
    pub id: String,
    pub kind: ComponentKind,
}

/// Why a schematic has no node assignment.
pub enum LayoutError {
    /// There is no block at all.
    NoComponents,
    /// A wire ends at a pin that no block has.
    InvalidWire(PinRef),
}

/// The nodes of a schematic.
pub struct LayoutNodes {
    /// How many non-ground nodes there are; they are `1..=node_count`.
    pub node_count: usize,
    /// The node of every pin, in the order of [`pin_list`].
    pub pin_nodes: Vec<NodeId>,
    /// The nodes of the pins of every block, in block and pin order.
    pub part_nodes: Vec<Vec<NodeId>>,
}

/// Every pin of every block, block by block, pin by pin.
pub open spec fn pin_list(parts: Seq<PartRef>) -> Seq<(Seq<char>, int)>
    decreases parts.len(),
{
    if parts.len() == 0 {
        Seq::empty()
    } else {
        pin_list(parts.drop_last()) + Seq::new(
            pins_of(parts.last().kind),
            |p: int| (parts.last().id@, p),
        )
    }
}

pub open spec fn pin_views(v: Seq<PinRef>) -> Seq<(Seq<char>, int)> {
    Seq::new(v.len(), |i: int| v[i]@)
}

/// The position of the last occurrence of `x` in `s`, or -1.
pub open spec fn last_index<A>(s: Seq<A>, x: A) -> int
    decreases s.len(),
{
    if s.len() == 0 {
        -1
    } else if s.last() == x {
        s.len() - 1
    } else {
        last_index(s.drop_last(), x)
    }
}

proof fn lemma_contains_last_index<A>(s: Seq<A>, x: A, i: int)
    requires
        0 <= i < s.len(),
        s[i] == x,
    ensures
        i <= last_index(s, x) < s.len(),
    decreases s.len(),
{
    if s.last() != x {
        lemma_contains_last_index(s.drop_last(), x, i);
    }
}

proof fn lemma_pin_listed(parts: Seq<PartRef>, q: int, p: int)
    requires
        0 <= q < parts.len(),
        0 <= p < pins_of(parts[q].kind),
    ensures
        pin_list(parts).contains((parts[q].id@, p)),
    decreases parts.len(),
{
    let prev = pin_list(parts.drop_last());
    let tail = Seq::new(pins_of(parts.last().kind), |k: int| (parts.last().id@, k));
    assert(pin_list(parts) == prev + tail);
    if q == parts.len() - 1 {
        assert((prev + tail)[prev.len() + p] == (parts[q].id@, p));
    } else {
        lemma_pin_listed(parts.drop_last(), q, p);
        let i = choose|i: int| 0 <= i < prev.len() && prev[i] == (parts[q].id@, p);
        assert((prev + tail)[i] == (parts[q].id@, p));
    }
}

/// Each end of every block can be wired: pins 0 and 1 of every block but
/// ground, and pin 0 of ground, are pins of the layout, so a wire between
/// such ends is accepted.
pub proof fn lemma_block_ends_wirable(parts: Seq<PartRef>, q: int, p: int)
    requires
        0 <= q < parts.len(),
        0 <= p,
        p < 2,
        parts[q].kind == ComponentKind::Ground ==> p == 0,
    ensures
        last_index(pin_list(parts), (parts[q].id@, p)) >= 0,
{
    lemma_pin_listed(parts, q, p);
    let l = pin_list(parts);
    let i = choose|i: int| 0 <= i < l.len() && l[i] == (parts[q].id@, p);
    lemma_contains_last_index(l, (parts[q].id@, p), i);
}

/// Both ends of the wire name a pin of some block.
pub open spec fn wire_ok(pins: Seq<(Seq<char>, int)>, w: Wire) -> bool {
    last_index(pins, w.from@) >= 0 && last_index(pins, w.to@) >= 0
}

/// The pins (by position in `pins`) that each wire joins.
pub open spec fn wire_edges(pins: Seq<(Seq<char>, int)>, wires: Seq<Wire>) -> Seq<(int, int)> {
    Seq::new(
        wires.len(),
        |w: int| (last_index(pins, wires[w].from@), last_index(pins, wires[w].to@)),
    )
}

/// A labelling of `labels.len()` elements after joining the ends of each edge
/// in turn: elements share a label exactly when the edges connect them.
pub open spec fn link_all(labels: Seq<int>, edges: Seq<(int, int)>) -> Seq<int>
    decreases edges.len(),
{
    if edges.len() == 0 {
        labels
    } else {
        let prev = link_all(labels, edges.drop_last());
        let e = edges.last();
        relabel(prev, prev[e.1], prev[e.0])
    }
}

/// The pin of each ground block (the last pin that carries its id and index 0).
pub open spec fn ground_pins(parts: Seq<PartRef>, pins: Seq<(Seq<char>, int)>) -> Seq<int>
    decreases parts.len(),
{
    if parts.len() == 0 {
        Seq::empty()
    } else {
        let prev = ground_pins(parts.drop_last(), pins);
        let q = parts.last();
        let li = last_index(pins, (q.id@, 0));
        if q.kind == ComponentKind::Ground && li >= 0 {
            prev.push(li)
        } else {
            prev
        }
    }
}

/// Pin `i` is in the class of a ground pin.
pub open spec fn grounded(classes: Seq<int>, gp: Seq<int>, i: int) -> bool {
    exists|k: int| 0 <= k < gp.len() && #[trigger] classes[gp[k]] == classes[i]
}

/// Pin `i` is the first pin of its class.
pub open spec fn starts_class(classes: Seq<int>, i: int) -> bool {
    forall|j: int| 0 <= j < i ==> #[trigger] classes[j] != classes[i]
}

/// How many non-ground classes begin before pin `i`.
pub open spec fn fresh(classes: Seq<int>, gp: Seq<int>, i: int) -> nat
    decreases i,
{
    if i <= 0 {
        0
    } else {
        fresh(classes, gp, i - 1) + if !grounded(classes, gp, i - 1) && starts_class(
            classes,
            i - 1,
        ) {
            1nat
        } else {
            0nat
        }
    }
}

/// `nodes` numbers the classes of `classes`: ground classes get 0, each other
/// class one number, given in order of the class's first pin, from 1 up to
/// `count`.
pub open spec fn numbers_classes(classes: Seq<int>, gp: Seq<int>, nodes: Seq<NodeId>, count: nat) -> bool {
    let n = classes.len();
    &&& nodes.len() == n
    &&& forall|i: int| 0 <= i < n ==> ((#[trigger] nodes[i]).0 == 0 <==> grounded(classes, gp, i))
    &&& forall|i: int, j: int|
        0 <= i < n && 0 <= j < n && classes[i] == classes[j] ==> #[trigger] nodes[i] == #[trigger] nodes[j]
    &&& forall|i: int, j: int|
        0 <= i < n && 0 <= j < n && #[trigger] nodes[i] == #[trigger] nodes[j] && nodes[i].0 != 0
            ==> classes[i] == classes[j]
    &&& forall|i: int|
        0 <= i < n && !grounded(classes, gp, i) && starts_class(classes, i) ==> (#[trigger] nodes[i]).0
            == fresh(classes, gp, i) + 1
    &&& count == fresh(classes, gp, n as int)
}

/// The node assignment of the blocks `parts` joined by `wires`.
pub open spec fn layout_spec(parts: Seq<PartRef>, wires: Seq<Wire>, out: LayoutNodes) -> bool {
    let pins = pin_list(parts);
    let classes = link_all(singletons(pins.len()), wire_edges(pins, wires));
    let gp = ground_pins(parts, pins);
    &&& numbers_classes(classes, gp, out.pin_nodes@, out.node_count as nat)
    &&& out.part_nodes@.len() == parts.len()
    &&& forall|q: int|
        #![trigger out.part_nodes@[q]]
        0 <= q < parts.len() ==> {
            &&& out.part_nodes@[q]@.len() == pins_of(parts[q].kind)
            &&& forall|p: int|
                0 <= p < pins_of(parts[q].kind) ==> out.part_nodes@[q]@[p] == out.pin_nodes@[last_index(
                    pins,
                    (parts[q].id@, p),
                )]
        }
}

proof fn lemma_last_index<A>(s: Seq<A>, x: A)
    ensures
        -1 <= last_index(s, x) < s.len(),
        last_index(s, x) >= 0 ==> s[last_index(s, x)] == x,
        forall|j: int| last_index(s, x) < j < s.len() ==> s[j] != x,
    decreases s.len(),
{
    if s.len() > 0 && s.last() != x {
        lemma_last_index(s.drop_last(), x);
        assert forall|j: int| last_index(s, x) < j < s.len() implies s[j] != x by {
            if j < s.len() - 1 {
                assert(s[j] == s.drop_last()[j]);
            }
        }
    }
}

proof fn lemma_last_index_unique<A>(s: Seq<A>, x: A, i: int)
    requires
        0 <= i < s.len(),
        s[i] == x,
        forall|j: int| i < j < s.len() ==> s[j] != x,
    ensures
        last_index(s, x) == i,
{
    lemma_last_index(s, x);
}

proof fn lemma_pin_list_has(parts: Seq<PartRef>, q: int, p: int)
    requires
        0 <= q < parts.len(),
        0 <= p < pins_of(parts[q].kind),
    ensures
        last_index(pin_list(parts), (parts[q].id@, p)) >= 0,
    decreases parts.len(),
{
    let pl = pin_list(parts);
    let prev = pin_list(parts.drop_last());
    lemma_last_index(pl, (parts[q].id@, p));
    if q == parts.len() - 1 {
        let k = prev.len() + p;
        assert(pl[k] == (parts[q].id@, p));
    } else {
        lemma_pin_list_has(parts.drop_last(), q, p);
        let k = last_index(prev, (parts[q].id@, p));
        lemma_last_index(prev, (parts[q].id@, p));
        assert(pl[k] == prev[k]);
    }
}

/// After joining along `edges`, the two ends of every edge share a label.
pub proof fn lemma_edges_joined(labels: Seq<int>, edges: Seq<(int, int)>, k: int)
    requires
        0 <= k < edges.len(),
        forall|t: int|
            0 <= t < edges.len() ==> 0 <= (#[trigger] edges[t]).0 < labels.len() && 0 <= edges[t].1
                < labels.len(),
    ensures
        link_all(labels, edges)[edges[k].0] == link_all(labels, edges)[edges[k].1],
    decreases edges.len(),
{
    let prev = link_all(labels, edges.drop_last());
    lemma_link_all_len(labels, edges.drop_last());
    if k < edges.len() - 1 {
        assert(edges.drop_last()[k] == edges[k]);
        lemma_edges_joined(labels, edges.drop_last(), k);
    }
}

proof fn lemma_link_all_len(labels: Seq<int>, edges: Seq<(int, int)>)
    ensures
        link_all(labels, edges).len() == labels.len(),
    decreases edges.len(),
{
    if edges.len() > 0 {
        lemma_link_all_len(labels, edges.drop_last());
    }
}

proof fn lemma_relabel_joined(s: Seq<int>, a: int, b: int, x: int, y: int)
    requires
        0 <= a < s.len(),
        0 <= b < s.len(),
        0 <= x < s.len(),
        0 <= y < s.len(),
    ensures
        (relabel(s, s[b], s[a])[x] == relabel(s, s[b], s[a])[y]) == joined(s, a, b, x, y),
{
}

/// Two labellings that group the elements alike agree on grounding, on where
/// classes begin, and on the count of non-ground classes.
proof fn lemma_same_grouping(l1: Seq<int>, l2: Seq<int>, gp: Seq<int>, i: int)
    requires
        l1.len() == l2.len(),
        forall|x: int, y: int|
            0 <= x < l1.len() && 0 <= y < l1.len() ==> (#[trigger] l1[x] == #[trigger] l1[y] <==> l2[x]
                == l2[y]),
        forall|k: int| 0 <= k < gp.len() ==> 0 <= #[trigger] gp[k] < l1.len(),
        0 <= i <= l1.len(),
    ensures
        fresh(l1, gp, i) == fresh(l2, gp, i),
        i < l1.len() ==> (grounded(l1, gp, i) == grounded(l2, gp, i)),
        i < l1.len() ==> (starts_class(l1, i) == starts_class(l2, i)),
    decreases i,
{
    if i > 0 {
        lemma_same_grouping(l1, l2, gp, i - 1);
    }
    if i < l1.len() {
        if grounded(l1, gp, i) {
            let k = choose|k: int| 0 <= k < gp.len() && #[trigger] l1[gp[k]] == l1[i];
            assert(l2[gp[k]] == l2[i]);
        }
        if grounded(l2, gp, i) {
            let k = choose|k: int| 0 <= k < gp.len() && #[trigger] l2[gp[k]] == l2[i];
            assert(l1[gp[k]] == l1[i]);
        }
        if !starts_class(l1, i) {
            let j = choose|j: int| 0 <= j < i && #[trigger] l1[j] == l1[i];
            assert(l2[j] == l2[i]);
        }
        if !starts_class(l2, i) {
            let j = choose|j: int| 0 <= j < i && #[trigger] l2[j] == l2[i];
            assert(l1[j] == l1[i]);
        }
    }
}

proof fn lemma_fresh_le(classes: Seq<int>, gp: Seq<int>, i: int)
    requires
        0 <= i,
    ensures
        fresh(classes, gp, i) <= i,
    decreases i,
{
    if i > 0 {
        lemma_fresh_le(classes, gp, i - 1);
    }
}

/// Every pin of every block, block by block, pin by pin.
pub fn layout_pins(parts: &Vec<PartRef>) -> (pins: Vec<PinRef>)
    ensures
        pin_views(pins@) == pin_list(parts@),
{
    let mut pins: Vec<PinRef> = Vec::new();
    for q in 0..parts.len()
        invariant
            pin_views(pins@) == pin_list(parts@.take(q as int)),
    {
        let part = &parts[q];
        let count = part.kind.pin_count();
        let ghost before = pins@;
        for p in 0..count
            invariant
                q < parts.len(),
                count == pins_of(parts@[q as int].kind),
                part == &parts@[q as int],
                pins@.len() == before.len() + p,
                forall|j: int| 0 <= j < before.len() ==> pins@[j] == before[j],
                forall|j: int| 0 <= j < p ==> (#[trigger] pins@[before.len() + j])@ == (part.id@, j),
        {
            pins.push(PinRef { component_id: part.id.clone(), pin_index: p });
        }
        proof {
            let tq = parts@.take(q as int);
            let tq1 = parts@.take(q + 1);
            assert(tq1.drop_last() =~= tq);
            let tail = Seq::new(pins_of(parts@[q as int].kind), |p: int| (parts@[q as int].id@, p));
            assert forall|j: int| 0 <= j < pins@.len() implies pin_views(pins@)[j] == (pin_views(before)
                + tail)[j] by {
                if j >= before.len() {
                    let k = j - before.len();
                    assert(pins@[before.len() + k]@ == (part.id@, k));
                }
            }
            assert(pin_views(pins@) =~= pin_views(before) + tail);
        }
    }
    assert(parts@.take(parts.len() as int) =~= parts@);
    pins
}

/// The position of the last pin in `pins` equal to `key`.
pub fn last_pin_index(pins: &Vec<PinRef>, key: &PinRef) -> (r: Option<usize>)
    ensures
        r matches Some(i) ==> i == last_index(pin_views(pins@), key@),
        r is None ==> last_index(pin_views(pins@), key@) == -1,
{
    let ghost v = pin_views(pins@);
    let mut i = pins.len();
    while i > 0
        invariant
            i <= pins.len(),
            v == pin_views(pins@),
            forall|j: int| i <= j < pins.len() ==> v[j] != key@,
        decreases i,
    {
        i = i - 1;
        if pins[i].same_pin(key) {
            proof {
                lemma_last_index_unique(v, key@, i as int);
            }
            return Some(i);
        }
    }
    proof {
        lemma_last_index(v, key@);
    }
    None
}

/// Assigns circuit nodes to the pins of `parts` joined by `wires`.
///
/// Fails when there is no block, or at the first wire that ends at a pin no
/// block has (naming that end: `from` if it is unknown, else `to`).
pub fn resolve_layout_nodes(parts: &Vec<PartRef>, wires: &Vec<Wire>) -> (r: Result<
    LayoutNodes,
    LayoutError,
>)
    ensures
        r matches Err(LayoutError::NoComponents) <==> parts.len() == 0,
        r matches Err(LayoutError::InvalidWire(pin)) ==> {
            let pins = pin_list(parts@);
            exists|w: int|
                0 <= w < wires.len() && !wire_ok(pins, #[trigger] wires@[w]) && (forall|v: int|
                    0 <= v < w ==> wire_ok(pins, #[trigger] wires@[v])) && pin@ == (if last_index(
                    pins,
                    wires@[w].from@,
                ) < 0 {
                    wires@[w].from@
                } else {
                    wires@[w].to@
                })
        },
        r is Ok <==> parts.len() > 0 && forall|w: int|
            0 <= w < wires.len() ==> wire_ok(pin_list(parts@), #[trigger] wires@[w]),
        r matches Ok(out) ==> layout_spec(parts@, wires@, out),
        r matches Ok(out) ==> forall|w: int|
            0 <= w < wires.len() ==> out.pin_nodes@[last_index(pin_list(parts@), (#[trigger] wires@[w]).from@)]
                == out.pin_nodes@[last_index(pin_list(parts@), wires@[w].to@)],
{
    if parts.len() == 0 {
        return Err(LayoutError::NoComponents);
    }
    let pins = layout_pins(parts);
    let ghost pv = pin_list(parts@);
    let n = pins.len();
    let mut dsu = Dsu::new(n);
    let ghost edges = wire_edges(pv, wires@);
    proof {
        lemma_link_all_len(singletons(n as nat), edges.take(0));
        assert(edges.take(0) =~= Seq::<(int, int)>::empty());
    }
    for w in 0..wires.len()
        invariant
            n == pins@.len(),
            pin_views(pins@) == pv,
            pv == pin_list(parts@),
            edges == wire_edges(pv, wires@),
            dsu.wf(),
            dsu@.len() == n,
            forall|x: int, y: int|
                0 <= x < n && 0 <= y < n ==> (#[trigger] dsu@[x] == #[trigger] dsu@[y] <==> link_all(
                    singletons(n as nat),
                    edges.take(w as int),
                )[x] == link_all(singletons(n as nat), edges.take(w as int))[y]),
            forall|v: int| 0 <= v < w ==> wire_ok(pv, #[trigger] wires@[v]),
            parts.len() > 0,
    {
        let wire = &wires[w];
        proof {
            lemma_last_index(pv, wire.from@);
            lemma_last_index(pv, wire.to@);
        }
        let a = match last_pin_index(&pins, &wire.from) {
            Some(a) => a,
            None => {
                return Err(LayoutError::InvalidWire(wire.from.duplicate()));
            },
        };
        let b = match last_pin_index(&pins, &wire.to) {
            Some(b) => b,
            None => {
                return Err(LayoutError::InvalidWire(wire.to.duplicate()));
            },
        };
        let ghost before = dsu@;
        dsu.union(a, b);
        proof {
            let prev = link_all(singletons(n as nat), edges.take(w as int));
            let next = link_all(singletons(n as nat), edges.take(w + 1));
            assert(edges.take(w + 1).drop_last() =~= edges.take(w as int));
            assert(edges.take(w + 1).last() == (a as int, b as int));
            lemma_link_all_len(singletons(n as nat), edges.take(w as int));
            assert(next == relabel(prev, prev[b as int], prev[a as int]));
            assert forall|x: int, y: int|
                0 <= x < n && 0 <= y < n implies (#[trigger] dsu@[x] == #[trigger] dsu@[y] <==> next[x]
                == next[y]) by {
                lemma_relabel_joined(prev, a as int, b as int, x, y);
                assert(before[x] == before[y] <==> prev[x] == prev[y]);
                assert(before[x] == before[a as int] <==> prev[x] == prev[a as int]);
                assert(before[y] == before[b as int] <==> prev[y] == prev[b as int]);
                assert(before[x] == before[b as int] <==> prev[x] == prev[b as int]);
                assert(before[y] == before[a as int] <==> prev[y] == prev[a as int]);
            }
        }
    }
    assert(edges.take(wires.len() as int) =~= edges);
    let ghost classes = link_all(singletons(n as nat), edges);
    let ghost roots = dsu@;
    proof {
        lemma_link_all_len(singletons(n as nat), edges);
        dsu.lemma_roots_in_range();
    }
    // The representatives of the classes that hold a ground pin.
    let mut ground_root: Vec<bool> = Vec::new();
    for i in 0..n
        invariant
            ground_root@ == Seq::new(i as nat, |j: int| false),
    {
        ground_root.push(false);
    }
    let mut q: usize = 0;
    while q < parts.len()
        invariant
            n == pins@.len(),
            pin_views(pins@) == pv,
            pv == pin_list(parts@),
            dsu.wf(),
            dsu@ == roots,
            roots.len() == n,
            forall|i: int| 0 <= i < n ==> 0 <= #[trigger] roots[i] < n,
            ground_root@.len() == n,
            forall|k: int|
                0 <= k < ground_pins(parts@.take(q as int), pv).len() ==> 0 <= #[trigger] ground_pins(
                    parts@.take(q as int),
                    pv,
                )[k] < n,
            forall|r: int|
                0 <= r < n ==> (#[trigger] ground_root@[r] <==> exists|k: int|
                    0 <= k < ground_pins(parts@.take(q as int), pv).len() && roots[ground_pins(
                        parts@.take(q as int),
                        pv,
                    )[k]] == r),
            q <= parts.len(),
        decreases parts.len() - q,
    {
        let ghost gq = ground_pins(parts@.take(q as int), pv);
        let ghost gq1 = ground_pins(parts@.take(q + 1), pv);
        proof {
            assert(parts@.take(q + 1).drop_last() =~= parts@.take(q as int));
        }
        if parts[q].kind == ComponentKind::Ground {
            let key = PinRef { component_id: parts[q].id.clone(), pin_index: 0 };
            match last_pin_index(&pins, &key) {
                Some(idx) => {
                    proof {
                        lemma_last_index(pv, key@);
                    }
                    let root = dsu.find(idx);
                    let ghost gr_before = ground_root@;
                    ground_root.set(root, true);
                    proof {
                        assert(gq1 == gq.push(idx as int));
                        assert forall|k: int| 0 <= k < gq1.len() implies 0 <= #[trigger] gq1[k] < n by {
                            if k < gq.len() {
                                assert(gq1[k] == gq[k]);
                            }
                        }
                        assert forall|r: int|
                            0 <= r < n implies (#[trigger] ground_root@[r] <==> exists|k: int|
                                0 <= k < gq1.len() && roots[gq1[k]] == r) by {
                            if r == root {
                                assert(roots[gq1[gq.len() as int]] == r);
                            } else {
                                if gr_before[r] {
                                    let k = choose|k: int| 0 <= k < gq.len() && roots[gq[k]] == r;
                                    assert(roots[gq1[k]] == r);
                                }
                                if exists|k: int| 0 <= k < gq1.len() && roots[gq1[k]] == r {
                                    let k = choose|k: int| 0 <= k < gq1.len() && roots[gq1[k]] == r;
                                    assert(k < gq.len());
                                    assert(roots[gq[k]] == r);
                                }
                            }
                        }
                    }
                },
                None => {
                    proof {
                        assert(gq1 == gq);
                    }
                },
            }
        } else {
            proof {
                assert(gq1 == gq);
            }
        }
        q = q + 1;
    }
    assert(parts@.take(parts.len() as int) =~= parts@);
    let ghost gp = ground_pins(parts@, pv);
    // Number the classes in the order of their first pin.
    let mut root_node: Vec<usize> = Vec::new();
    for i in 0..n
        invariant
            root_node@ == Seq::new(i as nat, |j: int| 0usize),
    {
        root_node.push(0);
    }
    let mut count: usize = 0;
    let mut pin_nodes: Vec<NodeId> = Vec::new();
    for i in 0..n
        invariant
            n == pins@.len(),
            dsu.wf(),
            dsu@ == roots,
            roots.len() == n,
            forall|j: int| 0 <= j < n ==> 0 <= #[trigger] roots[j] < n,
            forall|k: int| 0 <= k < gp.len() ==> 0 <= #[trigger] gp[k] < n,
            ground_root@.len() == n,
            forall|r: int|
                0 <= r < n ==> (#[trigger] ground_root@[r] <==> exists|k: int|
                    0 <= k < gp.len() && roots[gp[k]] == r),
            root_node@.len() == n,
            forall|r: int|
                0 <= r < n ==> (#[trigger] root_node@[r] != 0 <==> (exists|j: int|
                    0 <= j < i && roots[j] == r) && !ground_root@[r]),
            forall|r: int| 0 <= r < n ==> #[trigger] root_node@[r] <= count,
            forall|r1: int, r2: int|
                0 <= r1 < n && 0 <= r2 < n && r1 != r2 && #[trigger] root_node@[r1] != 0 ==> root_node@[r1]
                    != #[trigger] root_node@[r2],
            count == fresh(roots, gp, i as int),
            pin_nodes@.len() == i,
            forall|j: int|
                0 <= j < i ==> (#[trigger] pin_nodes@[j]).0 == if ground_root@[roots[j]] {
                    0
                } else {
                    root_node@[roots[j]] as int
                },
            forall|j: int|
                0 <= j < i && !ground_root@[roots[j]] && starts_class(roots, j) ==> (
                #[trigger] pin_nodes@[j]).0 == fresh(roots, gp, j) + 1,
    {
        let root = dsu.find(i);
        proof {
            lemma_fresh_le(roots, gp, i as int);
            if grounded(roots, gp, i as int) {
                let k = choose|k: int| 0 <= k < gp.len() && #[trigger] roots[gp[k]] == roots[i as int];
                assert(ground_root@[root as int]);
            }
            if ground_root@[root as int] {
                let k = choose|k: int| 0 <= k < gp.len() && roots[gp[k]] == root;
                assert(roots[gp[k]] == roots[i as int]);
            }
            assert(grounded(roots, gp, i as int) == ground_root@[root as int]);
            if starts_class(roots, i as int) {
                assert forall|j: int| 0 <= j < i implies roots[j] != root by {}
            } else {
                let j = choose|j: int| 0 <= j < i && #[trigger] roots[j] == roots[i as int];
                assert(roots[j] == root);
            }
        }
        let ghost rn_before = root_node@;
        let node = if ground_root[root] {
            NodeId(0)
        } else {
            if root_node[root] == 0 {
                count = count + 1;
                root_node.set(root, count);
            }
            NodeId(root_node[root])
        };
        pin_nodes.push(node);
        proof {
            assert forall|r: int|
                0 <= r < n implies (#[trigger] root_node@[r] != 0 <==> (exists|j: int|
                    0 <= j < i + 1 && roots[j] == r) && !ground_root@[r]) by {
                if r != root {
                    if exists|j: int| 0 <= j < i + 1 && roots[j] == r {
                        let j = choose|j: int| 0 <= j < i + 1 && roots[j] == r;
                        assert(j < i);
                    }
                } else {
                    assert(roots[i as int] == r);
                }
            }
        }
    }
    // Every pin of a class carries the class's node.
    proof {
        assert forall|x: int, y: int|
            0 <= x < n && 0 <= y < n implies (#[trigger] classes[x] == #[trigger] classes[y] <==> roots[x]
            == roots[y]) by {}
        lemma_same_grouping(roots, classes, gp, n as int);
        assert forall|i: int|
            0 <= i < n implies (grounded(roots, gp, i) == grounded(classes, gp, i) && starts_class(
                roots,
                i,
            ) == starts_class(classes, i) && fresh(roots, gp, i) == fresh(classes, gp, i)) by {
            lemma_same_grouping(roots, classes, gp, i);
        }
        assert forall|i: int|
            0 <= i < n implies ((#[trigger] pin_nodes@[i]).0 == 0 <==> grounded(roots, gp, i)) by {
            if grounded(roots, gp, i) {
                let k = choose|k: int| 0 <= k < gp.len() && #[trigger] roots[gp[k]] == roots[i];
                assert(ground_root@[roots[i]]);
            }
            if ground_root@[roots[i]] {
                let k = choose|k: int| 0 <= k < gp.len() && roots[gp[k]] == roots[i];
                assert(roots[gp[k]] == roots[i]);
            } else {
                assert(root_node@[roots[i]] != 0);
            }
        }
        assert forall|i: int|
            0 <= i < n && !grounded(roots, gp, i) && starts_class(roots, i) implies (
            #[trigger] pin_nodes@[i]).0 == fresh(roots, gp, i) + 1 by {
            if ground_root@[roots[i]] {
                let k = choose|k: int| 0 <= k < gp.len() && roots[gp[k]] == roots[i];
                assert(roots[gp[k]] == roots[i]);
            }
        }
        assert forall|i: int, j: int|
            0 <= i < n && 0 <= j < n && #[trigger] pin_nodes@[i] == #[trigger] pin_nodes@[j]
                && pin_nodes@[i].0 != 0 implies roots[i] == roots[j] by {
            if roots[i] != roots[j] {
                if ground_root@[roots[j]] {
                    assert(pin_nodes@[j].0 == 0);
                }
            }
        }
        assert(numbers_classes(classes, gp, pin_nodes@, count as nat));
        assert forall|w: int|
            0 <= w < wires.len() implies pin_nodes@[last_index(pv, (#[trigger] wires@[w]).from@)]
            == pin_nodes@[last_index(pv, wires@[w].to@)] by {
            assert forall|t: int| 0 <= t < edges.len() implies 0 <= (#[trigger] edges[t]).0 < n && 0
                <= edges[t].1 < n by {
                assert(wire_ok(pv, wires@[t]));
                lemma_last_index(pv, wires@[t].from@);
                lemma_last_index(pv, wires@[t].to@);
            }
            lemma_edges_joined(singletons(n as nat), edges, w);
        }
    }
    // The nodes of each block's pins.
    let mut part_nodes: Vec<Vec<NodeId>> = Vec::new();
    for q in 0..parts.len()
        invariant
            n == pins@.len(),
            n == pin_nodes@.len(),
            pin_views(pins@) == pv,
            pv == pin_list(parts@),
            part_nodes@.len() == q,
            forall|t: int|
                #![trigger part_nodes@[t]]
                0 <= t < q ==> {
                    &&& part_nodes@[t]@.len() == pins_of(parts@[t].kind)
                    &&& forall|p: int|
                        0 <= p < pins_of(parts@[t].kind) ==> part_nodes@[t]@[p]
                            == pin_nodes@[last_index(pv, (parts@[t].id@, p))]
                },
    {
        let part = &parts[q];
        let count_q = part.kind.pin_count();
        let mut nodes: Vec<NodeId> = Vec::new();
        for p in 0..count_q
            invariant
                q < parts.len(),
                n == pins@.len(),
                n == pin_nodes@.len(),
                pin_views(pins@) == pv,
                pv == pin_list(parts@),
                part == &parts@[q as int],
                count_q == pins_of(part.kind),
                nodes@.len() == p,
                forall|t: int|
                    0 <= t < p ==> #[trigger] nodes@[t] == pin_nodes@[last_index(pv, (part.id@, t))],
        {
            let key = PinRef { component_id: part.id.clone(), pin_index: p };
            proof {
                lemma_pin_list_has(parts@, q as int, p as int);
                lemma_last_index(pv, key@);
            }
            match last_pin_index(&pins, &key) {
                Some(idx) => {
                    nodes.push(pin_nodes[idx]);
                },
                None => {
                    assert(false);
                },
            }
        }
        part_nodes.push(nodes);
    }
    Ok(LayoutNodes { node_count: count, pin_nodes, part_nodes })
}

} // verus!
