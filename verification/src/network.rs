//! Carrying out a plan of changes (see [`crate::commit`]) on the road graph.

use vstd::prelude::*;
use crate::commit::{EntityInfo, GraphOp, NodeRef, info_of, lookup, spawns, solution_edges, solution_edges_spec, solution_joints, joint_edges};
use crate::geom::{Point, RoadSegment};
use crate::graph::{GraphFault, GraphView, RoadGraph, adjacent, segment_weight_spec};
use crate::road_drawing::EntityId;

verus! {

/// The node a reference names, once `k` segments of the plan are spawned
/// (`sp` holds their start and end nodes).
pub open spec fn resolve(r: NodeRef, infos: Seq<(EntityId, EntityInfo)>, sp: Seq<(u32, u32)>, k: nat) -> Option<u32> {
    match r {
        NodeRef::SpawnedStart(i) => if i < k { Some(sp[i as int].0) } else { None },
        NodeRef::SpawnedEnd(i) => if i < k { Some(sp[i as int].1) } else { None },
        NodeRef::RoadStart(e) => match info_of(infos, e) {
            Some(EntityInfo::Road(_, n)) => Some(n.0),
            _ => None,
        },
        NodeRef::RoadEnd(e) => match info_of(infos, e) {
            Some(EntityInfo::Road(_, n)) => Some(n.1),
            _ => None,
        },
        NodeRef::Terminus(e) => match info_of(infos, e) {
            Some(EntityInfo::Terminus(n)) => Some(n),
            _ => None,
        },
    }
}

/// The edges from every neighbor of `from` to `to`.
pub open spec fn edges_to(v: GraphView, from: u32, to: u32) -> Set<(u32, u32, u64)> {
    Set::new(|e: (u32, u32, u64)| adjacent(v.edges, from, e.0) && e.1 == to && e.2 == 0)
}

/// The edges from `to` to every neighbor of `from`.
pub open spec fn edges_from(v: GraphView, from: u32, to: u32) -> Set<(u32, u32, u64)> {
    Set::new(|e: (u32, u32, u64)| e.0 == to && adjacent(v.edges, from, e.1) && e.2 == 0)
}

pub open spec fn with_edges(v: GraphView, edges: Set<(u32, u32, u64)>) -> GraphView {
    GraphView { nodes: v.nodes, edges }
}

/// The network after one operation, the `k`-th spawn of the plan being the
/// next one; `None` where a node it names is missing, or a spawned node is not
/// new.
pub open spec fn apply_op(
    v: GraphView,
    op: GraphOp,
    infos: Seq<(EntityId, EntityInfo)>,
    ents: Seq<EntityId>,
    sp: Seq<(u32, u32)>,
    k: nat,
) -> Option<GraphView> {
    match op {
        GraphOp::Spawn(seg) => if k < sp.len() && k < ents.len() {
            let (s, t) = sp[k as int];
            if !v.nodes.dom().contains(s) && !v.nodes.dom().contains(t) && s != t {
                Some(
                    GraphView {
                        nodes: v.nodes.insert(s, ents[k as int]).insert(t, ents[k as int]),
                        edges: v.edges.insert((s, t, segment_weight_spec(seg))),
                    },
                )
            } else {
                None
            }
        } else {
            None
        },
        GraphOp::Connect(a, b) => match (resolve(a, infos, sp, k), resolve(b, infos, sp, k)) {
            (Some(x), Some(y)) => if v.nodes.dom().contains(x) && v.nodes.dom().contains(y) {
                Some(with_edges(v, v.edges.insert((x, y, 0))))
            } else {
                None
            },
            _ => None,
        },
        GraphOp::ConnectNeighbors(f, t) => match (resolve(f, infos, sp, k), resolve(t, infos, sp, k)) {
            (Some(x), Some(y)) => if v.nodes.dom().contains(y) {
                Some(with_edges(v, v.edges.union(edges_to(v, x, y))))
            } else {
                None
            },
            _ => None,
        },
        GraphOp::SplitNeighbors(f1, t1, f2, t2) => match (
            resolve(f1, infos, sp, k),
            resolve(t1, infos, sp, k),
            resolve(f2, infos, sp, k),
            resolve(t2, infos, sp, k),
        ) {
            (Some(x1), Some(y1), Some(x2), Some(y2)) => if v.nodes.dom().contains(y1) && v.nodes.dom().contains(y2) {
                Some(with_edges(v, v.edges.union(edges_to(v, x1, y1)).union(edges_from(v, x2, y2))))
            } else {
                None
            },
            _ => None,
        },
        GraphOp::Remove(e) => match info_of(infos, e) {
            Some(EntityInfo::Road(_, n)) => Some(
                GraphView {
                    nodes: v.nodes.remove(n.0).remove(n.1),
                    edges: v.edges.filter(
                        |x: (u32, u32, u64)| x.0 != n.0 && x.1 != n.0 && x.0 != n.1 && x.1 != n.1,
                    ),
                },
            ),
            _ => None,
        },
    }
}

/// Why an operation cannot be carried out on `v`, the `k`-th spawn of the
/// plan being the next one: no entity is given for a segment to spawn, or a
/// node it names does not resolve or is not in the network where it must be.
pub open spec fn op_fault(
    v: GraphView,
    op: GraphOp,
    infos: Seq<(EntityId, EntityInfo)>,
    ents: Seq<EntityId>,
    sp: Seq<(u32, u32)>,
    k: nat,
) -> Option<GraphFault> {
    match op {
        GraphOp::Spawn(_) => if k < ents.len() {
            None
        } else {
            Some(GraphFault::MissingEntity)
        },
        GraphOp::Connect(a, b) => match (resolve(a, infos, sp, k), resolve(b, infos, sp, k)) {
            (Some(x), Some(y)) => if v.nodes.dom().contains(x) && v.nodes.dom().contains(y) {
                None
            } else {
                Some(GraphFault::MissingNode)
            },
            _ => Some(GraphFault::MissingNode),
        },
        GraphOp::ConnectNeighbors(f, t) => match (resolve(f, infos, sp, k), resolve(t, infos, sp, k)) {
            (Some(_), Some(y)) => if v.nodes.dom().contains(y) {
                None
            } else {
                Some(GraphFault::MissingNode)
            },
            _ => Some(GraphFault::MissingNode),
        },
        GraphOp::SplitNeighbors(f1, t1, f2, t2) => match (
            resolve(f1, infos, sp, k),
            resolve(t1, infos, sp, k),
            resolve(f2, infos, sp, k),
            resolve(t2, infos, sp, k),
        ) {
            (Some(_), Some(y1), Some(_), Some(y2)) => if v.nodes.dom().contains(y1) && v.nodes.dom().contains(y2) {
                None
            } else {
                Some(GraphFault::MissingNode)
            },
            _ => Some(GraphFault::MissingNode),
        },
        GraphOp::Remove(e) => match info_of(infos, e) {
            Some(EntityInfo::Road(_, _)) => None,
            _ => Some(GraphFault::MissingNode),
        },
    }
}

/// The network after the first `n` operations of a plan, where the spawned
/// segments are the entities `ents` and got the nodes `sp`, in order.
pub open spec fn apply_upto(
    v: GraphView,
    ops: Seq<GraphOp>,
    infos: Seq<(EntityId, EntityInfo)>,
    ents: Seq<EntityId>,
    sp: Seq<(u32, u32)>,
    n: int,
) -> Option<GraphView>
    decreases n,
{
    if n <= 0 {
        Some(v)
    } else {
        match apply_upto(v, ops, infos, ents, sp, n - 1) {
            Some(w) => apply_op(w, ops[n - 1], infos, ents, sp, spawns(ops.take(n - 1))),
            None => None,
        }
    }
}

proof fn lemma_spawns_step(ops: Seq<GraphOp>, n: int)
    requires
        0 <= n < ops.len(),
    ensures
        spawns(ops.take(n + 1)) == spawns(ops.take(n)) + if ops[n] is Spawn {
            1nat
        } else {
            0nat
        },
{
    assert(ops.take(n + 1).drop_last() =~= ops.take(n));
}

/// Nodes of spawns beyond those made in the first `n` operations do not
/// change what they do.
proof fn lemma_apply_upto_stable(
    v: GraphView,
    ops: Seq<GraphOp>,
    infos: Seq<(EntityId, EntityInfo)>,
    ents: Seq<EntityId>,
    sp1: Seq<(u32, u32)>,
    sp2: Seq<(u32, u32)>,
    n: int,
)
    requires
        0 <= n <= ops.len(),
        spawns(ops.take(n)) <= sp1.len() <= sp2.len(),
        forall|i: int| 0 <= i < sp1.len() ==> sp1[i] == sp2[i],
    ensures
        apply_upto(v, ops, infos, ents, sp1, n) == apply_upto(v, ops, infos, ents, sp2, n),
    decreases n,
{
    if n > 0 {
        lemma_spawns_step(ops, n - 1);
        lemma_apply_upto_stable(v, ops, infos, ents, sp1, sp2, n - 1);
    }
}

/// A bound on the edges the network holds after the operations `ops`, when it
/// held `c` before them: a spawn or a join adds one edge, joining the
/// neighbors of a node adds at most as many as the network holds, a split at
/// most twice that, and a removal none.
pub open spec fn plan_edge_budget(ops: Seq<GraphOp>, c: nat) -> nat
    decreases ops.len(),
{
    if ops.len() == 0 {
        c
    } else {
        let b = plan_edge_budget(ops.drop_last(), c);
        match ops.last() {
            GraphOp::Spawn(_) => b + 1,
            GraphOp::Connect(_, _) => b + 1,
            GraphOp::ConnectNeighbors(_, _) => 2 * b,
            GraphOp::SplitNeighbors(_, _, _, _) => 3 * b,
            GraphOp::Remove(_) => b,
        }
    }
}

/// The network `v`, holding `c` edges, has room for every node and edge that
/// the plan `ops` can add.
pub open spec fn plan_fits(v: GraphView, c: nat, ops: Seq<GraphOp>) -> bool {
    &&& v.nodes.dom().len() + 2 * spawns(ops) <= u32::MAX
    &&& plan_edge_budget(ops, c) <= u32::MAX
}

/// No operation of the plan `ops` can meet a fault on `v`, whatever nodes
/// its spawned segments get.
pub open spec fn plan_never_faults(
    v: GraphView,
    ops: Seq<GraphOp>,
    infos: Seq<(EntityId, EntityInfo)>,
    ents: Seq<EntityId>,
) -> bool {
    forall|sp: Seq<(u32, u32)>, n: int|
        #![trigger apply_upto(v, ops, infos, ents, sp, n)]
        0 <= n < ops.len() && sp.len() == spawns(ops.take(n)) && apply_upto(v, ops, infos, ents, sp, n) is Some
            ==> op_fault(apply_upto(v, ops, infos, ents, sp, n)->0, ops[n], infos, ents, sp, sp.len()) is None
}

proof fn lemma_budget_step(ops: Seq<GraphOp>, c: nat, n: int)
    requires
        0 <= n < ops.len(),
    ensures
        plan_edge_budget(ops.take(n + 1), c) == match ops[n] {
            GraphOp::Spawn(_) => plan_edge_budget(ops.take(n), c) + 1,
            GraphOp::Connect(_, _) => plan_edge_budget(ops.take(n), c) + 1,
            GraphOp::ConnectNeighbors(_, _) => 2 * plan_edge_budget(ops.take(n), c),
            GraphOp::SplitNeighbors(_, _, _, _) => 3 * plan_edge_budget(ops.take(n), c),
            GraphOp::Remove(_) => plan_edge_budget(ops.take(n), c),
        },
{
    assert(ops.take(n + 1).drop_last() =~= ops.take(n));
}

/// Neither the spawns nor the edge budget of a plan shrink as it goes on.
proof fn lemma_plan_prefix(ops: Seq<GraphOp>, c: nat, n: int)
    requires
        0 <= n <= ops.len(),
    ensures
        spawns(ops.take(n)) <= spawns(ops),
        plan_edge_budget(ops.take(n), c) <= plan_edge_budget(ops, c),
    decreases ops.len() - n,
{
    if n < ops.len() {
        lemma_spawns_step(ops, n);
        lemma_budget_step(ops, c, n);
        lemma_plan_prefix(ops, c, n + 1);
    } else {
        assert(ops.take(n) =~= ops);
    }
}

/// The node a reference names, given the start and end nodes of the
/// segments spawned so far.
fn resolve_ref(r: NodeRef, infos: &Vec<(EntityId, EntityInfo)>, sp: &Vec<(u32, u32)>) -> (x: Option<u32>)
    ensures
        x == resolve(r, infos@, sp@, sp@.len()),
{
    match r {
        NodeRef::SpawnedStart(i) => if i < sp.len() {
            Some(sp[i].0)
        } else {
            None
        },
        NodeRef::SpawnedEnd(i) => if i < sp.len() {
            Some(sp[i].1)
        } else {
            None
        },
        NodeRef::RoadStart(e) => match lookup(infos, e) {
            Some(EntityInfo::Road(_, n)) => Some(n.0),
            _ => None,
        },
        NodeRef::RoadEnd(e) => match lookup(infos, e) {
            Some(EntityInfo::Road(_, n)) => Some(n.1),
            _ => None,
        },
        NodeRef::Terminus(e) => match lookup(infos, e) {
            Some(EntityInfo::Terminus(n)) => Some(n),
            _ => None,
        },
    }
}

/// The edges of weight zero between `node` and each of `nbrs`: from `node`
/// when `outward`, to it otherwise.
pub open spec fn fan(nbrs: Seq<u32>, node: u32, outward: bool) -> Set<(u32, u32, u64)> {
    Set::new(
        |e: (u32, u32, u64)|
            e.2 == 0 && if outward {
                e.0 == node && nbrs.contains(e.1)
            } else {
                nbrs.contains(e.0) && e.1 == node
            },
    )
}

/// Joins `node` and each of `nbrs` by an edge of weight zero.
fn connect_each(graph: &mut RoadGraph, nbrs: &Vec<u32>, node: u32, outward: bool) -> (r: Result<(), GraphFault>)
    requires
        old(graph)@.wf(),
        old(graph)@.nodes.dom().contains(node),
        forall|q: int| 0 <= q < nbrs@.len() ==> old(graph)@.nodes.dom().contains(#[trigger] nbrs@[q]),
    ensures
        final(graph)@.wf(),
        final(graph)@.nodes == old(graph)@.nodes,
        r is Ok ==> final(graph)@.edges == old(graph)@.edges.union(fan(nbrs@, node, outward)),
        r is Ok ==> final(graph).edge_count() == old(graph).edge_count() + nbrs@.len(),
        r matches Err(f) ==> {
            &&& f == GraphFault::Full
            &&& final(graph).edge_count() >= u32::MAX
            &&& final(graph).edge_count() < old(graph).edge_count() + nbrs@.len()
        },
{
    let ghost v0 = graph@;
    let mut j: usize = 0;
    while j < nbrs.len()
        invariant
            j <= nbrs.len(),
            graph@.wf(),
            graph@.nodes == v0.nodes,
            v0.nodes == old(graph)@.nodes,
            v0.nodes.dom().contains(node),
            forall|q: int| 0 <= q < nbrs@.len() ==> v0.nodes.dom().contains(#[trigger] nbrs@[q]),
            graph@.edges == v0.edges.union(fan(nbrs@.take(j as int), node, outward)),
            graph.edge_count() == old(graph).edge_count() + j,
        decreases nbrs.len() - j,
    {
        let m = nbrs[j];
        let ghost before = graph@;
        let added = if outward {
            graph.add_edge(node, m, 0)
        } else {
            graph.add_edge(m, node, 0)
        };
        assert(graph@.nodes == before.nodes);
        match added {
            Ok(()) => {},
            Err(f) => {
                return Err(f);
            },
        }
        proof {
            let t0 = nbrs@.take(j as int);
            let t1 = nbrs@.take(j + 1);
            assert(t1 =~= t0.push(m));
            assert forall|e: (u32, u32, u64)| fan(t1, node, outward).contains(e) <==> (fan(t0, node, outward).contains(e)
                || e == (if outward { (node, m, 0u64) } else { (m, node, 0u64) })) by {
                if outward {
                    if e.0 == node && e.2 == 0 && t1.contains(e.1) && e.1 != m {
                        let q = choose|q: int| 0 <= q < t1.len() && t1[q] == e.1;
                        assert(t0[q] == e.1);
                    }
                    if e.2 == 0 && e.0 == node && t0.contains(e.1) {
                        let q = choose|q: int| 0 <= q < t0.len() && t0[q] == e.1;
                        assert(t1[q] == e.1);
                    }
                    if e == (node, m, 0u64) {
                        assert(t1[j as int] == m);
                    }
                } else {
                    if e.1 == node && e.2 == 0 && t1.contains(e.0) && e.0 != m {
                        let q = choose|q: int| 0 <= q < t1.len() && t1[q] == e.0;
                        assert(t0[q] == e.0);
                    }
                    if e.2 == 0 && e.1 == node && t0.contains(e.0) {
                        let q = choose|q: int| 0 <= q < t0.len() && t0[q] == e.0;
                        assert(t1[q] == e.0);
                    }
                    if e == (m, node, 0u64) {
                        assert(t1[j as int] == m);
                    }
                }
            }
            assert(graph@.edges =~= v0.edges.union(fan(t1, node, outward)));
        }
        j = j + 1;
    }
    assert(nbrs@.take(nbrs@.len() as int) =~= nbrs@);
    Ok(())
}

/// Carries out a plan of changes on the road network: the `k`-th segment
/// that the plan spawns gets the entity `ents[k]`. Gives the start and end
/// nodes of the spawned segments, in order, when the whole plan was carried
/// out.
pub fn apply_plan(
    graph: &mut RoadGraph,
    ops: &Vec<GraphOp>,
    infos: &Vec<(EntityId, EntityInfo)>,
    ents: &Vec<EntityId>,
) -> (r: Result<Vec<(u32, u32)>, GraphFault>)
    requires
        old(graph)@.wf(),
    ensures
        final(graph)@.wf(),
        r matches Ok(sp) ==> {
            &&& sp@.len() == spawns(ops@)
            &&& apply_upto(old(graph)@, ops@, infos@, ents@, sp@, ops@.len() as int) == Some(final(graph)@)
        },
        r is Ok ==> spawns(ops@) <= ents@.len(),
        plan_never_faults(old(graph)@, ops@, infos@, ents@) && plan_fits(old(graph)@, old(graph).edge_count(), ops@)
            ==> r is Ok,
        r matches Err(f) ==> (f == GraphFault::Full ==> final(graph)@.nodes.dom().len() >= u32::MAX
            || final(graph).edge_count() >= u32::MAX),
        r matches Err(f) ==> exists|sp: Seq<(u32, u32)>, n: int|
            #![trigger apply_upto(old(graph)@, ops@, infos@, ents@, sp, n)]
            {
                &&& 0 <= n < ops@.len()
                &&& sp.len() == spawns(ops@.take(n))
                &&& apply_upto(old(graph)@, ops@, infos@, ents@, sp, n) matches Some(w)
                &&& if f == GraphFault::Full {
                    &&& op_fault(w, ops@[n], infos@, ents@, sp, sp.len()) is None
                    &&& !(ops@[n] is Remove)
                } else {
                    &&& w == final(graph)@
                    &&& op_fault(w, ops@[n], infos@, ents@, sp, sp.len()) == Some(f)
                }
            },
{
    let ghost v0 = graph@;
    let mut sp: Vec<(u32, u32)> = Vec::new();
    let mut i: usize = 0;
    assert(ops@.take(0) =~= Seq::<GraphOp>::empty());
    while i < ops.len()
        invariant
            i <= ops.len(),
            old(graph)@ == v0,
            graph@.wf(),
            sp@.len() <= ents@.len(),
            sp@.len() == spawns(ops@.take(i as int)),
            apply_upto(v0, ops@, infos@, ents@, sp@, i as int) == Some(graph@),
            graph@.nodes.dom().len() <= v0.nodes.dom().len() + 2 * spawns(ops@.take(i as int)),
            graph.edge_count() <= plan_edge_budget(ops@.take(i as int), old(graph).edge_count()),
        decreases ops.len() - i,
    {
        let ghost sp0 = sp@;
        let ghost w = graph@;
        let ghost k = sp@.len();
        let ghost c = graph.edge_count();
        proof {
            lemma_spawns_step(ops@, i as int);
            lemma_budget_step(ops@, old(graph).edge_count(), i as int);
            lemma_plan_prefix(ops@, old(graph).edge_count(), i + 1);
        }
        match ops[i] {
            GraphOp::Spawn(seg) => {
                let n = sp.len();
                if n >= ents.len() {
                    return Err(GraphFault::MissingEntity);
                }
                match graph.add_segment(ents[n], seg) {
                    Ok(nodes) => {
                        sp.push(nodes);
                    },
                    Err(f) => {
                        return Err(f);
                    },
                }
                proof {
                    lemma_apply_upto_stable(v0, ops@, infos@, ents@, sp0, sp@, i as int);
                    assert(graph@ =~= apply_op(w, ops@[i as int], infos@, ents@, sp@, k)->0);
                }
            },
            GraphOp::Connect(a, b) => {
                let x = resolve_ref(a, infos, &sp);
                let y = resolve_ref(b, infos, &sp);
                match (x, y) {
                    (Some(x), Some(y)) => {
                        if !graph.contains(x) || !graph.contains(y) {
                            return Err(GraphFault::MissingNode);
                        }
                        match graph.add_edge(x, y, 0) {
                            Ok(()) => {},
                            Err(f) => {
                                return Err(f);
                            },
                        }
                        assert(graph@ =~= apply_op(w, ops@[i as int], infos@, ents@, sp@, k)->0);
                    },
                    _ => {
                        return Err(GraphFault::MissingNode);
                    },
                }
            },
            GraphOp::ConnectNeighbors(f, t) => {
                let x = resolve_ref(f, infos, &sp);
                let y = resolve_ref(t, infos, &sp);
                match (x, y) {
                    (Some(x), Some(y)) => {
                        if !graph.contains(y) {
                            return Err(GraphFault::MissingNode);
                        }
                        let nb = graph.neighbors(x);
                        proof {
                            assert forall|q: int| 0 <= q < nb@.len() implies w.nodes.dom().contains(#[trigger] nb@[q]) by {
                                assert(nb@.contains(nb@[q]));
                                let m = nb@[q];
                                let wt = choose|wt: u64| w.edges.contains((x, m, wt)) || w.edges.contains((m, x, wt));
                                if w.edges.contains((x, m, wt)) {
                                    assert(w.nodes.dom().contains(m));
                                } else {
                                    assert(w.nodes.dom().contains(m));
                                }
                            }
                        }
                        match connect_each(graph, &nb, y, false) {
                            Ok(()) => {},
                            Err(e) => {
                                return Err(e);
                            },
                        }
                        proof {
                            assert(fan(nb@, y, false) =~= edges_to(w, x, y));
                            assert(graph@ =~= apply_op(w, ops@[i as int], infos@, ents@, sp@, k)->0);
                        }
                    },
                    _ => {
                        return Err(GraphFault::MissingNode);
                    },
                }
            },
            GraphOp::SplitNeighbors(f1, t1, f2, t2) => {
                let x1 = resolve_ref(f1, infos, &sp);
                let y1 = resolve_ref(t1, infos, &sp);
                let x2 = resolve_ref(f2, infos, &sp);
                let y2 = resolve_ref(t2, infos, &sp);
                match (x1, y1, x2, y2) {
                    (Some(x1), Some(y1), Some(x2), Some(y2)) => {
                        if !graph.contains(y1) || !graph.contains(y2) {
                            return Err(GraphFault::MissingNode);
                        }
                        let nb1 = graph.neighbors(x1);
                        let nb2 = graph.neighbors(x2);
                        proof {
                            assert forall|q: int| 0 <= q < nb1@.len() implies w.nodes.dom().contains(#[trigger] nb1@[q]) by {
                                assert(nb1@.contains(nb1@[q]));
                                let m = nb1@[q];
                                let wt = choose|wt: u64| w.edges.contains((x1, m, wt)) || w.edges.contains((m, x1, wt));
                                if w.edges.contains((x1, m, wt)) {
                                    assert(w.nodes.dom().contains(m));
                                } else {
                                    assert(w.nodes.dom().contains(m));
                                }
                            }
                            assert forall|q: int| 0 <= q < nb2@.len() implies w.nodes.dom().contains(#[trigger] nb2@[q]) by {
                                assert(nb2@.contains(nb2@[q]));
                                let m = nb2@[q];
                                let wt = choose|wt: u64| w.edges.contains((x2, m, wt)) || w.edges.contains((m, x2, wt));
                                if w.edges.contains((x2, m, wt)) {
                                    assert(w.nodes.dom().contains(m));
                                } else {
                                    assert(w.nodes.dom().contains(m));
                                }
                            }
                        }
                        match connect_each(graph, &nb1, y1, false) {
                            Ok(()) => {},
                            Err(e) => {
                                return Err(e);
                            },
                        }
                        match connect_each(graph, &nb2, y2, true) {
                            Ok(()) => {},
                            Err(e) => {
                                return Err(e);
                            },
                        }
                        proof {
                            assert(fan(nb1@, y1, false) =~= edges_to(w, x1, y1));
                            assert(fan(nb2@, y2, true) =~= edges_from(w, x2, y2));
                            assert(graph@ =~= apply_op(w, ops@[i as int], infos@, ents@, sp@, k)->0);
                        }
                    },
                    _ => {
                        return Err(GraphFault::MissingNode);
                    },
                }
            },
            GraphOp::Remove(e) => {
                match lookup(infos, e) {
                    Some(EntityInfo::Road(_, n)) => {
                        graph.remove_node(n.0);
                        graph.remove_node(n.1);
                        assert(graph@ =~= apply_op(w, ops@[i as int], infos@, ents@, sp@, k)->0);
                    },
                    _ => {
                        return Err(GraphFault::MissingNode);
                    },
                }
            },
        }
        i = i + 1;
    }
    assert(ops@.take(ops@.len() as int) =~= ops@);
    Ok(sp)
}


/// The network after spawning the first `k` segments of `segs`, the `i`-th
/// as entity `ents[i]` with nodes `sp[i]`; `None` where a spawned node is not
/// new.
pub open spec fn spawn_upto(
    v: GraphView,
    segs: Seq<RoadSegment>,
    ents: Seq<EntityId>,
    sp: Seq<(u32, u32)>,
    k: int,
) -> Option<GraphView>
    decreases k,
{
    if k <= 0 {
        Some(v)
    } else {
        match spawn_upto(v, segs, ents, sp, k - 1) {
            Some(w) => apply_op(w, GraphOp::Spawn(segs[k - 1]), Seq::empty(), ents, sp, (k - 1) as nat),
            None => None,
        }
    }
}

/// The graph node of node number `i` of a laid-down solution: the nodes of
/// the termini first, then the start and end nodes of each segment.
pub open spec fn solution_node(term_nodes: Seq<u32>, sp: Seq<(u32, u32)>, i: int) -> u32 {
    let t = term_nodes.len() as int;
    if i < t {
        term_nodes[i]
    } else if (i - t) % 2 == 0 {
        sp[(i - t) / 2].0
    } else {
        sp[(i - t) / 2].1
    }
}

/// The edges of weight zero that join a laid-down solution, in graph nodes.
pub open spec fn solution_graph_edges(
    points: Seq<Point>,
    term_nodes: Seq<u32>,
    segs: Seq<RoadSegment>,
    sp: Seq<(u32, u32)>,
) -> Set<(u32, u32, u64)> {
    solution_edges_spec(points, segs, segs.len() as int).map_values(
        |e: (int, int)| (solution_node(term_nodes, sp, e.0), solution_node(term_nodes, sp, e.1), 0u64),
    ).to_set()
}

/// The network `v`, holding `count` edges, has room for the nodes and edges
/// that laying down the segments `segs` adds.
pub open spec fn solution_fits(v: GraphView, count: nat, points: Seq<Point>, segs: Seq<RoadSegment>) -> bool {
    &&& v.nodes.dom().len() + 2 * segs.len() <= u32::MAX
    &&& count + segs.len() + solution_edges_spec(points, segs, segs.len() as int).len() <= u32::MAX
}

/// Every terminus that a joint of the segments `segs` names (the `i`-th at
/// `points[i]`, graph node `term_nodes[i]`) has its node in the network `v`.
pub open spec fn solution_termini_present(
    v: GraphView,
    points: Seq<Point>,
    term_nodes: Seq<u32>,
    segs: Seq<RoadSegment>,
) -> bool {
    forall|q: int| 0 <= q < solution_edges_spec(points, segs, segs.len() as int).len() ==> {
        let e = #[trigger] solution_edges_spec(points, segs, segs.len() as int)[q];
        &&& (0 <= e.0 < term_nodes.len() ==> v.nodes.dom().contains(term_nodes[e.0]))
        &&& (0 <= e.1 < term_nodes.len() ==> v.nodes.dom().contains(term_nodes[e.1]))
    }
}

/// Lays a saved solution down again: spawns its segments (the `k`-th as
/// entity `ents[k]`) and joins each, at each end, to every terminus (the
/// `i`-th at `points[i]`, graph node `term_nodes[i]`) and every end of an
/// earlier segment at that point. Gives the start and end nodes of the
/// segments.
pub fn lay_solution(
    graph: &mut RoadGraph,
    points: &Vec<Point>,
    term_nodes: &Vec<u32>,
    segments: &Vec<RoadSegment>,
    ents: &Vec<EntityId>,
) -> (r: Result<Vec<(u32, u32)>, GraphFault>)
    requires
        old(graph)@.wf(),
        term_nodes@.len() == points@.len(),
        points@.len() + 2 * segments@.len() + 2 <= usize::MAX,
    ensures
        final(graph)@.wf(),
        r matches Ok(sp) ==> {
            &&& sp@.len() == segments@.len()
            &&& spawn_upto(old(graph)@, segments@, ents@, sp@, segments@.len() as int) matches Some(w)
            &&& final(graph)@.nodes == w.nodes
            &&& final(graph)@.edges == w.edges.union(
                solution_graph_edges(points@, term_nodes@, segments@, sp@),
            )
        },
        r is Ok ==> segments@.len() <= ents@.len(),
        segments@.len() <= ents@.len() && solution_fits(old(graph)@, old(graph).edge_count(), points@, segments@)
            && solution_termini_present(old(graph)@, points@, term_nodes@, segments@) ==> r is Ok,
        r matches Err(f) ==> {
            &&& f == GraphFault::MissingEntity ==> ents@.len() < segments@.len()
            &&& f == GraphFault::MissingNode ==> ents@.len() >= segments@.len()
                && !solution_termini_present(old(graph)@, points@, term_nodes@, segments@)
            &&& f == GraphFault::Full ==> {
                &&& segments@.len() > 0
                &&& !solution_fits(old(graph)@, old(graph).edge_count(), points@, segments@)
                &&& final(graph)@.nodes.dom().len() >= u32::MAX || final(graph).edge_count() >= u32::MAX
            }
        },
{
    let ghost v0 = graph@;
    let mut sp: Vec<(u32, u32)> = Vec::new();
    let mut k: usize = 0;
    while k < segments.len()
        invariant
            k <= segments.len(),
            old(graph)@ == v0,
            k <= ents@.len(),
            graph@.wf(),
            sp@.len() == k,
            spawn_upto(v0, segments@, ents@, sp@, k as int) == Some(graph@),
            graph@.nodes.dom().len() == v0.nodes.dom().len() + 2 * k,
            graph.edge_count() == old(graph).edge_count() + k,
        decreases segments.len() - k,
    {
        if k >= ents.len() {
            return Err(GraphFault::MissingEntity);
        }
        let ghost sp0 = sp@;
        let ghost w = graph@;
        match graph.add_segment(ents[k], segments[k]) {
            Ok(nodes) => {
                sp.push(nodes);
            },
            Err(f) => {
                return Err(f);
            },
        }
        proof {
            lemma_spawn_upto_stable(v0, segments@, ents@, sp0, sp@, k as int);
            assert(graph@ =~= apply_op(w, GraphOp::Spawn(segments@[k as int]), Seq::empty(), ents@, sp@, k as nat)->0);
        }
        k = k + 1;
    }
    let ghost w = graph@;
    proof {
        lemma_spawn_upto_nodes(v0, segments@, ents@, sp@, segments@.len() as int);
    }
    if segments.len() == 0 {
        assert(solution_edges_spec(points@, segments@, 0) =~= Seq::<(int, int)>::empty());
        assert(graph@.edges =~= w.edges.union(solution_graph_edges(points@, term_nodes@, segments@, sp@)));
        return Ok(sp);
    }
    let edges = solution_edges(points, segments);
    let ghost ev = edges@.map_values(|e: (usize, usize)| (e.0 as int, e.1 as int));
    proof {
        lemma_solution_edges_bounds(points@, segments@, segments@.len() as int);
    }
    let t = points.len();
    let mut j: usize = 0;
    while j < edges.len()
        invariant
            j <= edges.len(),
            t == points@.len(),
            term_nodes@.len() == t,
            sp@.len() == segments@.len(),
            ev == edges@.map_values(|e: (usize, usize)| (e.0 as int, e.1 as int)),
            ev == solution_edges_spec(points@, segments@, segments@.len() as int),
            forall|q: int| 0 <= q < ev.len() ==> 0 <= (#[trigger] ev[q]).0 < t + 2 * segments@.len() && 0 <= ev[q].1 < t + 2 * segments@.len(),
            graph@.wf(),
            graph@.nodes == w.nodes,
            graph.edge_count() == old(graph).edge_count() + segments@.len() + j,
            old(graph)@ == v0,
            segments@.len() <= ents@.len(),
            segments@.len() > 0,
            forall|n: u32| v0.nodes.dom().contains(n) ==> w.nodes.dom().contains(n),
            forall|q: int| 0 <= q < sp@.len() ==> w.nodes.dom().contains((#[trigger] sp@[q]).0) && w.nodes.dom().contains(sp@[q].1),
            graph@.edges == w.edges.union(ev.take(j as int).map_values(
                |e: (int, int)| (solution_node(term_nodes@, sp@, e.0), solution_node(term_nodes@, sp@, e.1), 0u64),
            ).to_set()),
        decreases edges.len() - j,
    {
        let (a, b) = edges[j];
        assert(ev[j as int] == (a as int, b as int));
        let na = if a < t {
            term_nodes[a]
        } else if (a - t) % 2 == 0 {
            sp[(a - t) / 2].0
        } else {
            sp[(a - t) / 2].1
        };
        let nb = if b < t {
            term_nodes[b]
        } else if (b - t) % 2 == 0 {
            sp[(b - t) / 2].0
        } else {
            sp[(b - t) / 2].1
        };
        match graph.add_edge(na, nb, 0) {
            Ok(()) => {},
            Err(f) => {
                proof {
                    if f == GraphFault::MissingNode {
                        if !w.nodes.dom().contains(na) {
                            assert(a < t);
                            assert(!v0.nodes.dom().contains(term_nodes@[a as int]));
                        } else {
                            assert(b < t);
                            assert(!v0.nodes.dom().contains(term_nodes@[b as int]));
                        }
                        assert(solution_edges_spec(points@, segments@, segments@.len() as int)[j as int] == (a as int, b as int));
                    }
                }
                return Err(f);
            },
        }
        proof {
            let f = |e: (int, int)| (solution_node(term_nodes@, sp@, e.0), solution_node(term_nodes@, sp@, e.1), 0u64);
            let t0 = ev.take(j as int);
            let t1 = ev.take(j + 1);
            assert(t1 =~= t0.push(ev[j as int]));
            assert(t1.map_values(f) =~= t0.map_values(f).push(f(ev[j as int])));
            t0.map_values(f).lemma_push_to_set_commute(f(ev[j as int]));
            assert(f(ev[j as int]) == (na, nb, 0u64));
            assert(graph@.edges =~= w.edges.union(t1.map_values(f).to_set()));
        }
        j = j + 1;
    }
    assert(ev.take(ev.len() as int) =~= ev);
    Ok(sp)
}

proof fn lemma_spawn_upto_stable(
    v: GraphView,
    segs: Seq<RoadSegment>,
    ents: Seq<EntityId>,
    sp1: Seq<(u32, u32)>,
    sp2: Seq<(u32, u32)>,
    k: int,
)
    requires
        0 <= k <= sp1.len() <= sp2.len(),
        forall|i: int| 0 <= i < sp1.len() ==> sp1[i] == sp2[i],
    ensures
        spawn_upto(v, segs, ents, sp1, k) == spawn_upto(v, segs, ents, sp2, k),
    decreases k,
{
    if k > 0 {
        lemma_spawn_upto_stable(v, segs, ents, sp1, sp2, k - 1);
    }
}


proof fn lemma_joints_bounds(points: Seq<Point>, segs: Seq<RoadSegment>, k: int)
    requires
        0 <= k <= segs.len(),
    ensures
        forall|q: int| 0 <= q < solution_joints(points, segs, k).len() ==> 0 <= (#[trigger] solution_joints(points, segs, k)[q]).1 < points.len() + 2 * k,
    decreases k,
{
    if k > 0 {
        lemma_joints_bounds(points, segs, k - 1);
        let x = solution_joints(points, segs, k - 1);
        let all = solution_joints(points, segs, k);
        assert forall|q: int| 0 <= q < all.len() implies 0 <= (#[trigger] all[q]).1 < points.len() + 2 * k by {
            if q < x.len() {
                assert(all[q] == x[q]);
            }
        }
    }
}

proof fn lemma_joint_edges_bounds(joints: Seq<(Point, int)>, seg: RoadSegment, s: int, e: int, hi: int)
    requires
        forall|q: int| 0 <= q < joints.len() ==> 0 <= (#[trigger] joints[q]).1 < hi,
        0 <= s < hi,
        0 <= e < hi,
    ensures
        forall|q: int| 0 <= q < joint_edges(joints, seg, s, e).len() ==> 0 <= (#[trigger] joint_edges(joints, seg, s, e)[q]).0 < hi
            && 0 <= joint_edges(joints, seg, s, e)[q].1 < hi,
    decreases joints.len(),
{
    if joints.len() > 0 {
        let init = joints.drop_last();
        assert forall|q: int| 0 <= q < init.len() implies 0 <= (#[trigger] init[q]).1 < hi by {
            assert(init[q] == joints[q]);
        }
        lemma_joint_edges_bounds(init, seg, s, e, hi);
        let x = joint_edges(init, seg, s, e);
        let all = joint_edges(joints, seg, s, e);
        assert(0 <= joints.last().1 < hi);
        assert forall|q: int| 0 <= q < all.len() implies 0 <= (#[trigger] all[q]).0 < hi && 0 <= all[q].1 < hi by {
            if q < x.len() {
                assert(all[q] == x[q]);
            }
        }
    }
}

proof fn lemma_solution_edges_bounds(points: Seq<Point>, segs: Seq<RoadSegment>, k: int)
    requires
        0 <= k <= segs.len(),
    ensures
        forall|q: int| 0 <= q < solution_edges_spec(points, segs, k).len() ==> 0 <= (#[trigger] solution_edges_spec(points, segs, k)[q]).0 < points.len() + 2 * k
            && 0 <= solution_edges_spec(points, segs, k)[q].1 < points.len() + 2 * k,
    decreases k,
{
    if k > 0 {
        lemma_solution_edges_bounds(points, segs, k - 1);
        let t = points.len() as int;
        lemma_joints_bounds(points, segs, k - 1);
        let joints = solution_joints(points, segs, k - 1);
        assert forall|q: int| 0 <= q < joints.len() implies 0 <= (#[trigger] joints[q]).1 < t + 2 * k by {}
        lemma_joint_edges_bounds(joints, segs[k - 1], t + 2 * (k - 1), t + 2 * (k - 1) + 1, t + 2 * k);
        let x = solution_edges_spec(points, segs, k - 1);
        let y = joint_edges(joints, segs[k - 1], t + 2 * (k - 1), t + 2 * (k - 1) + 1);
        let all = solution_edges_spec(points, segs, k);
        assert forall|q: int| 0 <= q < all.len() implies 0 <= (#[trigger] all[q]).0 < t + 2 * k && 0 <= all[q].1 < t + 2 * k by {
            if q < x.len() {
                assert(all[q] == x[q]);
            } else {
                assert(all[q] == y[q - x.len()]);
            }
        }
    }
}


/// The nodes `ns[i]` of the entities `ents[i]`, for `i < k`.
pub open spec fn node_map(ns: Seq<u32>, ents: Seq<EntityId>, k: int) -> Map<u32, EntityId>
    decreases k,
{
    if k <= 0 {
        Map::empty()
    } else {
        node_map(ns, ents, k - 1).insert(ns[k - 1], ents[k - 1])
    }
}

/// Empties the road graph and gives each terminus entity a node again, as
/// at the start of a level: gives their nodes, in order.
pub fn reset_graph(graph: &mut RoadGraph, termini: &Vec<EntityId>) -> (r: Result<Vec<u32>, GraphFault>)
    ensures
        final(graph)@.wf(),
        r matches Ok(ns) ==> {
            &&& ns@.len() == termini@.len()
            &&& ns@.no_duplicates()
            &&& final(graph)@.nodes == node_map(ns@, termini@, termini@.len() as int)
            &&& final(graph)@.edges.is_empty()
        },
        r is Ok <==> termini@.len() <= u32::MAX,
        r matches Err(f) ==> f == GraphFault::Full,
{
    graph.clear();
    let mut ns: Vec<u32> = Vec::new();
    let mut i: usize = 0;
    while i < termini.len()
        invariant
            i <= termini.len(),
            ns@.len() == i,
            ns@.no_duplicates(),
            forall|q: int| 0 <= q < i ==> graph@.nodes.dom().contains(#[trigger] ns@[q]),
            graph@.wf(),
            graph@.nodes == node_map(ns@, termini@, i as int),
            graph@.nodes.dom().len() == i,
            i <= u32::MAX,
            graph@.edges.is_empty(),
        decreases termini.len() - i,
    {
        let ghost before = ns@;
        match graph.add_node(termini[i]) {
            Ok(n) => {
                ns.push(n);
            },
            Err(f) => {
                return Err(f);
            },
        }
        proof {
            assert(node_map(ns@, termini@, i as int) == node_map(before, termini@, i as int)) by {
                lemma_node_map_prefix(before, ns@, termini@, i as int);
            }
        }
        i = i + 1;
    }
    Ok(ns)
}

proof fn lemma_node_map_prefix(ns1: Seq<u32>, ns2: Seq<u32>, ents: Seq<EntityId>, k: int)
    requires
        0 <= k <= ns1.len() <= ns2.len(),
        forall|i: int| 0 <= i < ns1.len() ==> ns1[i] == ns2[i],
    ensures
        node_map(ns1, ents, k) == node_map(ns2, ents, k),
    decreases k,
{
    if k > 0 {
        lemma_node_map_prefix(ns1, ns2, ents, k - 1);
    }
}


/// Spawning segments keeps every node of the network and adds the nodes of
/// each spawned segment.
proof fn lemma_spawn_upto_nodes(
    v: GraphView,
    segs: Seq<RoadSegment>,
    ents: Seq<EntityId>,
    sp: Seq<(u32, u32)>,
    k: int,
)
    requires
        0 <= k <= sp.len(),
        spawn_upto(v, segs, ents, sp, k) is Some,
    ensures
        forall|n: u32| v.nodes.dom().contains(n) ==> spawn_upto(v, segs, ents, sp, k)->0.nodes.dom().contains(n),
        forall|q: int| 0 <= q < k ==> spawn_upto(v, segs, ents, sp, k)->0.nodes.dom().contains((#[trigger] sp[q]).0)
            && spawn_upto(v, segs, ents, sp, k)->0.nodes.dom().contains(sp[q].1),
    decreases k,
{
    if k > 0 {
        lemma_spawn_upto_nodes(v, segs, ents, sp, k - 1);
    }
}

} // verus!
