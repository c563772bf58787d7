//! The visual entities the editor keeps in step with the graph: node boxes,
//! the slots beside them, edges between slot anchors, and loose edges that
//! follow the pointer while they are dragged.
use vstd::prelude::*;
use crate::geometry::{
    Point, WidgetSide, valid_point, slot_anchor, slot_margin, position_edge, position_slot,
};
use crate::graph::{
    NodeId, SlotRef, Edge, GraphCommand, Location, location_of, valid_locations, try_get_location,
    lemma_location_of, first_index, lemma_first_index, spec_edge_between, edge_between,
};

verus! {

/// What the graph model reports of a node: its id and how many slots each side has.
#[derive(Clone, Copy, PartialEq, Eq, Structural, Debug)]
pub struct NodeInfo {
    pub node_id: NodeId,
    pub slot_count_input: u32,
    pub slot_count_output: u32,
}

/// The part a node plays in the graph: a graph input takes nothing in, a
/// graph output hands nothing on, an operation does both.
#[derive(Clone, Copy, PartialEq, Eq, Structural, Debug)]
pub enum NodeKind {
    GraphInput,
    GraphOutput,
    Operation,
}

/// A node's slots: its capacities, but none on the input side of a graph
/// input and none on the output side of a graph output.
pub open spec fn spec_node_info(
    node_id: NodeId,
    kind: NodeKind,
    input_capacity: u32,
    output_capacity: u32,
) -> NodeInfo {
    NodeInfo {
        node_id: node_id,
        slot_count_input: if kind == NodeKind::GraphInput {
            0
        } else {
            input_capacity
        },
        slot_count_output: if kind == NodeKind::GraphOutput {
            0
        } else {
            output_capacity
        },
    }
}

pub fn node_info(node_id: NodeId, kind: NodeKind, input_capacity: u32, output_capacity: u32) -> (r:
    NodeInfo)
    ensures
        r == spec_node_info(node_id, kind, input_capacity, output_capacity),
{
    NodeInfo {
        node_id,
        slot_count_input: match kind {
            NodeKind::GraphInput => 0,
            _ => input_capacity,
        },
        slot_count_output: match kind {
            NodeKind::GraphOutput => 0,
            _ => output_capacity,
        },
    }
}

/// A node's box on the canvas.
#[derive(Clone, Copy, PartialEq, Eq, Structural, Debug)]
pub struct NodeVisual {
    pub node_id: NodeId,
    pub position: Point,
    pub slot_count_input: u32,
    pub slot_count_output: u32,
}

/// A slot's square beside its node.
#[derive(Clone, Copy, PartialEq, Eq, Structural, Debug)]
pub struct SlotVisual {
    pub slot: SlotRef,
    pub margin: Point,
}

/// The line drawn for a committed edge.
#[derive(Clone, Copy, PartialEq, Eq, Structural, Debug)]
pub struct EdgeVisual {
    pub edge: Edge,
    pub output_point: Point,
    pub input_point: Point,
}

/// A line held at one slot (`anchor`) whose other end follows the pointer.
/// `committed` is the graph edge it was pulled off, if it was one.
#[derive(Clone, Copy, PartialEq, Eq, Structural, Debug)]
pub struct LooseEdge {
    pub anchor: SlotRef,
    pub anchor_point: Point,
    pub free_point: Point,
    pub committed: Option<Edge>,
}

pub proof fn lemma_take_step<A>(s: Seq<A>, i: int)
    requires
        0 <= i < s.len(),
    ensures
        s.take(i + 1).drop_last() == s.take(i),
        s.take(i + 1).last() == s[i],
        s.take(i + 1).len() == i + 1,
{
    assert(s.take(i + 1).drop_last() =~= s.take(i));
}

// ---------------------------------------------------------------- nodes

pub open spec fn node_ids(nodes: Seq<NodeVisual>) -> Seq<NodeId> {
    nodes.map_values(|n: NodeVisual| n.node_id)
}

/// The first box drawn for `id`.
pub open spec fn node_of(nodes: Seq<NodeVisual>, id: NodeId) -> Option<NodeVisual> {
    match first_index(node_ids(nodes), id) {
        Some(k) => Some(nodes[k]),
        None => None,
    }
}

pub open spec fn valid_nodes(nodes: Seq<NodeVisual>) -> bool {
    forall|i: int| 0 <= i < nodes.len() ==> valid_point(#[trigger] nodes[i].position)
}

pub proof fn lemma_node_of(nodes: Seq<NodeVisual>, id: NodeId)
    ensures
        node_of(nodes, id) is Some <==> node_ids(nodes).contains(id),
        node_of(nodes, id) matches Some(n) ==> n.node_id == id && nodes.contains(n),
        valid_nodes(nodes) ==> (node_of(nodes, id) matches Some(n) ==> valid_point(n.position)),
{
    lemma_first_index(node_ids(nodes), id);
    if let Some(k) = first_index(node_ids(nodes), id) {
        assert(nodes[k].node_id == node_ids(nodes)[k]);
    }
}

/// Where ids are unique, the lookup finds the one box drawn for an id.
pub proof fn lemma_node_at(nodes: Seq<NodeVisual>, k: int)
    requires
        node_ids(nodes).no_duplicates(),
        0 <= k < nodes.len(),
    ensures
        node_of(nodes, nodes[k].node_id) == Some(nodes[k]),
{
    let ids = node_ids(nodes);
    let x = nodes[k].node_id;
    lemma_first_index(ids, x);
    assert(ids[k] == x);
    assert(ids.contains(x));
    let j = first_index(ids, x)->Some_0;
    assert(ids[j] == x);
}

/// Index of the first box drawn for `id`.
pub fn find_node(nodes: &Vec<NodeVisual>, id: NodeId) -> (r: Option<usize>)
    ensures
        r matches Some(k) ==> first_index(node_ids(nodes@), id) == Some(k as int),
        r is None ==> first_index(node_ids(nodes@), id) is None,
{
    let ghost ids = node_ids(nodes@);
    proof {
        lemma_first_index(ids, id);
    }
    let mut i: usize = 0;
    while i < nodes.len()
        invariant
            0 <= i <= nodes@.len(),
            ids == node_ids(nodes@),
            forall|j: int| 0 <= j < i ==> ids[j] != id,
            first_index(ids, id) is None <==> !ids.contains(id),
            first_index(ids, id) matches Some(k) ==> 0 <= k < ids.len() && ids[k] == id && forall|
                j: int,
            | 0 <= j < k ==> ids[j] != id,
        decreases nodes.len() - i,
    {
        assert(ids[i as int] == nodes@[i as int].node_id);
        if nodes[i].node_id == id {
            assert(ids.contains(id));
            return Some(i);
        }
        i = i + 1;
    }
    None
}

pub fn get_node(nodes: &Vec<NodeVisual>, id: NodeId) -> (r: Option<NodeVisual>)
    ensures
        r == node_of(nodes@, id),
{
    proof {
        lemma_first_index(node_ids(nodes@), id);
    }
    match find_node(nodes, id) {
        Some(k) => Some(nodes[k]),
        None => None,
    }
}

/// The box moved to `p` if it is the box of `id`.
pub open spec fn moved_node(n: NodeVisual, id: NodeId, p: Point) -> NodeVisual {
    if n.node_id == id {
        NodeVisual { position: p, ..n }
    } else {
        n
    }
}

pub open spec fn spec_move_nodes(nodes: Seq<NodeVisual>, id: NodeId, p: Point) -> Seq<NodeVisual> {
    nodes.map_values(|n: NodeVisual| moved_node(n, id, p))
}

pub fn move_nodes(nodes: &mut Vec<NodeVisual>, id: NodeId, p: Point)
    ensures
        final(nodes)@ == spec_move_nodes(old(nodes)@, id, p),
{
    let ghost start = nodes@;
    let mut i: usize = 0;
    while i < nodes.len()
        invariant
            0 <= i <= nodes@.len(),
            nodes@.len() == start.len(),
            forall|j: int| 0 <= j < i ==> nodes@[j] == moved_node(start[j], id, p),
            forall|j: int| i <= j < nodes@.len() ==> nodes@[j] == start[j],
        decreases nodes.len() - i,
    {
        if nodes[i].node_id == id {
            let mut n = nodes[i];
            n.position = p;
            nodes.set(i, n);
        }
        i = i + 1;
    }
    assert(nodes@ =~= spec_move_nodes(start, id, p));
}

// ---------------------------------------------------------------- slots

/// Slot `i` on `side` of a node box.
pub open spec fn slot_visual(n: NodeVisual, side: WidgetSide, i: int) -> SlotVisual {
    SlotVisual {
        slot: SlotRef { node_id: n.node_id, side: side, slot_id: i as u32 },
        margin: slot_margin(side, i as u32, n.position),
    }
}

pub open spec fn side_slots(n: NodeVisual, side: WidgetSide, count: nat) -> Seq<SlotVisual> {
    Seq::new(count, |i: int| slot_visual(n, side, i))
}

/// The slot squares of a node: inputs top to bottom, then outputs.
pub open spec fn slots_of(n: NodeVisual) -> Seq<SlotVisual> {
    side_slots(n, WidgetSide::Input, n.slot_count_input as nat) + side_slots(
        n,
        WidgetSide::Output,
        n.slot_count_output as nat,
    )
}

fn push_side_slots(out: &mut Vec<SlotVisual>, n: &NodeVisual, side: WidgetSide, count: u32)
    requires
        valid_point(n.position),
    ensures
        final(out)@ == old(out)@ + side_slots(*n, side, count as nat),
{
    let ghost start = out@;
    let mut i: u32 = 0;
    assert(out@ =~= start + side_slots(*n, side, 0));
    while i < count
        invariant
            0 <= i <= count,
            valid_point(n.position),
            out@ =~= start + side_slots(*n, side, i as nat),
        decreases count - i,
    {
        let s = SlotVisual {
            slot: SlotRef { node_id: n.node_id, side, slot_id: i },
            margin: position_slot(side, i, n.position),
        };
        out.push(s);
        assert(out@.last() == slot_visual(*n, side, i as int));
        i = i + 1;
        assert(out@ =~= start + side_slots(*n, side, i as nat));
    }
}

/// The slot squares to draw beside a node box.
pub fn node_slots(n: &NodeVisual) -> (r: Vec<SlotVisual>)
    requires
        valid_point(n.position),
    ensures
        r@ == slots_of(*n),
{
    let mut out: Vec<SlotVisual> = Vec::new();
    push_side_slots(&mut out, n, WidgetSide::Input, n.slot_count_input);
    push_side_slots(&mut out, n, WidgetSide::Output, n.slot_count_output);
    assert(out@ =~= slots_of(*n));
    out
}

// ---------------------------------------------------------------- edges

/// The line of edge `e` between the anchors of its slots, placed by the
/// recorded node locations; none where a location is missing.
pub open spec fn edge_visual_of(e: Edge, locs: Seq<Location>) -> Option<EdgeVisual> {
    match (location_of(locs, e.output_node), location_of(locs, e.input_node)) {
        (Some(po), Some(pi)) => Some(
            EdgeVisual {
                edge: e,
                output_point: slot_anchor(WidgetSide::Output, e.output_slot, po),
                input_point: slot_anchor(WidgetSide::Input, e.input_slot, pi),
            },
        ),
        _ => None,
    }
}

pub fn edge_visual(e: Edge, locs: &Vec<Location>) -> (r: Option<EdgeVisual>)
    requires
        valid_locations(locs@),
    ensures
        r == edge_visual_of(e, locs@),
{
    proof {
        lemma_location_of(locs@, e.output_node);
        lemma_location_of(locs@, e.input_node);
    }
    match (try_get_location(locs, e.output_node), try_get_location(locs, e.input_node)) {
        (Some(po), Some(pi)) => Some(
            EdgeVisual {
                edge: e,
                output_point: position_edge(WidgetSide::Output, e.output_slot, po),
                input_point: position_edge(WidgetSide::Input, e.input_slot, pi),
            },
        ),
        _ => None,
    }
}

/// Whether a line is drawn for `e`.
pub open spec fn listed(vs: Seq<EdgeVisual>, e: Edge) -> bool {
    exists|i: int| 0 <= i < vs.len() && (#[trigger] vs[i]).edge == e
}

pub fn is_listed(vs: &Vec<EdgeVisual>, e: Edge) -> (r: bool)
    ensures
        r == listed(vs@, e),
{
    let mut i: usize = 0;
    while i < vs.len()
        invariant
            0 <= i <= vs@.len(),
            forall|j: int| 0 <= j < i ==> vs@[j].edge != e,
        decreases vs.len() - i,
    {
        if vs[i].edge == e {
            return true;
        }
        i = i + 1;
    }
    false
}

/// Whether an edge belongs in a rebuild restricted to slot `only` (or to none).
pub open spec fn admits(e: Edge, only: Option<SlotRef>) -> bool {
    match only {
        Some(s) => e.touches(s),
        None => true,
    }
}

/// Lines for the edges of `es` that `only` admits, in order, one per edge,
/// skipping edges whose nodes have no location.
pub open spec fn build_edges(es: Seq<Edge>, locs: Seq<Location>, only: Option<SlotRef>) -> Seq<
    EdgeVisual,
>
    decreases es.len(),
{
    if es.len() == 0 {
        Seq::empty()
    } else {
        let b = build_edges(es.drop_last(), locs, only);
        let e = es.last();
        if admits(e, only) && !listed(b, e) {
            match edge_visual_of(e, locs) {
                Some(v) => b.push(v),
                None => b,
            }
        } else {
            b
        }
    }
}

pub fn create_edges(es: &Vec<Edge>, locs: &Vec<Location>, only: Option<SlotRef>) -> (r: Vec<
    EdgeVisual,
>)
    requires
        valid_locations(locs@),
    ensures
        r@ == build_edges(es@, locs@, only),
{
    let mut out: Vec<EdgeVisual> = Vec::new();
    let mut i: usize = 0;
    assert(es@.take(0) =~= Seq::<Edge>::empty());
    while i < es.len()
        invariant
            0 <= i <= es@.len(),
            valid_locations(locs@),
            out@ == build_edges(es@.take(i as int), locs@, only),
        decreases es.len() - i,
    {
        proof {
            lemma_take_step(es@, i as int);
        }
        let e = es[i];
        let admitted = match only {
            Some(s) => e.in_slot(s),
            None => true,
        };
        if admitted && !is_listed(&out, e) {
            if let Some(v) = edge_visual(e, locs) {
                out.push(v);
            }
        }
        i = i + 1;
    }
    assert(es@.take(es@.len() as int) =~= es@);
    out
}

/// Lines that do not end at slot `s`.
pub open spec fn edges_off_slot(vs: Seq<EdgeVisual>, s: SlotRef) -> Seq<EdgeVisual> {
    vs.filter(|v: EdgeVisual| !v.edge.touches(s))
}

/// Lines that end at slot `s`.
pub open spec fn edges_in_slot(vs: Seq<EdgeVisual>, s: SlotRef) -> Seq<EdgeVisual> {
    vs.filter(|v: EdgeVisual| v.edge.touches(s))
}

proof fn lemma_slot_filters_take(vs: Seq<EdgeVisual>, s: SlotRef, i: int)
    requires
        0 <= i < vs.len(),
    ensures
        edges_in_slot(vs.take(i + 1), s) == (if vs[i].edge.touches(s) {
            edges_in_slot(vs.take(i), s).push(vs[i])
        } else {
            edges_in_slot(vs.take(i), s)
        }),
        edges_off_slot(vs.take(i + 1), s) == (if !vs[i].edge.touches(s) {
            edges_off_slot(vs.take(i), s).push(vs[i])
        } else {
            edges_off_slot(vs.take(i), s)
        }),
{
    reveal(Seq::filter);
    lemma_take_step(vs, i);
}

/// Splits the lines into those that end at `s` and the rest.
pub fn split_slot_edges(vs: &Vec<EdgeVisual>, s: SlotRef) -> (r: (Vec<EdgeVisual>, Vec<EdgeVisual>))
    ensures
        r.0@ == edges_in_slot(vs@, s),
        r.1@ == edges_off_slot(vs@, s),
{
    let mut inside: Vec<EdgeVisual> = Vec::new();
    let mut outside: Vec<EdgeVisual> = Vec::new();
    let mut i: usize = 0;
    proof {
        reveal(Seq::filter);
        assert(vs@.take(0) =~= Seq::<EdgeVisual>::empty());
    }
    while i < vs.len()
        invariant
            0 <= i <= vs@.len(),
            inside@ == edges_in_slot(vs@.take(i as int), s),
            outside@ == edges_off_slot(vs@.take(i as int), s),
        decreases vs.len() - i,
    {
        proof {
            lemma_slot_filters_take(vs@, s, i as int);
        }
        if vs[i].edge.in_slot(s) {
            inside.push(vs[i]);
        } else {
            outside.push(vs[i]);
        }
        i = i + 1;
    }
    assert(vs@.take(vs@.len() as int) =~= vs@);
    (inside, outside)
}

/// Lines that do not touch node `id`.
pub open spec fn edges_off_node(vs: Seq<EdgeVisual>, id: NodeId) -> Seq<EdgeVisual> {
    vs.filter(|v: EdgeVisual| !v.edge.touches_node(id))
}

proof fn lemma_edges_off_node_take(vs: Seq<EdgeVisual>, id: NodeId, i: int)
    requires
        0 <= i < vs.len(),
    ensures
        edges_off_node(vs.take(i + 1), id) == (if !vs[i].edge.touches_node(id) {
            edges_off_node(vs.take(i), id).push(vs[i])
        } else {
            edges_off_node(vs.take(i), id)
        }),
{
    reveal(Seq::filter);
    lemma_take_step(vs, i);
}

pub fn remove_node_edges(vs: &mut Vec<EdgeVisual>, id: NodeId)
    ensures
        final(vs)@ == edges_off_node(old(vs)@, id),
{
    let ghost start = vs@;
    let mut kept: Vec<EdgeVisual> = Vec::new();
    let mut i: usize = 0;
    proof {
        reveal(Seq::filter);
        assert(start.take(0) =~= Seq::<EdgeVisual>::empty());
    }
    while i < vs.len()
        invariant
            0 <= i <= start.len(),
            vs@ == start,
            kept@ == edges_off_node(start.take(i as int), id),
        decreases vs.len() - i,
    {
        proof {
            lemma_edges_off_node_take(start, id, i as int);
        }
        if !vs[i].edge.touches_node_exec(id) {
            kept.push(vs[i]);
        }
        i = i + 1;
    }
    assert(start.take(start.len() as int) =~= start);
    *vs = kept;
}

/// A line with its ends at node `id` moved to the anchors of a node at `p`.
pub open spec fn refreshed_edge(v: EdgeVisual, id: NodeId, p: Point) -> EdgeVisual {
    EdgeVisual {
        edge: v.edge,
        output_point: if v.edge.output_node == id {
            slot_anchor(WidgetSide::Output, v.edge.output_slot, p)
        } else {
            v.output_point
        },
        input_point: if v.edge.input_node == id {
            slot_anchor(WidgetSide::Input, v.edge.input_slot, p)
        } else {
            v.input_point
        },
    }
}

pub open spec fn spec_refresh_edges(vs: Seq<EdgeVisual>, id: NodeId, p: Point) -> Seq<EdgeVisual> {
    vs.map_values(|v: EdgeVisual| refreshed_edge(v, id, p))
}

pub fn refresh_node_edges(vs: &mut Vec<EdgeVisual>, id: NodeId, p: Point)
    requires
        valid_point(p),
    ensures
        final(vs)@ == spec_refresh_edges(old(vs)@, id, p),
{
    let ghost start = vs@;
    let mut i: usize = 0;
    while i < vs.len()
        invariant
            0 <= i <= vs@.len(),
            valid_point(p),
            vs@.len() == start.len(),
            forall|j: int| 0 <= j < i ==> vs@[j] == refreshed_edge(start[j], id, p),
            forall|j: int| i <= j < vs@.len() ==> vs@[j] == start[j],
        decreases vs.len() - i,
    {
        let mut v = vs[i];
        if v.edge.output_node == id {
            v.output_point = position_edge(WidgetSide::Output, v.edge.output_slot, p);
        }
        if v.edge.input_node == id {
            v.input_point = position_edge(WidgetSide::Input, v.edge.input_slot, p);
        }
        vs.set(i, v);
        i = i + 1;
    }
    assert(vs@ =~= spec_refresh_edges(start, id, p));
}

// ---------------------------------------------------------------- loose edges

/// A committed line pulled off its input slot: held at its output end.
pub open spec fn pulled_off(v: EdgeVisual) -> LooseEdge {
    LooseEdge {
        anchor: v.edge.spec_end(WidgetSide::Output),
        anchor_point: v.output_point,
        free_point: v.input_point,
        committed: Some(v.edge),
    }
}

pub open spec fn spec_pull_off(vs: Seq<EdgeVisual>) -> Seq<LooseEdge> {
    vs.map_values(|v: EdgeVisual| pulled_off(v))
}

pub fn pull_off(vs: &Vec<EdgeVisual>) -> (r: Vec<LooseEdge>)
    ensures
        r@ == spec_pull_off(vs@),
{
    let mut out: Vec<LooseEdge> = Vec::new();
    let mut i: usize = 0;
    while i < vs.len()
        invariant
            0 <= i <= vs@.len(),
            out@ =~= spec_pull_off(vs@.take(i as int)),
        decreases vs.len() - i,
    {
        let v = vs[i];
        out.push(
            LooseEdge {
                anchor: v.edge.end(WidgetSide::Output),
                anchor_point: v.output_point,
                free_point: v.input_point,
                committed: Some(v.edge),
            },
        );
        i = i + 1;
        assert(out@ =~= spec_pull_off(vs@.take(i as int)));
    }
    assert(vs@.take(vs@.len() as int) =~= vs@);
    out
}

pub open spec fn followed(l: LooseEdge, p: Point) -> LooseEdge {
    LooseEdge { free_point: p, ..l }
}

pub open spec fn spec_follow(ls: Seq<LooseEdge>, p: Point) -> Seq<LooseEdge> {
    ls.map_values(|l: LooseEdge| followed(l, p))
}

/// Moves the free end of every loose edge to the pointer.
pub fn follow_pointer(ls: &mut Vec<LooseEdge>, p: Point)
    ensures
        final(ls)@ == spec_follow(old(ls)@, p),
{
    let ghost start = ls@;
    let mut i: usize = 0;
    while i < ls.len()
        invariant
            0 <= i <= ls@.len(),
            ls@.len() == start.len(),
            forall|j: int| 0 <= j < i ==> ls@[j] == followed(start[j], p),
            forall|j: int| i <= j < ls@.len() ==> ls@[j] == start[j],
        decreases ls.len() - i,
    {
        let mut l = ls[i];
        l.free_point = p;
        ls.set(i, l);
        i = i + 1;
    }
    assert(ls@ =~= spec_follow(start, p));
}

/// Loose edges not held at node `id`.
pub open spec fn loose_off_node(ls: Seq<LooseEdge>, id: NodeId) -> Seq<LooseEdge> {
    ls.filter(|l: LooseEdge| l.anchor.node_id != id)
}

proof fn lemma_loose_off_node_take(ls: Seq<LooseEdge>, id: NodeId, i: int)
    requires
        0 <= i < ls.len(),
    ensures
        loose_off_node(ls.take(i + 1), id) == (if ls[i].anchor.node_id != id {
            loose_off_node(ls.take(i), id).push(ls[i])
        } else {
            loose_off_node(ls.take(i), id)
        }),
{
    reveal(Seq::filter);
    lemma_take_step(ls, i);
}

pub fn remove_node_loose(ls: &mut Vec<LooseEdge>, id: NodeId)
    ensures
        final(ls)@ == loose_off_node(old(ls)@, id),
{
    let ghost start = ls@;
    let mut kept: Vec<LooseEdge> = Vec::new();
    let mut i: usize = 0;
    proof {
        reveal(Seq::filter);
        assert(start.take(0) =~= Seq::<LooseEdge>::empty());
    }
    while i < ls.len()
        invariant
            0 <= i <= start.len(),
            ls@ == start,
            kept@ == loose_off_node(start.take(i as int), id),
        decreases ls.len() - i,
    {
        proof {
            lemma_loose_off_node_take(start, id, i as int);
        }
        if ls[i].anchor.node_id != id {
            kept.push(ls[i]);
        }
        i = i + 1;
    }
    assert(start.take(start.len() as int) =~= start);
    *ls = kept;
}

/// A loose edge dropped on a slot it can join, waiting for the model's
/// answer to `request`.
#[derive(Clone, Copy, PartialEq, Eq, Structural, Debug)]
pub struct PendingDrop {
    pub loose: LooseEdge,
    pub request: Edge,
}

/// The edge that joins a loose edge's anchor to slot `t`, where `t` faces it.
pub open spec fn request_for(l: LooseEdge, t: SlotRef) -> Option<Edge> {
    if t.side == l.anchor.side.spec_opposite() {
        Some(spec_edge_between(l.anchor, t))
    } else {
        None
    }
}

/// The line of the edge a loose edge was pulled off, back at its anchors.
pub open spec fn restored(l: LooseEdge, locs: Seq<Location>) -> Seq<EdgeVisual> {
    match l.committed {
        Some(e) => match edge_visual_of(e, locs) {
            Some(v) => seq![v],
            None => Seq::empty(),
        },
        None => Seq::empty(),
    }
}

/// Disconnecting the edge a loose edge was pulled off.
pub open spec fn undo(l: LooseEdge) -> Seq<GraphCommand> {
    match l.committed {
        Some(e) => seq![GraphCommand::Disconnect(e)],
        None => Seq::empty(),
    }
}

/// Dropping loose edges on `target`: the commands for the model, the drops
/// awaiting its answer, and the lines put back. Dropped on no slot, the edges
/// they were pulled off are disconnected. Dropped on a slot, each edge that
/// faces it is requested; the others go back where they were.
pub open spec fn drop_outcome(ls: Seq<LooseEdge>, target: Option<SlotRef>, locs: Seq<Location>) -> (
    Seq<GraphCommand>,
    Seq<PendingDrop>,
    Seq<EdgeVisual>,
)
    decreases ls.len(),
{
    if ls.len() == 0 {
        (Seq::empty(), Seq::empty(), Seq::empty())
    } else {
        let o = drop_outcome(ls.drop_last(), target, locs);
        let l = ls.last();
        match target {
            None => (o.0 + undo(l), o.1, o.2),
            Some(t) => match request_for(l, t) {
                Some(e) => (
                    o.0.push(GraphCommand::Connect(e)),
                    o.1.push(PendingDrop { loose: l, request: e }),
                    o.2,
                ),
                None => (o.0, o.1, o.2 + restored(l, locs)),
            },
        }
    }
}

fn restored_line(l: &LooseEdge, locs: &Vec<Location>, out: &mut Vec<EdgeVisual>)
    requires
        valid_locations(locs@),
    ensures
        final(out)@ == old(out)@ + restored(*l, locs@),
{
    let ghost start = out@;
    if let Some(e) = l.committed {
        if let Some(v) = edge_visual(e, locs) {
            out.push(v);
        }
    }
    assert(out@ =~= start + restored(*l, locs@));
}

pub fn drop_loose_edges(ls: &Vec<LooseEdge>, target: Option<SlotRef>, locs: &Vec<Location>) -> (r: (
    Vec<GraphCommand>,
    Vec<PendingDrop>,
    Vec<EdgeVisual>,
))
    requires
        valid_locations(locs@),
    ensures
        (r.0@, r.1@, r.2@) == drop_outcome(ls@, target, locs@),
{
    let mut commands: Vec<GraphCommand> = Vec::new();
    let mut pending: Vec<PendingDrop> = Vec::new();
    let mut lines: Vec<EdgeVisual> = Vec::new();
    let mut i: usize = 0;
    assert(ls@.take(0) =~= Seq::<LooseEdge>::empty());
    while i < ls.len()
        invariant
            0 <= i <= ls@.len(),
            valid_locations(locs@),
            (commands@, pending@, lines@) == drop_outcome(ls@.take(i as int), target, locs@),
        decreases ls.len() - i,
    {
        proof {
            lemma_take_step(ls@, i as int);
        }
        let l = ls[i];
        let ghost c0 = commands@;
        match target {
            None => {
                if let Some(e) = l.committed {
                    commands.push(GraphCommand::Disconnect(e));
                }
                assert(commands@ =~= c0 + undo(l));
            },
            Some(t) => {
                if t.side == l.anchor.side.opposite() {
                    let e = edge_between(l.anchor, t);
                    commands.push(GraphCommand::Connect(e));
                    pending.push(PendingDrop { loose: l, request: e });
                } else {
                    restored_line(&l, locs, &mut lines);
                }
            },
        }
        i = i + 1;
    }
    assert(ls@.take(ls@.len() as int) =~= ls@);
    (commands, pending, lines)
}

/// Whether the model took the `j`-th requested connection; a missing answer
/// is a refusal.
pub open spec fn accepted_at(accepted: Seq<bool>, j: int) -> bool {
    0 <= j < accepted.len() && accepted[j]
}

/// After an accepted request, the edge the loose edge was pulled off, if it
/// is another edge, is disconnected.
pub open spec fn moved_off(p: PendingDrop) -> Seq<GraphCommand> {
    match p.loose.committed {
        Some(e) => if e != p.request {
            seq![GraphCommand::Disconnect(e)]
        } else {
            Seq::empty()
        },
        None => Seq::empty(),
    }
}

/// The model's answers to the requested connections, in order: the commands
/// that complete the accepted moves, and the lines of refused moves put back.
pub open spec fn settle_outcome(ps: Seq<PendingDrop>, accepted: Seq<bool>, locs: Seq<Location>) -> (
    Seq<GraphCommand>,
    Seq<EdgeVisual>,
)
    decreases ps.len(),
{
    if ps.len() == 0 {
        (Seq::empty(), Seq::empty())
    } else {
        let o = settle_outcome(ps.drop_last(), accepted, locs);
        let p = ps.last();
        if accepted_at(accepted, ps.len() - 1) {
            (o.0 + moved_off(p), o.1)
        } else {
            (o.0, o.1 + restored(p.loose, locs))
        }
    }
}

pub fn settle_drops(ps: &Vec<PendingDrop>, accepted: &Vec<bool>, locs: &Vec<Location>) -> (r: (
    Vec<GraphCommand>,
    Vec<EdgeVisual>,
))
    requires
        valid_locations(locs@),
    ensures
        (r.0@, r.1@) == settle_outcome(ps@, accepted@, locs@),
{
    let mut commands: Vec<GraphCommand> = Vec::new();
    let mut lines: Vec<EdgeVisual> = Vec::new();
    let mut i: usize = 0;
    assert(ps@.take(0) =~= Seq::<PendingDrop>::empty());
    while i < ps.len()
        invariant
            0 <= i <= ps@.len(),
            valid_locations(locs@),
            (commands@, lines@) == settle_outcome(ps@.take(i as int), accepted@, locs@),
        decreases ps.len() - i,
    {
        proof {
            lemma_take_step(ps@, i as int);
        }
        let p = ps[i];
        let ghost c0 = commands@;
        if i < accepted.len() && accepted[i] {
            if let Some(e) = p.loose.committed {
                if e != p.request {
                    commands.push(GraphCommand::Disconnect(e));
                }
            }
            assert(commands@ =~= c0 + moved_off(p));
        } else {
            restored_line(&p.loose, locs, &mut lines);
        }
        i = i + 1;
    }
    assert(ps@.take(ps@.len() as int) =~= ps@);
    (commands, lines)
}

} // verus!
