//! What holds of the editor across operations, proved over the transitions
//! of [`EditorView`].
use vstd::prelude::*;
use crate::geometry::{
    Point, WidgetSide, valid_point, slot_anchor, beyond_threshold, spec_clamped_sub,
};
use crate::graph::{
    NodeId, SlotRef, Edge, Location, location_ids, location_of, first_index, lemma_first_index,
    lemma_location_of,
};
use crate::visuals::{
    PendingDrop, edges_in_slot,
    NodeInfo, EdgeVisual, LooseEdge, node_ids, node_of, lemma_node_of, listed, admits,
    edge_visual_of, build_edges, edges_off_slot, spec_move_nodes, spec_refresh_edges,
    moved_node, refreshed_edge, drop_outcome, settle_outcome, restored, accepted_at,
};
use crate::editor::{
    EditorView, DragDropEntity, MouseButton, spec_commit, loaded_nodes, placed, lemma_no_dup_remove,
    lemma_add_wf, lemma_delete_wf,
};

verus! {

/// Exactly one element of `ids` is `id`.
pub open spec fn exactly_one(ids: Seq<NodeId>, id: NodeId) -> bool {
    exists|i: int|
        0 <= i < ids.len() && ids[i] == id && forall|j: int|
            0 <= j < ids.len() && #[trigger] ids[j] == id ==> j == i
}

proof fn lemma_filter_all<A>(s: Seq<A>, p: spec_fn(A) -> bool)
    requires
        forall|i: int| 0 <= i < s.len() ==> p(#[trigger] s[i]),
    ensures
        s.filter(p) == s,
    decreases s.len(),
{
    reveal(Seq::filter);
    if s.len() > 0 {
        lemma_filter_all(s.drop_last(), p);
        assert(s.drop_last().push(s.last()) =~= s);
    }
}

proof fn lemma_filter_none<A>(s: Seq<A>, p: spec_fn(A) -> bool)
    requires
        forall|i: int| 0 <= i < s.len() ==> !p(#[trigger] s[i]),
    ensures
        s.filter(p) == Seq::<A>::empty(),
    decreases s.len(),
{
    reveal(Seq::filter);
    if s.len() > 0 {
        lemma_filter_none(s.drop_last(), p);
    }
}

/// Every line a rebuild draws is the line of an admitted edge of `es`, and
/// no edge gets two lines.
proof fn lemma_build_edges(es: Seq<Edge>, locs: Seq<Location>, only: Option<SlotRef>)
    ensures
        forall|k: int|
            0 <= k < build_edges(es, locs, only).len() ==> {
                let v = #[trigger] build_edges(es, locs, only)[k];
                &&& edge_visual_of(v.edge, locs) == Some(v)
                &&& admits(v.edge, only)
                &&& es.contains(v.edge)
            },
        forall|a: int, b: int|
            0 <= a < build_edges(es, locs, only).len() && 0 <= b < build_edges(es, locs, only).len()
                && #[trigger] build_edges(es, locs, only)[a].edge == #[trigger] build_edges(
                es,
                locs,
                only,
            )[b].edge ==> a == b,
        forall|e: Edge|
            es.contains(e) && admits(e, only) && edge_visual_of(e, locs) is Some ==> #[trigger] listed(
                build_edges(es, locs, only),
                e,
            ),
    decreases es.len(),
{
    if es.len() > 0 {
        let rest = es.drop_last();
        lemma_build_edges(rest, locs, only);
        let b = build_edges(rest, locs, only);
        let r = build_edges(es, locs, only);
        let last = es.last();
        assert forall|k: int| 0 <= k < b.len() implies es.contains(#[trigger] b[k].edge) by {
            let j = choose|j: int| 0 <= j < rest.len() && rest[j] == b[k].edge;
            assert(es[j] == rest[j]);
        }
        assert(es[es.len() - 1] == last);
        assert forall|e: Edge|
            es.contains(e) && admits(e, only) && edge_visual_of(e, locs) is Some implies #[trigger] listed(
                r,
                e,
            ) by {
            let j = choose|j: int| 0 <= j < es.len() && es[j] == e;
            if j < es.len() - 1 {
                assert(rest[j] == e);
                assert(listed(b, e));
                let m = choose|m: int| 0 <= m < b.len() && (#[trigger] b[m]).edge == e;
                assert(r[m] == b[m]);
            } else if listed(b, e) {
                let m = choose|m: int| 0 <= m < b.len() && (#[trigger] b[m]).edge == e;
                assert(r[m] == b[m]);
            } else {
                assert(r[r.len() - 1].edge == e);
            }
        }
        if admits(last, only) && !listed(b, last) {
            if let Some(v) = edge_visual_of(last, locs) {
                assert forall|a: int, c: int|
                    0 <= a < r.len() && 0 <= c < r.len() && #[trigger] r[a].edge == #[trigger] r[c].edge
                        implies a == c by {
                    if a < b.len() && c == b.len() {
                        assert(b[a].edge == last);
                    } else if c < b.len() && a == b.len() {
                        assert(b[c].edge == last);
                    }
                }
            }
        }
    }
}

/// A rebuild depends on the locations only through what they record.
proof fn lemma_build_edges_same_places(
    es: Seq<Edge>,
    l1: Seq<Location>,
    l2: Seq<Location>,
    only: Option<SlotRef>,
)
    requires
        forall|id: NodeId| location_of(l1, id) == location_of(l2, id),
    ensures
        build_edges(es, l1, only) == build_edges(es, l2, only),
    decreases es.len(),
{
    if es.len() > 0 {
        lemma_build_edges_same_places(es.drop_last(), l1, l2, only);
        let e = es.last();
        assert(location_of(l1, e.output_node) == location_of(l2, e.output_node));
        assert(location_of(l1, e.input_node) == location_of(l2, e.input_node));
    }
}

proof fn lemma_exactly_one(ids: Seq<NodeId>, id: NodeId)
    requires
        ids.no_duplicates(),
        ids.contains(id),
    ensures
        exactly_one(ids, id),
{
    let i = choose|i: int| 0 <= i < ids.len() && ids[i] == id;
    assert forall|j: int| 0 <= j < ids.len() && #[trigger] ids[j] == id implies j == i by {}
}

/// Every node on the canvas has exactly one location and exactly one box,
/// and a location or a box exists only for a node on the canvas.
pub proof fn node_location_bijection(v: EditorView, id: NodeId)
    requires
        v.wf(),
    ensures
        location_ids(v.locations).contains(id) <==> v.has_node(id),
        v.has_node(id) ==> exactly_one(location_ids(v.locations), id) && exactly_one(
            node_ids(v.nodes),
            id,
        ),
{
    if v.has_node(id) {
        assert(location_ids(v.locations).contains(id));
        lemma_exactly_one(location_ids(v.locations), id);
        lemma_exactly_one(node_ids(v.nodes), id);
    }
}

/// An edit of the node set: a node the model created, or a node deleted.
pub enum NodeEdit {
    Add(NodeInfo),
    Delete(NodeId),
}

/// The editor after one edit; adding an id already on the canvas changes
/// nothing, as `NodeContainerState::add_node` refuses it.
pub open spec fn apply_edit(v: EditorView, edit: NodeEdit) -> EditorView {
    match edit {
        NodeEdit::Add(info) => if v.has_node(info.node_id) {
            v
        } else {
            v.add_node(info)
        },
        NodeEdit::Delete(id) => v.delete_node(id),
    }
}

pub open spec fn apply_edits(v: EditorView, edits: Seq<NodeEdit>) -> EditorView
    decreases edits.len(),
{
    if edits.len() == 0 {
        v
    } else {
        apply_edit(apply_edits(v, edits.drop_last()), edits.last())
    }
}

/// After any sequence of additions and deletions the editor stays well
/// formed, so every node on the canvas still has exactly one location and
/// one box; the last node added is on it, the last deleted is not.
pub proof fn edits_keep_node_location_bijection(v: EditorView, edits: Seq<NodeEdit>, id: NodeId)
    requires
        v.wf(),
    ensures
        apply_edits(v, edits).wf(),
        location_ids(apply_edits(v, edits).locations).contains(id) <==> apply_edits(
            v,
            edits,
        ).has_node(id),
        apply_edits(v, edits).has_node(id) ==> exactly_one(
            location_ids(apply_edits(v, edits).locations),
            id,
        ) && exactly_one(node_ids(apply_edits(v, edits).nodes), id),
        edits.len() > 0 ==> match edits.last() {
            NodeEdit::Add(info) => apply_edits(v, edits).has_node(info.node_id),
            NodeEdit::Delete(d) => !apply_edits(v, edits).has_node(d),
        },
    decreases edits.len(),
{
    if edits.len() > 0 {
        edits_keep_node_location_bijection(v, edits.drop_last(), id);
        let u = apply_edits(v, edits.drop_last());
        match edits.last() {
            NodeEdit::Add(info) => {
                if !u.has_node(info.node_id) {
                    lemma_add_wf(u, info);
                }
            },
            NodeEdit::Delete(d) => {
                lemma_delete_wf(u, d);
            },
        }
    }
    node_location_bijection(apply_edits(v, edits), id);
}

/// The line an edge should have: from the anchor of its output slot to the
/// anchor of its input slot, each placed by its node's location.
pub open spec fn expected_line(v: EditorView, e: Edge) -> EdgeVisual {
    EdgeVisual {
        edge: e,
        output_point: slot_anchor(
            WidgetSide::Output,
            e.output_slot,
            location_of(v.locations, e.output_node)->Some_0,
        ),
        input_point: slot_anchor(
            WidgetSide::Input,
            e.input_slot,
            location_of(v.locations, e.input_node)->Some_0,
        ),
    }
}

/// After the lines of slot `s` are rebuilt from the model's edges at `s`,
/// each of those edges whose nodes are on the canvas has exactly one line,
/// and it runs between the slot anchors of its nodes' locations.
pub proof fn resync_draws_each_edge_once(v: EditorView, s: SlotRef, es: Seq<Edge>, e: Edge)
    requires
        v.wf(),
        es.contains(e),
        e.touches(s),
        v.has_node(e.output_node),
        v.has_node(e.input_node),
    ensures
        ({
            let w = v.resync(s, es);
            exists|i: int|
                0 <= i < w.edges.len() && w.edges[i] == expected_line(v, e) && forall|j: int|
                    0 <= j < w.edges.len() && (#[trigger] w.edges[j]).edge == e ==> j == i
        }),
{
    let w = v.resync(s, es);
    let a = edges_off_slot(v.edges, s);
    let b = build_edges(es, v.locations, Some(s));
    assert(location_ids(v.locations).contains(e.output_node));
    assert(location_ids(v.locations).contains(e.input_node));
    lemma_location_of(v.locations, e.output_node);
    lemma_location_of(v.locations, e.input_node);
    lemma_build_edges(es, v.locations, Some(s));
    assert(listed(b, e));
    let m = choose|m: int| 0 <= m < b.len() && (#[trigger] b[m]).edge == e;
    assert(edge_visual_of(e, v.locations) == Some(expected_line(v, e)));
    assert forall|k: int| 0 <= k < a.len() implies !(#[trigger] a[k]).edge.touches(s) by {
        v.edges.lemma_filter_pred(|x: EdgeVisual| !x.edge.touches(s), k);
    }
    let i = a.len() + m;
    assert(w.edges[i] == b[m]);
    assert forall|j: int| 0 <= j < w.edges.len() && (#[trigger] w.edges[j]).edge == e implies j
        == i by {
        if j < a.len() {
            assert(w.edges[j] == a[j]);
        } else {
            assert(w.edges[j] == b[j - a.len()]);
        }
    }
}

/// Rebuilding the lines of a slot twice from the same model edges draws
/// what rebuilding once does.
pub proof fn resync_idempotent(v: EditorView, s: SlotRef, es: Seq<Edge>)
    ensures
        v.resync(s, es).resync(s, es) == v.resync(s, es),
{
    let a = edges_off_slot(v.edges, s);
    let b = build_edges(es, v.locations, Some(s));
    let p = |x: EdgeVisual| !x.edge.touches(s);
    lemma_build_edges(es, v.locations, Some(s));
    assert forall|k: int| 0 <= k < a.len() implies p(#[trigger] a[k]) by {
        v.edges.lemma_filter_pred(p, k);
    }
    assert forall|k: int| 0 <= k < b.len() implies !p(#[trigger] b[k]) by {
        assert(admits(b[k].edge, Some(s)));
    }
    lemma_filter_all(a, p);
    lemma_filter_none(b, p);
    Seq::filter_distributes_over_add(a, b, p);
    assert(edges_off_slot(a + b, s) == a.filter(p) + b.filter(p));
    assert(a + Seq::<EdgeVisual>::empty() =~= a);
}

pub open spec fn info_ids(infos: Seq<NodeInfo>) -> Seq<NodeId> {
    infos.map_values(|i: NodeInfo| i.node_id)
}

proof fn lemma_loaded_nodes(file: Seq<Location>, infos: Seq<NodeInfo>)
    ensures
        node_ids(loaded_nodes(file, infos)).no_duplicates(),
        forall|id: NodeId|
            #[trigger] node_ids(loaded_nodes(file, infos)).contains(id) <==> info_ids(
                infos,
            ).contains(id),
        forall|k: int|
            0 <= k < loaded_nodes(file, infos).len() ==> (#[trigger] loaded_nodes(file, infos)[k]).position
                == placed(file, loaded_nodes(file, infos)[k].node_id),
    decreases infos.len(),
{
    if infos.len() > 0 {
        let rest = infos.drop_last();
        lemma_loaded_nodes(file, rest);
        let b = loaded_nodes(file, rest);
        let r = loaded_nodes(file, infos);
        let last = infos.last();
        assert forall|id: NodeId| #[trigger] node_ids(r).contains(id) <==> info_ids(infos).contains(id) by {
            if info_ids(infos).contains(id) {
                let j = choose|j: int| 0 <= j < info_ids(infos).len() && info_ids(infos)[j] == id;
                if j < rest.len() {
                    assert(info_ids(rest)[j] == id);
                    assert(node_ids(b).contains(id));
                    let m = choose|m: int| 0 <= m < node_ids(b).len() && node_ids(b)[m] == id;
                    assert(node_ids(r)[m] == id);
                } else {
                    assert(last.node_id == id);
                    if node_ids(b).contains(id) {
                        let m = choose|m: int| 0 <= m < node_ids(b).len() && node_ids(b)[m] == id;
                        assert(node_ids(r)[m] == id);
                    } else {
                        assert(node_ids(r)[r.len() - 1] == id);
                    }
                }
            }
            if node_ids(r).contains(id) {
                let m = choose|m: int| 0 <= m < node_ids(r).len() && node_ids(r)[m] == id;
                if m < b.len() {
                    assert(node_ids(b)[m] == id);
                    assert(node_ids(b).contains(id));
                    assert(info_ids(rest).contains(id));
                    let j = choose|j: int| 0 <= j < info_ids(rest).len() && info_ids(rest)[j] == id;
                    assert(info_ids(infos)[j] == id);
                } else {
                    assert(info_ids(infos)[infos.len() - 1] == id);
                }
            }
        }
        if !node_ids(b).contains(last.node_id) {
            assert(node_ids(r) =~= node_ids(b).push(last.node_id));
            assert forall|x: int, y: int|
                0 <= x < node_ids(r).len() && 0 <= y < node_ids(r).len() && x != y implies node_ids(
                r,
            )[x] != node_ids(r)[y] by {
                if x < b.len() && y == b.len() {
                    assert(node_ids(b).contains(node_ids(r)[x]));
                } else if y < b.len() && x == b.len() {
                    assert(node_ids(b).contains(node_ids(r)[y]));
                }
            }
            assert forall|k: int| 0 <= k < r.len() implies (#[trigger] r[k]).position == placed(
                file,
                r[k].node_id,
            ) by {
                if k < b.len() {
                    assert(r[k] == b[k]);
                }
            }
        }
    }
}

/// Saving the canvas and loading the file back, with the graph model
/// restored to the same nodes and edges, gives the same nodes at the same
/// locations, and draws the model's edges at those locations.
pub proof fn save_load_round_trip(
    v: EditorView,
    u: EditorView,
    infos: Seq<NodeInfo>,
    es: Seq<Edge>,
)
    requires
        v.wf(),
        forall|id: NodeId| #[trigger] info_ids(infos).contains(id) <==> v.has_node(id),
    ensures
        ({
            let w = u.populate(v.locations, infos, es);
            &&& forall|id: NodeId| #[trigger] w.has_node(id) <==> v.has_node(id)
            &&& forall|id: NodeId|
                #[trigger] location_of(w.locations, id) == location_of(v.locations, id)
            &&& w.edges == build_edges(es, v.locations, None)
        }),
{
    let w = u.populate(v.locations, infos, es);
    let ns = loaded_nodes(v.locations, infos);
    lemma_loaded_nodes(v.locations, infos);
    assert(location_ids(w.locations) =~= node_ids(ns));
    assert forall|id: NodeId| #[trigger]
        location_of(w.locations, id) == location_of(v.locations, id) by {
        lemma_first_index(node_ids(ns), id);
        lemma_location_of(v.locations, id);
        if v.has_node(id) {
            assert(location_ids(v.locations).contains(id));
            assert(node_ids(ns).contains(id));
            let k = first_index(node_ids(ns), id)->Some_0;
            assert(ns[k].node_id == node_ids(ns)[k]);
            assert(w.locations[k].point == ns[k].position);
        } else {
            assert(!location_ids(v.locations).contains(id));
        }
    }
    lemma_build_edges_same_places(es, w.locations, v.locations, None);
}

/// After loading, each of the model's edges whose nodes are on the canvas
/// has exactly one line, between the slot anchors of the saved locations.
pub proof fn load_draws_each_edge_once(
    v: EditorView,
    u: EditorView,
    infos: Seq<NodeInfo>,
    es: Seq<Edge>,
    e: Edge,
)
    requires
        v.wf(),
        forall|id: NodeId| #[trigger] info_ids(infos).contains(id) <==> v.has_node(id),
        es.contains(e),
        v.has_node(e.output_node),
        v.has_node(e.input_node),
    ensures
        ({
            let w = u.populate(v.locations, infos, es);
            exists|i: int|
                0 <= i < w.edges.len() && w.edges[i] == expected_line(v, e) && forall|j: int|
                    0 <= j < w.edges.len() && (#[trigger] w.edges[j]).edge == e ==> j == i
        }),
{
    let w = u.populate(v.locations, infos, es);
    save_load_round_trip(v, u, infos, es);
    let b = build_edges(es, v.locations, None);
    assert(w.edges == b);
    assert(location_ids(v.locations).contains(e.output_node));
    assert(location_ids(v.locations).contains(e.input_node));
    lemma_location_of(v.locations, e.output_node);
    lemma_location_of(v.locations, e.input_node);
    lemma_build_edges(es, v.locations, None);
    assert(edge_visual_of(e, v.locations) == Some(expected_line(v, e)));
    assert(listed(b, e));
    let m = choose|m: int| 0 <= m < b.len() && (#[trigger] b[m]).edge == e;
    assert(w.edges[m] == expected_line(v, e));
}

/// In an idle editor, every node's box is drawn at its location.
proof fn lemma_idle_box(v: EditorView, id: NodeId)
    requires
        v.wf(),
        v.dragged_entity is None,
        v.has_node(id),
    ensures
        node_of(v.nodes, id) matches Some(n) && location_of(v.locations, id) == Some(n.position),
{
    lemma_node_of(v.nodes, id);
    lemma_first_index(node_ids(v.nodes), id);
    let k = first_index(node_ids(v.nodes), id)->Some_0;
    assert(v.nodes[k].node_id == node_ids(v.nodes)[k]);
}

/// In an idle editor, pressing on a node, moving the pointer beyond the drag
/// threshold and releasing moves the node's location by exactly the
/// pointer's displacement, draws its box there, and puts every end of a line
/// at that node on its slot's new anchor; the model is asked nothing.
pub proof fn drag_node_moves_location(
    v: EditorView,
    id: NodeId,
    pos: Point,
    target: Point,
    on: Option<SlotRef>,
)
    requires
        v.wf(),
        v.dragged_entity is None,
        v.has_node(id),
        valid_point(pos),
        valid_point(target),
        beyond_threshold(target, pos),
        valid_point(
            Point {
                x: (location_of(v.locations, id)->Some_0.x + target.x - pos.x) as i64,
                y: (location_of(v.locations, id)->Some_0.y + target.y - pos.y) as i64,
            },
        ),
    ensures
        ({
            let start = location_of(v.locations, id)->Some_0;
            let np = Point {
                x: (start.x + target.x - pos.x) as i64,
                y: (start.y + target.y - pos.y) as i64,
            };
            let moved = v.press(pos, MouseButton::Left, Some(DragDropEntity::Node(id))).pointer_moved(
                target,
            );
            let w = moved.release(target, on);
            &&& drop_outcome(moved.dragged_edges, on, moved.locations).0.len() == 0
            &&& location_of(v.locations, id) is Some
            &&& np.x == start.x + (target.x - pos.x)
            &&& np.y == start.y + (target.y - pos.y)
            &&& location_of(w.locations, id) == Some(np)
            &&& node_of(w.nodes, id) matches Some(n) && n.position == np
            &&& forall|k: int|
                0 <= k < w.edges.len() && (#[trigger] w.edges[k]).edge.output_node == id
                    ==> w.edges[k].output_point == slot_anchor(
                    WidgetSide::Output,
                    w.edges[k].edge.output_slot,
                    np,
                )
            &&& forall|k: int|
                0 <= k < w.edges.len() && (#[trigger] w.edges[k]).edge.input_node == id
                    ==> w.edges[k].input_point == slot_anchor(
                    WidgetSide::Input,
                    w.edges[k].edge.input_slot,
                    np,
                )
            &&& w.edges.len() == v.edges.len()
        }),
{
    lemma_idle_box(v, id);
    lemma_node_of(v.nodes, id);
    let n = node_of(v.nodes, id)->Some_0;
    let start = n.position;
    let np = Point {
        x: (start.x + target.x - pos.x) as i64,
        y: (start.y + target.y - pos.y) as i64,
    };
    let v1 = v.press(pos, MouseButton::Left, Some(DragDropEntity::Node(id)));
    assert(v1.drag_offset == Point { x: (pos.x - start.x) as i64, y: (pos.y - start.y) as i64 });
    assert(spec_clamped_sub(target, v1.drag_offset) == np);
    let v2 = v1.pointer_moved(target);
    assert(v2.nodes == spec_move_nodes(v.nodes, id, np));
    assert(node_ids(v2.nodes) =~= node_ids(v.nodes));
    let k = first_index(node_ids(v.nodes), id)->Some_0;
    lemma_first_index(node_ids(v.nodes), id);
    assert(v.nodes[k].node_id == node_ids(v.nodes)[k]);
    assert(node_of(v2.nodes, id) == Some(moved_node(v.nodes[k], id, np)));
    let w = v2.release(target, on);
    assert(v2.dragged_edges.len() == 0);
    assert(w.locations == spec_commit(v.locations, id, np));
    assert(location_ids(w.locations) =~= location_ids(v.locations));
    assert(location_ids(v.locations).contains(id));
    lemma_first_index(location_ids(v.locations), id);
    let j = first_index(location_ids(v.locations), id)->Some_0;
    assert(v.locations[j].node_id == location_ids(v.locations)[j]);
    assert(w.edges == spec_refresh_edges(v.edges, id, np));
    assert forall|k: int|
        0 <= k < w.edges.len() && (#[trigger] w.edges[k]).edge.output_node == id implies w.edges[k].output_point
        == slot_anchor(WidgetSide::Output, w.edges[k].edge.output_slot, np) by {
        assert(w.edges[k] == refreshed_edge(v.edges[k], id, np));
    }
    assert forall|k: int|
        0 <= k < w.edges.len() && (#[trigger] w.edges[k]).edge.input_node == id implies w.edges[k].input_point
        == slot_anchor(WidgetSide::Input, w.edges[k].edge.input_slot, np) by {
        assert(w.edges[k] == refreshed_edge(v.edges[k], id, np));
    }
}

/// In an idle editor, a press and release on a node, with the pointer kept
/// within the drag threshold, selects that node (and no other) and asks the
/// model nothing.
pub proof fn click_selects_node(
    v: EditorView,
    id: NodeId,
    pos: Point,
    at: Point,
    on: Option<SlotRef>,
)
    requires
        v.wf(),
        v.dragged_entity is None,
        v.has_node(id),
        valid_point(pos),
        !beyond_threshold(at, pos),
    ensures
        ({
            let pressed = v.press(pos, MouseButton::Left, Some(DragDropEntity::Node(id)));
            &&& pressed.pointer_moved(at).release(at, on).selected == Some(id)
            &&& pressed.release(pos, on).selected == Some(id)
            &&& drop_outcome(pressed.pointer_moved(at).dragged_edges, on, v.locations).0.len() == 0
            &&& drop_outcome(pressed.dragged_edges, on, v.locations).0.len() == 0
        }),
{
    lemma_node_of(v.nodes, id);
}

/// In an idle editor, a press and release on empty canvas clears the
/// selection and asks the model nothing.
pub proof fn click_on_canvas_deselects(v: EditorView, pos: Point, on: Option<SlotRef>)
    requires
        v.wf(),
        v.dragged_entity is None,
    ensures
        v.press(pos, MouseButton::Left, None).release(pos, on).selected is None,
        drop_outcome(v.press(pos, MouseButton::Left, None).dragged_edges, on, v.locations).0.len()
            == 0,
{
}

/// Deleting a node removes its box, its location and every line touching
/// it; it clears the selection if the node was selected and keeps it
/// otherwise.
pub proof fn delete_removes_node(v: EditorView, id: NodeId)
    requires
        v.wf(),
    ensures
        ({
            let w = v.delete_node(id);
            &&& !w.has_node(id)
            &&& !location_ids(w.locations).contains(id)
            &&& forall|k: int| 0 <= k < w.edges.len() ==> !(#[trigger] w.edges[k]).edge.touches_node(id)
            &&& v.selected == Some(id) ==> w.selected is None
            &&& v.selected != Some(id) ==> w.selected == v.selected
        }),
{
    let w = v.delete_node(id);
    lemma_first_index(node_ids(v.nodes), id);
    lemma_first_index(location_ids(v.locations), id);
    if let Some(k) = first_index(node_ids(v.nodes), id) {
        assert(node_ids(w.nodes) =~= node_ids(v.nodes).remove(k));
        lemma_no_dup_remove(node_ids(v.nodes), k);
    }
    if let Some(k) = first_index(location_ids(v.locations), id) {
        assert(location_ids(w.locations) =~= location_ids(v.locations).remove(k));
        lemma_no_dup_remove(location_ids(v.locations), k);
    }
    assert forall|k: int| 0 <= k < w.edges.len() implies !(#[trigger] w.edges[k]).edge.touches_node(
        id,
    ) by {
        v.edges.lemma_filter_pred(|x: EdgeVisual| !x.edge.touches_node(id), k);
    }
}

proof fn lemma_same_side_drop(ls: Seq<LooseEdge>, t: SlotRef, locs: Seq<Location>)
    requires
        forall|i: int| 0 <= i < ls.len() ==> (#[trigger] ls[i]).anchor.side == t.side,
    ensures
        drop_outcome(ls, Some(t), locs).0.len() == 0,
        drop_outcome(ls, Some(t), locs).1.len() == 0,
        (forall|i: int| 0 <= i < ls.len() ==> (#[trigger] ls[i]).committed is None) ==> drop_outcome(
            ls,
            Some(t),
            locs,
        ).2.len() == 0,
    decreases ls.len(),
{
    if ls.len() > 0 {
        let rest = ls.drop_last();
        assert forall|i: int| 0 <= i < rest.len() implies (#[trigger] rest[i]).anchor.side
            == t.side by {
            assert(rest[i] == ls[i]);
        }
        if forall|i: int| 0 <= i < ls.len() ==> (#[trigger] ls[i]).committed is None {
            assert forall|i: int| 0 <= i < rest.len() implies (#[trigger] rest[i]).committed
                is None by {
                assert(rest[i] == ls[i]);
            }
        }
        lemma_same_side_drop(rest, t, locs);
        let l = ls.last();
        assert(l == ls[ls.len() - 1]);
        assert(t.side != l.anchor.side.spec_opposite());
    }
}

/// Dropping loose edges on a slot of the same side as the slots they are
/// held at asks the model nothing and leaves no loose edge behind; only the
/// lines they were pulled off come back.
pub proof fn incompatible_drop_connects_nothing(v: EditorView, pos: Point, t: SlotRef)
    requires
        forall|i: int| 0 <= i < v.dragged_edges.len() ==> (#[trigger] v.dragged_edges[i]).anchor.side
            == t.side,
    ensures
        drop_outcome(v.dragged_edges, Some(t), v.locations).0.len() == 0,
        v.release(pos, Some(t)).dragged_edges.len() == 0,
        v.release(pos, Some(t)).pending_drops.len() == 0,
        v.release(pos, Some(t)).edges == v.edges + drop_outcome(
            v.dragged_edges,
            Some(t),
            v.locations,
        ).2,
{
    lemma_same_side_drop(v.dragged_edges, t, v.locations);
}

/// In an idle editor, pulling a new loose edge out of a slot and dropping
/// it on a slot of the same side asks the model nothing and leaves the lines
/// as they were, with no loose edge behind.
pub proof fn same_side_drag_changes_nothing(
    v: EditorView,
    s: SlotRef,
    t: SlotRef,
    p0: Point,
    p1: Point,
)
    requires
        v.wf(),
        v.dragged_entity is None,
        valid_point(p0),
        valid_point(p1),
        t.side == s.side,
        s.side == WidgetSide::Output || edges_in_slot(v.edges, s).len() == 0,
    ensures
        ({
            let moved = v.press(p0, MouseButton::Left, Some(DragDropEntity::Slot(s))).pointer_moved(
                p1,
            );
            let w = moved.release(p1, Some(t));
            &&& drop_outcome(moved.dragged_edges, Some(t), moved.locations).0.len() == 0
            &&& w.edges == v.edges
            &&& w.dragged_edges.len() == 0
            &&& w.pending_drops.len() == 0
        }),
{
    let pressed = v.press(p0, MouseButton::Left, Some(DragDropEntity::Slot(s)));
    let moved = pressed.pointer_moved(p1);
    assert(pressed.edges == v.edges);
    assert(moved.edges == v.edges);
    assert forall|i: int| 0 <= i < moved.dragged_edges.len() implies (
    #[trigger] moved.dragged_edges[i]).anchor.side == t.side
        && moved.dragged_edges[i].committed is None by {
        if moved.dragged_entity == Some(DragDropEntity::Edge) && moved.dragging {
            assert(moved.dragged_edges[i] == (LooseEdge {
                free_point: p1,
                ..pressed.dragged_edges[i]
            }));
        }
    }
    lemma_same_side_drop(moved.dragged_edges, t, moved.locations);
    assert(v.edges + Seq::<EdgeVisual>::empty() =~= v.edges);
}

proof fn lemma_settle_refused(ps: Seq<PendingDrop>, accepted: Seq<bool>, locs: Seq<Location>)
    requires
        forall|i: int| 0 <= i < ps.len() ==> !#[trigger] accepted_at(accepted, i),
    ensures
        settle_outcome(ps, accepted, locs).0.len() == 0,
        forall|j: int, e: Edge|
            0 <= j < ps.len() && (#[trigger] ps[j]).loose.committed == Some(e) && #[trigger] edge_visual_of(
                e,
                locs,
            ) is Some ==> settle_outcome(ps, accepted, locs).1.contains(
                edge_visual_of(e, locs)->Some_0,
            ),
    decreases ps.len(),
{
    if ps.len() > 0 {
        let rest = ps.drop_last();
        assert forall|i: int| 0 <= i < rest.len() implies !#[trigger] accepted_at(accepted, i) by {
            assert(!accepted_at(accepted, i));
        }
        lemma_settle_refused(rest, accepted, locs);
        assert(!accepted_at(accepted, ps.len() - 1));
        let o = settle_outcome(rest, accepted, locs);
        let r = settle_outcome(ps, accepted, locs);
        let back = restored(ps.last().loose, locs);
        assert(r.1 == o.1 + back);
        assert forall|j: int, e: Edge|
            0 <= j < ps.len() && (#[trigger] ps[j]).loose.committed == Some(e) && #[trigger] edge_visual_of(
                e,
                locs,
            ) is Some implies r.1.contains(edge_visual_of(e, locs)->Some_0) by {
            if j < rest.len() {
                assert(rest[j] == ps[j]);
                let m = choose|m: int| 0 <= m < o.1.len() && o.1[m] == edge_visual_of(e, locs)->Some_0;
                assert(r.1[m] == o.1[m]);
            } else {
                assert(ps[j] == ps.last());
                assert(r.1[o.1.len() as int] == back[0]);
            }
        }
    }
}

/// When the model refuses the connections a drop requested, nothing is
/// disconnected, and every line pulled off for the move is drawn again
/// between its slot anchors.
pub proof fn refused_move_keeps_edge(v: EditorView, accepted: Seq<bool>, j: int, e: Edge)
    requires
        v.wf(),
        forall|i: int| 0 <= i < accepted.len() ==> !accepted[i],
        0 <= j < v.pending_drops.len(),
        v.pending_drops[j].loose.committed == Some(e),
        v.has_node(e.output_node),
        v.has_node(e.input_node),
    ensures
        settle_outcome(v.pending_drops, accepted, v.locations).0.len() == 0,
        v.settle(accepted).edges.contains(expected_line(v, e)),
{
    assert forall|i: int| 0 <= i < v.pending_drops.len() implies !#[trigger] accepted_at(
        accepted,
        i,
    ) by {}
    lemma_settle_refused(v.pending_drops, accepted, v.locations);
    assert(location_ids(v.locations).contains(e.output_node));
    assert(location_ids(v.locations).contains(e.input_node));
    lemma_location_of(v.locations, e.output_node);
    lemma_location_of(v.locations, e.input_node);
    assert(edge_visual_of(e, v.locations) == Some(expected_line(v, e)));
    let o = settle_outcome(v.pending_drops, accepted, v.locations);
    let m = choose|m: int| 0 <= m < o.1.len() && o.1[m] == expected_line(v, e);
    assert(v.settle(accepted).edges[v.edges.len() + m] == expected_line(v, e));
}

} // verus!
