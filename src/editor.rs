//! The editor controller: the spatial layer of node locations, the visual
//! mirror of the graph, and the drag-and-drop state machine driven by
//! pointer events.
//!
//! Each operation is stated as a transition of [`EditorView`]; the graph
//! model itself lives outside the controller, which hands it
//! [`GraphCommand`]s and is handed back the model's edges.
use vstd::prelude::*;
use crate::geometry::{
    Point, WidgetSide, valid_point, small_point, slot_anchor, slot_margin, spec_clamped_sub,
    clamped_sub, beyond_threshold, exceeds_drag_threshold, spec_drag_offset_default,
    drag_offset_default, position_edge, position_slot, spec_clamp_point, clamp_point,
};
use crate::graph::{
    NodeId, SlotRef, Edge, GraphCommand, Location, location_ids, location_of, valid_locations,
    first_index, lemma_first_index, find_location, try_get_location, lemma_location_of,
    lemma_located,
};
use crate::visuals::{
    NodeInfo, NodeVisual, SlotVisual, EdgeVisual, LooseEdge, node_ids, node_of, valid_nodes,
    lemma_node_of, lemma_node_at, find_node, get_node, spec_move_nodes, move_nodes, slots_of,
    node_slots, build_edges, create_edges, edges_in_slot, edges_off_slot, split_slot_edges,
    edges_off_node, remove_node_edges, spec_refresh_edges, refresh_node_edges, spec_pull_off,
    pull_off, spec_follow, follow_pointer, loose_off_node, remove_node_loose,
    drop_loose_edges, lemma_take_step, PendingDrop, drop_outcome, settle_outcome, settle_drops,
};

verus! {

/// The pointer button of a press or release.
#[derive(Clone, Copy, PartialEq, Eq, Structural, Debug)]
pub enum MouseButton {
    Left,
    Right,
    Other,
}

/// What is being dragged: a node box, a slot, or the loose edges pulled
/// out of a slot.
#[derive(Clone, Copy, PartialEq, Eq, Structural, Debug)]
pub enum DragDropEntity {
    Node(NodeId),
    Slot(SlotRef),
    Edge,
}

/// A queued pointer or key event, with what the shell's hit-testing found
/// under the pointer.
#[derive(Clone, Copy, PartialEq, Eq, Structural, Debug)]
pub enum Action {
    Press(Point, MouseButton, Option<DragDropEntity>),
    Release(Point, Option<SlotRef>),
    Move(Point),
    Delete,
}

pub open spec fn action_in_range(a: Action) -> bool {
    match a {
        Action::Press(p, _, _) => valid_point(p),
        Action::Release(p, _) => valid_point(p),
        Action::Move(p) => valid_point(p),
        Action::Delete => true,
    }
}

/// The controller's whole state.
pub struct NodeContainerState {
    /// One location per node: the persisted spatial layer.
    pub locations: Vec<Location>,
    /// One box per node, where it is drawn (away from its location only
    /// while it is dragged).
    pub nodes: Vec<NodeVisual>,
    /// Lines of committed edges.
    pub edges: Vec<EdgeVisual>,
    /// Lines following the pointer.
    pub dragged_edges: Vec<LooseEdge>,
    /// Loose edges dropped on a slot, waiting for the model's answer
    /// ([`NodeContainerState::settle_drop`]).
    pub pending_drops: Vec<PendingDrop>,
    pub dragged_entity: Option<DragDropEntity>,
    /// Whether the pointer has left the drag threshold since the press.
    pub dragging: bool,
    /// Pointer position relative to the dragged entity's corner.
    pub drag_offset: Point,
    /// Where the pointer must move away from for a press to become a drag.
    pub drag_anchor: Point,
    pub mouse_position: Point,
    pub selected: Option<NodeId>,
    /// The node whose property menu is open.
    pub menu_node: Option<NodeId>,
}

/// The controller's state as mathematical values.
pub struct EditorView {
    pub locations: Seq<Location>,
    pub nodes: Seq<NodeVisual>,
    pub edges: Seq<EdgeVisual>,
    pub dragged_edges: Seq<LooseEdge>,
    pub pending_drops: Seq<PendingDrop>,
    pub dragged_entity: Option<DragDropEntity>,
    pub dragging: bool,
    pub drag_offset: Point,
    pub drag_anchor: Point,
    pub mouse_position: Point,
    pub selected: Option<NodeId>,
    pub menu_node: Option<NodeId>,
}

impl View for NodeContainerState {
    type V = EditorView;

    open spec fn view(&self) -> EditorView {
        EditorView {
            locations: self.locations@,
            nodes: self.nodes@,
            edges: self.edges@,
            dragged_edges: self.dragged_edges@,
            pending_drops: self.pending_drops@,
            dragged_entity: self.dragged_entity,
            dragging: self.dragging,
            drag_offset: self.drag_offset,
            drag_anchor: self.drag_anchor,
            mouse_position: self.mouse_position,
            selected: self.selected,
            menu_node: self.menu_node,
        }
    }
}

/// Coordinates within reach of a stored one (a slot beside a node).
pub open spec fn near_point(p: Point) -> bool {
    -0x1_0000_0000_0000 <= p.x <= 0x1_0000_0000_0000 && -0x1_0000_0000_0000 <= p.y <= 0x1_0000_0000_0000
}

pub open spec fn origin() -> Point {
    Point { x: 0, y: 0 }
}

/// The location `id` takes when it is committed at `p`.
pub open spec fn spec_commit(locs: Seq<Location>, id: NodeId, p: Point) -> Seq<Location> {
    locs.map_values(
        |l: Location|
            if l.node_id == id {
                Location { node_id: id, point: p }
            } else {
                l
            },
    )
}

/// Records `p` as the location of node `id`.
pub fn commit_location(locs: &mut Vec<Location>, id: NodeId, p: Point)
    requires
        valid_locations(old(locs)@),
        valid_point(p),
    ensures
        final(locs)@ == spec_commit(old(locs)@, id, p),
        valid_locations(final(locs)@),
{
    let ghost start = locs@;
    let mut i: usize = 0;
    while i < locs.len()
        invariant
            0 <= i <= locs@.len(),
            locs@.len() == start.len(),
            valid_point(p),
            valid_locations(start),
            forall|j: int|
                0 <= j < i ==> locs@[j] == (if start[j].node_id == id {
                    Location { node_id: id, point: p }
                } else {
                    start[j]
                }),
            forall|j: int| i <= j < locs@.len() ==> locs@[j] == start[j],
        decreases locs.len() - i,
    {
        if locs[i].node_id == id {
            locs.set(i, Location { node_id: id, point: p });
        }
        i = i + 1;
    }
    assert(locs@ =~= spec_commit(start, id, p));
}

pub open spec fn slot_count(n: NodeVisual, side: WidgetSide) -> u32 {
    match side {
        WidgetSide::Input => n.slot_count_input,
        WidgetSide::Output => n.slot_count_output,
    }
}

/// Where a loaded node is placed: its saved location, brought into range, or
/// the origin.
pub open spec fn placed(file: Seq<Location>, id: NodeId) -> Point {
    match location_of(file, id) {
        Some(p) => spec_clamp_point(p),
        None => origin(),
    }
}

/// One box per distinct node of the model, in the model's order, placed by
/// the saved locations.
pub open spec fn loaded_nodes(file: Seq<Location>, infos: Seq<NodeInfo>) -> Seq<NodeVisual>
    decreases infos.len(),
{
    if infos.len() == 0 {
        Seq::empty()
    } else {
        let b = loaded_nodes(file, infos.drop_last());
        let i = infos.last();
        if node_ids(b).contains(i.node_id) {
            b
        } else {
            b.push(
                NodeVisual {
                    node_id: i.node_id,
                    position: placed(file, i.node_id),
                    slot_count_input: i.slot_count_input,
                    slot_count_output: i.slot_count_output,
                },
            )
        }
    }
}

/// The locations of the boxes.
pub open spec fn node_locations(ns: Seq<NodeVisual>) -> Seq<Location> {
    ns.map_values(|n: NodeVisual| Location { node_id: n.node_id, point: n.position })
}

/// Whether the drag refers to node `id` (the node itself or one of its slots).
pub open spec fn drag_refers(d: Option<DragDropEntity>, id: NodeId) -> bool {
    match d {
        Some(DragDropEntity::Node(n)) => n == id,
        Some(DragDropEntity::Slot(s)) => s.node_id == id,
        _ => false,
    }
}

impl EditorView {
    /// One location and one box per node, no two for the same id, all in range.
    pub open spec fn wf(self) -> bool {
        &&& location_ids(self.locations).no_duplicates()
        &&& node_ids(self.nodes).no_duplicates()
        &&& forall|id: NodeId|
            #![trigger location_ids(self.locations).contains(id)]
            #![trigger node_ids(self.nodes).contains(id)]
            location_ids(self.locations).contains(id) <==> node_ids(self.nodes).contains(id)
        &&& valid_locations(self.locations)
        &&& valid_nodes(self.nodes)
        &&& small_point(self.drag_offset)
        &&& valid_point(self.drag_anchor)
        &&& valid_point(self.mouse_position)
        &&& self.boxes_at_locations()
        &&& (self.dragged_entity != Some(DragDropEntity::Edge) ==> self.dragged_edges.len() == 0)
    }

    /// Every node's box is drawn at its location, but for the node being dragged.
    pub open spec fn boxes_at_locations(self) -> bool {
        forall|k: int|
            0 <= k < self.nodes.len() && self.dragged_entity != Some(
                DragDropEntity::Node((#[trigger] self.nodes[k]).node_id),
            ) ==> location_of(self.locations, self.nodes[k].node_id) == Some(self.nodes[k].position)
    }

    pub open spec fn has_node(self, id: NodeId) -> bool {
        node_ids(self.nodes).contains(id)
    }

    /// The corner of a draggable entity: a node's box, or a slot's square
    /// beside an existing node.
    pub open spec fn entity_position(self, t: DragDropEntity) -> Option<Point> {
        match t {
            DragDropEntity::Node(id) => match node_of(self.nodes, id) {
                Some(n) => Some(n.position),
                None => None,
            },
            DragDropEntity::Slot(s) => match node_of(self.nodes, s.node_id) {
                Some(n) => if s.slot_id < slot_count(n, s.side) {
                    Some(slot_margin(s.side, s.slot_id, n.position))
                } else {
                    None
                },
                None => None,
            },
            DragDropEntity::Edge => None,
        }
    }

    /// A press: the left button grabs the entity under the pointer unless
    /// something is already carried (a slot is grabbed with its loose edges at
    /// once), the right button opens the property menu of the node under it
    /// (or closes it).
    pub open spec fn press(
        self,
        pos: Point,
        button: MouseButton,
        target: Option<DragDropEntity>,
    ) -> EditorView {
        let v = EditorView { mouse_position: pos, ..self };
        match button {
            MouseButton::Left => match (target, self.dragged_entity) {
                (Some(t), None) => match self.entity_position(t) {
                    Some(p) => {
                        let w = EditorView {
                            dragged_entity: Some(t),
                            dragging: false,
                            drag_offset: Point {
                                x: (pos.x - p.x) as i64,
                                y: (pos.y - p.y) as i64,
                            },
                            drag_anchor: pos,
                            ..v
                        };
                        match t {
                            DragDropEntity::Slot(s) => w.grab_slot(s, pos),
                            _ => w,
                        }
                    },
                    None => v,
                },
                _ => v,
            },
            MouseButton::Right => EditorView {
                menu_node: match target {
                    Some(DragDropEntity::Node(id)) => if self.has_node(id) {
                        Some(id)
                    } else {
                        None
                    },
                    _ => None,
                },
                ..v
            },
            MouseButton::Other => v,
        }
    }

    /// Grabbing slot `s`: an input slot with lines gives them up to the
    /// pointer, held at their output ends; otherwise one new loose edge is
    /// held at `s`.
    pub open spec fn grab_slot(self, s: SlotRef, pos: Point) -> EditorView {
        let attached = edges_in_slot(self.edges, s);
        if s.side == WidgetSide::Input && attached.len() > 0 {
            EditorView {
                edges: edges_off_slot(self.edges, s),
                dragged_edges: spec_follow(spec_pull_off(attached), pos),
                dragged_entity: Some(DragDropEntity::Edge),
                ..self
            }
        } else {
            EditorView {
                dragged_edges: match node_of(self.nodes, s.node_id) {
                    Some(n) => seq![
                        LooseEdge {
                            anchor: s,
                            anchor_point: slot_anchor(s.side, s.slot_id, n.position),
                            free_point: pos,
                            committed: None,
                        },
                    ],
                    None => Seq::empty(),
                },
                dragged_entity: Some(DragDropEntity::Edge),
                ..self
            }
        }
    }

    /// Node `id` drawn at `p`, with the ends of its lines at its slots.
    pub open spec fn move_node(self, id: NodeId, p: Point) -> EditorView {
        EditorView {
            nodes: spec_move_nodes(self.nodes, id, p),
            edges: spec_refresh_edges(self.edges, id, p),
            ..self
        }
    }

    /// The pointer moved to `pos`. Once it is beyond the threshold from where
    /// the drag began, the dragged entity follows it.
    pub open spec fn pointer_moved(self, pos: Point) -> EditorView {
        let v = EditorView { mouse_position: pos, ..self };
        match self.dragged_entity {
            None => v,
            Some(t) => {
                let dragging = self.dragging || beyond_threshold(pos, self.drag_anchor);
                let w = EditorView { dragging: dragging, ..v };
                if !dragging {
                    w
                } else {
                    match t {
                        DragDropEntity::Node(id) => w.move_node(
                            id,
                            spec_clamped_sub(pos, self.drag_offset),
                        ),
                        _ => EditorView {
                            dragged_edges: spec_follow(self.dragged_edges, pos),
                            ..w
                        },
                    }
                }
            },
        }
    }

    /// The pointer released at `pos` over `on`: loose edges are dropped
    /// ([`drop_outcome`]), a dragged node's place is committed to its location,
    /// a click on a node selects it and a click on empty canvas clears the
    /// selection.
    pub open spec fn release(self, pos: Point, on: Option<SlotRef>) -> EditorView {
        let dropped = drop_outcome(self.dragged_edges, on, self.locations);
        let locations = match self.dragged_entity {
            Some(DragDropEntity::Node(id)) => match node_of(self.nodes, id) {
                Some(n) => spec_commit(self.locations, id, n.position),
                None => self.locations,
            },
            _ => self.locations,
        };
        let selected = match self.dragged_entity {
            None => None,
            Some(DragDropEntity::Node(id)) => if !self.dragging {
                Some(id)
            } else {
                self.selected
            },
            _ => self.selected,
        };
        EditorView {
            locations: locations,
            edges: self.edges + dropped.2,
            dragged_edges: Seq::empty(),
            pending_drops: dropped.1,
            dragged_entity: None,
            dragging: false,
            drag_offset: spec_drag_offset_default(),
            mouse_position: pos,
            selected: selected,
            ..self
        }
    }

    /// The lines of slot `s` rebuilt from `model_edges`, the model's edges
    /// at `s`; lines elsewhere stay as they are.
    pub open spec fn resync(self, s: SlotRef, model_edges: Seq<Edge>) -> EditorView {
        EditorView {
            edges: edges_off_slot(self.edges, s) + build_edges(model_edges, self.locations, Some(s)),
            ..self
        }
    }

    /// The model's answers to the connections a drop requested: accepted
    /// moves are completed, refused ones put their lines back.
    pub open spec fn settle(self, accepted: Seq<bool>) -> EditorView {
        EditorView {
            edges: self.edges + settle_outcome(self.pending_drops, accepted, self.locations).1,
            pending_drops: Seq::empty(),
            ..self
        }
    }

    /// Any drag under way ended as by a release over no slot.
    pub open spec fn end_drag(self) -> EditorView {
        if self.dragged_entity is Some {
            self.release(self.mouse_position, None)
        } else {
            self
        }
    }

    /// What ending the drag under way asks of the model.
    pub open spec fn end_drag_commands(self) -> Seq<GraphCommand> {
        if self.dragged_entity is Some {
            drop_outcome(self.dragged_edges, None, self.locations).0
        } else {
            Seq::empty()
        }
    }

    /// A new node at the origin with its slots, carried by the pointer until
    /// the next release.
    pub open spec fn place_new(self, info: NodeInfo) -> EditorView {
        EditorView {
            locations: self.locations.push(Location { node_id: info.node_id, point: origin() }),
            nodes: self.nodes.push(
                NodeVisual {
                    node_id: info.node_id,
                    position: origin(),
                    slot_count_input: info.slot_count_input,
                    slot_count_output: info.slot_count_output,
                },
            ),
            dragged_entity: Some(DragDropEntity::Node(info.node_id)),
            dragging: false,
            drag_offset: spec_drag_offset_default(),
            drag_anchor: spec_drag_offset_default(),
            ..self
        }
    }

    /// Adding a node: the drag under way ends, and the new node is carried.
    pub open spec fn add_node(self, info: NodeInfo) -> EditorView {
        self.end_drag().place_new(info)
    }

    /// Node `id` gone with its location, its lines and the loose edges held
    /// at it; a drag of it ends, and it is no longer selected.
    pub open spec fn delete_node(self, id: NodeId) -> EditorView {
        EditorView {
            locations: match first_index(location_ids(self.locations), id) {
                Some(k) => self.locations.remove(k),
                None => self.locations,
            },
            nodes: match first_index(node_ids(self.nodes), id) {
                Some(k) => self.nodes.remove(k),
                None => self.nodes,
            },
            edges: edges_off_node(self.edges, id),
            dragged_edges: loose_off_node(self.dragged_edges, id),
            dragged_entity: if drag_refers(self.dragged_entity, id) {
                None
            } else {
                self.dragged_entity
            },
            dragging: if drag_refers(self.dragged_entity, id) {
                false
            } else {
                self.dragging
            },
            selected: if self.selected == Some(id) {
                None
            } else {
                self.selected
            },
            menu_node: if self.menu_node == Some(id) {
                None
            } else {
                self.menu_node
            },
            ..self
        }
    }

    /// The canvas rebuilt from a saved file's `file` locations and the graph
    /// model's nodes and edges: every line is drawn anew from the model.
    pub open spec fn populate(self, file: Seq<Location>, infos: Seq<NodeInfo>, es: Seq<Edge>) -> EditorView {
        let ns = loaded_nodes(file, infos);
        let locs = node_locations(ns);
        EditorView {
            locations: locs,
            nodes: ns,
            edges: build_edges(es, locs, None),
            dragged_edges: Seq::empty(),
            pending_drops: Seq::empty(),
            dragged_entity: None,
            dragging: false,
            drag_offset: spec_drag_offset_default(),
            selected: None,
            menu_node: None,
            ..self
        }
    }

    /// The state after event `a`.
    pub open spec fn after(self, a: Action) -> EditorView {
        match a {
            Action::Press(p, b, t) => self.press(p, b, t),
            Action::Release(p, on) => self.release(p, on),
            Action::Move(p) => self.pointer_moved(p),
            Action::Delete => match self.selected {
                Some(id) => self.delete_node(id),
                None => self,
            },
        }
    }

    /// What event `a` asks of the graph model.
    pub open spec fn commands(self, a: Action) -> Seq<GraphCommand> {
        match a {
            Action::Release(_, on) => drop_outcome(self.dragged_edges, on, self.locations).0,
            Action::Delete => match self.selected {
                Some(id) => seq![GraphCommand::RemoveNode(id)],
                None => Seq::empty(),
            },
            _ => Seq::empty(),
        }
    }
}

pub proof fn lemma_no_dup_remove(ids: Seq<NodeId>, k: int)
    requires
        ids.no_duplicates(),
        0 <= k < ids.len(),
    ensures
        ids.remove(k).no_duplicates(),
        forall|x: NodeId| #[trigger] ids.remove(k).contains(x) <==> (ids.contains(x) && x != ids[k]),
{
    let r = ids.remove(k);
    assert forall|x: NodeId| #[trigger] r.contains(x) <==> (ids.contains(x) && x != ids[k]) by {
        if r.contains(x) {
            let j = choose|j: int| 0 <= j < r.len() && r[j] == x;
            if j < k {
                assert(ids[j] == x);
            } else {
                assert(ids[j + 1] == x);
            }
        }
        if ids.contains(x) && x != ids[k] {
            let j = choose|j: int| 0 <= j < ids.len() && ids[j] == x;
            if j < k {
                assert(r[j] == x);
            } else {
                assert(r[j - 1] == x);
            }
        }
    }
}

proof fn lemma_no_dup_push(ids: Seq<NodeId>, x: NodeId)
    requires
        ids.no_duplicates(),
        !ids.contains(x),
    ensures
        ids.push(x).no_duplicates(),
        forall|y: NodeId| #[trigger] ids.push(x).contains(y) <==> (ids.contains(y) || y == x),
{
    let r = ids.push(x);
    assert forall|y: NodeId| #[trigger] r.contains(y) <==> (ids.contains(y) || y == x) by {
        if r.contains(y) && y != x {
            let j = choose|j: int| 0 <= j < r.len() && r[j] == y;
            assert(ids[j] == y);
        }
        if ids.contains(y) {
            let j = choose|j: int| 0 <= j < ids.len() && ids[j] == y;
            assert(r[j] == y);
        }
        if y == x {
            assert(r[ids.len() as int] == y);
        }
    }
    assert forall|i: int, j: int| 0 <= i < r.len() && 0 <= j < r.len() && i != j implies r[i]
        != r[j] by {
        if i < ids.len() && j == ids.len() {
            assert(ids.contains(r[i]));
        } else if j < ids.len() && i == ids.len() {
            assert(ids.contains(r[j]));
        }
    }
}

proof fn lemma_release_keeps_boxes(v: EditorView, pos: Point, on: Option<SlotRef>)
    requires
        v.wf(),
    ensures
        v.release(pos, on).boxes_at_locations(),
        location_ids(v.release(pos, on).locations) == location_ids(v.locations),
{
    let w = v.release(pos, on);
    assert(location_ids(w.locations) =~= location_ids(v.locations)) by {
        if let Some(DragDropEntity::Node(id)) = v.dragged_entity {
            if let Some(n) = node_of(v.nodes, id) {
                assert(location_ids(spec_commit(v.locations, id, n.position)) =~= location_ids(
                    v.locations,
                ));
            }
        }
    }
    assert forall|k: int|
        0 <= k < w.nodes.len() && w.dragged_entity != Some(
            DragDropEntity::Node((#[trigger] w.nodes[k]).node_id),
        ) implies location_of(w.locations, w.nodes[k].node_id) == Some(w.nodes[k].position) by {
        let x = v.nodes[k].node_id;
        lemma_located(w.locations, x);
        lemma_located(v.locations, x);
        lemma_location_of(v.locations, x);
        assert(node_ids(v.nodes)[k] == x);
        assert(location_ids(v.locations).contains(x));
        match v.dragged_entity {
            Some(DragDropEntity::Node(id)) => {
                lemma_node_of(v.nodes, id);
                if let Some(n) = node_of(v.nodes, id) {
                    let m = choose|m: int|
                        0 <= m < v.locations.len() && location_ids(v.locations)[m] == x;
                    assert(v.locations[m].node_id == x);
                    if x == id {
                        lemma_node_at(v.nodes, k);
                        assert(w.locations[m] == (Location { node_id: id, point: n.position }));
                    } else {
                        assert(w.locations[m] == v.locations[m]);
                    }
                } else {
                    assert(x != id);
                }
            },
            _ => {},
        }
    }
}

/// A release keeps the editor well formed and leaves nothing dragged.
pub proof fn lemma_release_wf(v: EditorView, pos: Point, on: Option<SlotRef>)
    requires
        v.wf(),
        valid_point(pos),
    ensures
        v.release(pos, on).wf(),
        v.release(pos, on).nodes == v.nodes,
        v.release(pos, on).dragged_entity is None,
{
    let w = v.release(pos, on);
    lemma_release_keeps_boxes(v, pos, on);
    if let Some(DragDropEntity::Node(id)) = v.dragged_entity {
        lemma_node_of(v.nodes, id);
        if let Some(n) = node_of(v.nodes, id) {
            assert forall|i: int| 0 <= i < w.locations.len() implies valid_point(
                #[trigger] w.locations[i].point,
            ) by {
                assert(valid_point(v.locations[i].point));
            }
        }
    }
    assert(node_ids(w.nodes) =~= node_ids(v.nodes));
    assert(w.dragged_edges.len() == 0);
}

proof fn lemma_place_keeps_boxes(v: EditorView, info: NodeInfo)
    requires
        v.wf(),
        v.dragged_entity is None,
        !v.has_node(info.node_id),
    ensures
        v.place_new(info).boxes_at_locations(),
{
    let w = v.place_new(info);
    assert(!location_ids(v.locations).contains(info.node_id));
    assert(location_ids(w.locations) =~= location_ids(v.locations).push(info.node_id));
    lemma_no_dup_push(location_ids(v.locations), info.node_id);
    assert forall|k: int|
        0 <= k < w.nodes.len() && w.dragged_entity != Some(
            DragDropEntity::Node((#[trigger] w.nodes[k]).node_id),
        ) implies location_of(w.locations, w.nodes[k].node_id) == Some(w.nodes[k].position) by {
        let x = w.nodes[k].node_id;
        lemma_located(w.locations, x);
        if k == v.nodes.len() {
            assert(w.locations[v.locations.len() as int].node_id == x);
        } else {
            assert(w.nodes[k] == v.nodes[k]);
            assert(v.dragged_entity != Some(DragDropEntity::Node(x)));
            lemma_location_of(v.locations, x);
            let m = choose|m: int|
                0 <= m < v.locations.len() && v.locations[m] == (Location {
                    node_id: x,
                    point: v.nodes[k].position,
                });
            assert(w.locations[m] == v.locations[m]);
        }
    }
}

proof fn lemma_delete_keeps_boxes(v: EditorView, id: NodeId)
    requires
        v.wf(),
    ensures
        v.delete_node(id).boxes_at_locations(),
{
    let w = v.delete_node(id);
    lemma_first_index(location_ids(v.locations), id);
    lemma_first_index(node_ids(v.nodes), id);
    let li = first_index(location_ids(v.locations), id);
    let ni = first_index(node_ids(v.nodes), id);
    if let Some(j) = li {
        assert(location_ids(w.locations) =~= location_ids(v.locations).remove(j));
        lemma_no_dup_remove(location_ids(v.locations), j);
    }
    if let Some(i) = ni {
        assert(node_ids(w.nodes) =~= node_ids(v.nodes).remove(i));
        lemma_no_dup_remove(node_ids(v.nodes), i);
    }
    assert forall|k: int|
        0 <= k < w.nodes.len() && w.dragged_entity != Some(
            DragDropEntity::Node((#[trigger] w.nodes[k]).node_id),
        ) implies location_of(w.locations, w.nodes[k].node_id) == Some(w.nodes[k].position) by {
        let x = w.nodes[k].node_id;
        let kv = match ni {
            Some(i) => if k < i {
                k
            } else {
                k + 1
            },
            None => k,
        };
        assert(w.nodes[k] == v.nodes[kv]);
        assert(node_ids(w.nodes)[k] == x);
        assert(node_ids(w.nodes).contains(x));
        assert(x != id);
        lemma_location_of(v.locations, x);
        let m = choose|m: int|
            0 <= m < v.locations.len() && v.locations[m] == (Location {
                node_id: x,
                point: v.nodes[kv].position,
            });
        let mw = match li {
            Some(j) => if m < j {
                m
            } else {
                m - 1
            },
            None => m,
        };
        assert(w.locations[mw] == v.locations[m]);
        lemma_located(w.locations, x);
    }
}

proof fn lemma_populate_keeps_boxes(v: EditorView, file: Seq<Location>, infos: Seq<NodeInfo>, es: Seq<Edge>)
    requires
        node_ids(loaded_nodes(file, infos)).no_duplicates(),
    ensures
        v.populate(file, infos, es).boxes_at_locations(),
{
    let w = v.populate(file, infos, es);
    assert(location_ids(w.locations) =~= node_ids(w.nodes));
    assert forall|k: int|
        0 <= k < w.nodes.len() && w.dragged_entity != Some(
            DragDropEntity::Node((#[trigger] w.nodes[k]).node_id),
        ) implies location_of(w.locations, w.nodes[k].node_id) == Some(w.nodes[k].position) by {
        lemma_located(w.locations, w.nodes[k].node_id);
        assert(w.locations[k].node_id == w.nodes[k].node_id);
    }
}

/// Adding a node that is not on the canvas keeps the editor well formed,
/// puts the node on it and carries it.
pub proof fn lemma_add_wf(v: EditorView, info: NodeInfo)
    requires
        v.wf(),
        !v.has_node(info.node_id),
    ensures
        v.add_node(info).wf(),
        v.add_node(info).has_node(info.node_id),
        v.add_node(info).dragged_entity == Some(DragDropEntity::Node(info.node_id)),
{
    let u = v.end_drag();
    if v.dragged_entity is Some {
        lemma_release_wf(v, v.mouse_position, None);
    }
    assert(node_ids(u.nodes) == node_ids(v.nodes));
    lemma_place_wf(u, info);
}

proof fn lemma_place_wf(v: EditorView, info: NodeInfo)
    requires
        v.wf(),
        v.dragged_entity is None,
        !v.has_node(info.node_id),
    ensures
        v.place_new(info).wf(),
        v.place_new(info).has_node(info.node_id),
{
    let w = v.place_new(info);
    assert(!location_ids(v.locations).contains(info.node_id));
    assert(location_ids(w.locations) =~= location_ids(v.locations).push(info.node_id));
    assert(node_ids(w.nodes) =~= node_ids(v.nodes).push(info.node_id));
    lemma_no_dup_push(location_ids(v.locations), info.node_id);
    lemma_no_dup_push(node_ids(v.nodes), info.node_id);
    lemma_place_keeps_boxes(v, info);
    assert forall|x: NodeId|
        #![trigger location_ids(w.locations).contains(x)]
        #![trigger node_ids(w.nodes).contains(x)]
        location_ids(w.locations).contains(x) <==> node_ids(w.nodes).contains(x) by {
        assert(location_ids(v.locations).contains(x) <==> node_ids(v.nodes).contains(x));
    }
    assert forall|i: int| 0 <= i < w.locations.len() implies valid_point(
        #[trigger] w.locations[i].point,
    ) by {
        if i < v.locations.len() {
            assert(w.locations[i] == v.locations[i]);
        }
    }
    assert forall|i: int| 0 <= i < w.nodes.len() implies valid_point(
        #[trigger] w.nodes[i].position,
    ) by {
        if i < v.nodes.len() {
            assert(w.nodes[i] == v.nodes[i]);
        }
    }
}

/// Deleting a node keeps the editor well formed and takes the node off it.
pub proof fn lemma_delete_wf(v: EditorView, id: NodeId)
    requires
        v.wf(),
    ensures
        v.delete_node(id).wf(),
        !v.delete_node(id).has_node(id),
        !location_ids(v.delete_node(id).locations).contains(id),
{
    let w = v.delete_node(id);
    lemma_delete_keeps_boxes(v, id);
    lemma_first_index(location_ids(v.locations), id);
    lemma_first_index(node_ids(v.nodes), id);
    if let Some(j) = first_index(location_ids(v.locations), id) {
        assert(location_ids(w.locations) =~= location_ids(v.locations).remove(j));
        lemma_no_dup_remove(location_ids(v.locations), j);
        assert forall|i: int| 0 <= i < w.locations.len() implies valid_point(
            #[trigger] w.locations[i].point,
        ) by {
            if i < j {
                assert(w.locations[i] == v.locations[i]);
            } else {
                assert(w.locations[i] == v.locations[i + 1]);
            }
        }
    }
    if let Some(k) = first_index(node_ids(v.nodes), id) {
        assert(node_ids(w.nodes) =~= node_ids(v.nodes).remove(k));
        lemma_no_dup_remove(node_ids(v.nodes), k);
        assert forall|i: int| 0 <= i < w.nodes.len() implies valid_point(
            #[trigger] w.nodes[i].position,
        ) by {
            if i < k {
                assert(w.nodes[i] == v.nodes[i]);
            } else {
                assert(w.nodes[i] == v.nodes[i + 1]);
            }
        }
    }
    assert forall|x: NodeId|
        #![trigger location_ids(w.locations).contains(x)]
        #![trigger node_ids(w.nodes).contains(x)]
        location_ids(w.locations).contains(x) <==> node_ids(w.nodes).contains(x) by {
        assert(location_ids(v.locations).contains(x) <==> node_ids(v.nodes).contains(x));
    }
    if v.dragged_entity != Some(DragDropEntity::Edge) {
        reveal(Seq::filter);
        assert(v.dragged_edges =~= Seq::<LooseEdge>::empty());
    }
}

pub proof fn lemma_near_slot_margin(side: WidgetSide, slot: u32, p: Point)
    requires
        valid_point(p),
    ensures
        near_point(slot_margin(side, slot, p)),
{
    assert(0 <= 22_500 * (slot as int) <= 22_500 * 0xffff_ffff) by (nonlinear_arith)
        requires
            0 <= slot <= 0xffff_ffff,
    ;
}

proof fn lemma_entity_position_near(v: EditorView, t: DragDropEntity)
    requires
        v.wf(),
    ensures
        v.entity_position(t) matches Some(p) ==> near_point(p),
{
    match t {
        DragDropEntity::Node(id) => {
            lemma_node_of(v.nodes, id);
        },
        DragDropEntity::Slot(s) => {
            lemma_node_of(v.nodes, s.node_id);
            if let Some(n) = node_of(v.nodes, s.node_id) {
                lemma_near_slot_margin(s.side, s.slot_id, n.position);
            }
        },
        DragDropEntity::Edge => {},
    }
}

impl NodeContainerState {
    /// An empty canvas.
    pub fn new() -> (r: NodeContainerState)
        ensures
            r@.wf(),
            r@.locations.len() == 0,
            r@.nodes.len() == 0,
            r@.edges.len() == 0,
            r@.dragged_edges.len() == 0,
            r@.dragged_entity is None,
            !r@.dragging,
            r@.drag_offset == spec_drag_offset_default(),
            r@.selected is None,
            r@.menu_node is None,
    {
        let r = NodeContainerState {
            locations: Vec::new(),
            nodes: Vec::new(),
            edges: Vec::new(),
            dragged_edges: Vec::new(),
            pending_drops: Vec::new(),
            dragged_entity: None,
            dragging: false,
            drag_offset: drag_offset_default(),
            drag_anchor: Point { x: 0, y: 0 },
            mouse_position: Point { x: 0, y: 0 },
            selected: None,
            menu_node: None,
        };
        assert(location_ids(r.locations@) =~= Seq::<NodeId>::empty());
        assert(node_ids(r.nodes@) =~= Seq::<NodeId>::empty());
        r
    }

    fn entity_position(&self, t: DragDropEntity) -> (r: Option<Point>)
        requires
            self@.wf(),
        ensures
            r == self@.entity_position(t),
    {
        match t {
            DragDropEntity::Node(id) => match get_node(&self.nodes, id) {
                Some(n) => Some(n.position),
                None => None,
            },
            DragDropEntity::Slot(s) => {
                proof {
                    lemma_node_of(self.nodes@, s.node_id);
                }
                match get_node(&self.nodes, s.node_id) {
                    Some(n) => {
                        let count = match s.side {
                            WidgetSide::Input => n.slot_count_input,
                            WidgetSide::Output => n.slot_count_output,
                        };
                        if s.slot_id < count {
                            Some(position_slot(s.side, s.slot_id, n.position))
                        } else {
                            None
                        }
                    },
                    None => None,
                }
            },
            DragDropEntity::Edge => None,
        }
    }

    /// A press of `button` at `pos` over `target`, the entity that the
    /// pointer hits (hit-testing is the shell's).
    pub fn press(&mut self, pos: Point, button: MouseButton, target: Option<DragDropEntity>)
        requires
            old(self)@.wf(),
            valid_point(pos),
        ensures
            final(self)@ == old(self)@.press(pos, button, target),
            final(self)@.wf(),
    {
        match button {
            MouseButton::Left => {
                if let (Some(t), None) = (target, self.dragged_entity) {
                    proof {
                        lemma_entity_position_near(self@, t);
                    }
                    if let Some(p) = self.entity_position(t) {
                        self.dragged_entity = Some(t);
                        self.dragging = false;
                        self.drag_offset = Point { x: pos.x - p.x, y: pos.y - p.y };
                        self.drag_anchor = pos;
                        self.mouse_position = pos;
                        if let DragDropEntity::Slot(s) = t {
                            self.grab_slot(s, pos);
                        }
                    }
                }
            },
            MouseButton::Right => {
                self.menu_node = match target {
                    Some(DragDropEntity::Node(id)) => {
                        proof {
                            lemma_first_index(node_ids(self.nodes@), id);
                        }
                        match find_node(&self.nodes, id) {
                            Some(_) => Some(id),
                            None => None,
                        }
                    },
                    _ => None,
                };
            },
            MouseButton::Other => {},
        }
        self.mouse_position = pos;
    }

    fn grab_slot(&mut self, s: SlotRef, pos: Point)
        requires
            old(self)@.wf(),
        ensures
            final(self)@ == old(self)@.grab_slot(s, pos),
    {
        let (attached, rest) = split_slot_edges(&self.edges, s);
        if s.side == WidgetSide::Input && attached.len() > 0 {
            self.edges = rest;
            let mut loose = pull_off(&attached);
            follow_pointer(&mut loose, pos);
            self.dragged_edges = loose;
        } else {
            proof {
                lemma_node_of(self.nodes@, s.node_id);
            }
            let mut loose: Vec<LooseEdge> = Vec::new();
            if let Some(n) = get_node(&self.nodes, s.node_id) {
                loose.push(
                    LooseEdge {
                        anchor: s,
                        anchor_point: position_edge(s.side, s.slot_id, n.position),
                        free_point: pos,
                        committed: None,
                    },
                );
            }
            assert(loose@ =~= match node_of(self.nodes@, s.node_id) {
                Some(n) => seq![
                    LooseEdge {
                        anchor: s,
                        anchor_point: slot_anchor(s.side, s.slot_id, n.position),
                        free_point: pos,
                        committed: None,
                    },
                ],
                None => Seq::empty(),
            });
            self.dragged_edges = loose;
        }
        self.dragged_entity = Some(DragDropEntity::Edge);
    }

    /// The pointer moved to `pos`.
    pub fn pointer_moved(&mut self, pos: Point)
        requires
            old(self)@.wf(),
            valid_point(pos),
        ensures
            final(self)@ == old(self)@.pointer_moved(pos),
            final(self)@.wf(),
    {
        self.mouse_position = pos;
        let t = match self.dragged_entity {
            Some(t) => t,
            None => return,
        };
        if !self.dragging && exceeds_drag_threshold(pos, self.drag_anchor) {
            self.dragging = true;
        }
        if !self.dragging {
            return;
        }
        match t {
            DragDropEntity::Node(id) => {
                let p = clamped_sub(pos, self.drag_offset);
                let ghost before = self.nodes@;
                move_nodes(&mut self.nodes, id, p);
                refresh_node_edges(&mut self.edges, id, p);
                assert(node_ids(self.nodes@) =~= node_ids(before));
            },
            _ => {
                follow_pointer(&mut self.dragged_edges, pos);
            },
        }
    }

    /// The pointer released at `pos` over `dropped_on`, the slot under it if
    /// any. Returns what the graph model is asked to do. The model's answers
    /// to the `Connect` commands then go to [`NodeContainerState::settle_drop`],
    /// and the lines of `dropped_on` are rebuilt from the model
    /// ([`NodeContainerState::resync_slot_edges`]).
    pub fn release(&mut self, pos: Point, dropped_on: Option<SlotRef>) -> (r: Vec<GraphCommand>)
        requires
            old(self)@.wf(),
            valid_point(pos),
        ensures
            r@ == drop_outcome(old(self)@.dragged_edges, dropped_on, old(self)@.locations).0,
            final(self)@ == old(self)@.release(pos, dropped_on),
            final(self)@.wf(),
    {
        let ghost v0 = self@;
        let (commands, pending, mut lines) = drop_loose_edges(
            &self.dragged_edges,
            dropped_on,
            &self.locations,
        );
        self.edges.append(&mut lines);
        self.pending_drops = pending;
        self.dragged_edges = Vec::new();
        match self.dragged_entity {
            Some(DragDropEntity::Node(id)) => {
                proof {
                    lemma_node_of(self.nodes@, id);
                }
                if let Some(n) = get_node(&self.nodes, id) {
                    let ghost before = self.locations@;
                    commit_location(&mut self.locations, id, n.position);
                    assert(location_ids(self.locations@) =~= location_ids(before));
                }
                if !self.dragging {
                    self.selected = Some(id);
                }
            },
            None => {
                self.selected = None;
            },
            _ => {},
        }
        self.dragged_entity = None;
        self.dragging = false;
        self.drag_offset = drag_offset_default();
        self.mouse_position = pos;
        assert(self.dragged_edges@ =~= Seq::<LooseEdge>::empty());
        proof {
            lemma_release_wf(v0, pos, dropped_on);
        }
        commands
    }

    /// Hands over the model's answers to the connections the last release
    /// requested, one per `Connect` it returned, in order (a missing answer is
    /// a refusal). Returns the commands that complete the accepted moves; the
    /// lines of refused moves go back to their slots.
    pub fn settle_drop(&mut self, accepted: &Vec<bool>) -> (r: Vec<GraphCommand>)
        requires
            old(self)@.wf(),
        ensures
            r@ == settle_outcome(old(self)@.pending_drops, accepted@, old(self)@.locations).0,
            final(self)@ == old(self)@.settle(accepted@),
            final(self)@.wf(),
    {
        let (commands, mut lines) = settle_drops(&self.pending_drops, accepted, &self.locations);
        self.edges.append(&mut lines);
        self.pending_drops = Vec::new();
        assert(self.pending_drops@ =~= Seq::<PendingDrop>::empty());
        commands
    }

    /// Rebuilds the lines of slot `s` from `model_edges`, the graph model's
    /// edges at `s`: the slot's old lines go, and one line is drawn for each
    /// distinct edge that ends at `s` and whose nodes have locations.
    pub fn resync_slot_edges(&mut self, s: SlotRef, model_edges: &Vec<Edge>)
        requires
            old(self)@.wf(),
        ensures
            final(self)@ == old(self)@.resync(s, model_edges@),
            final(self)@.wf(),
    {
        let (_, mut kept) = split_slot_edges(&self.edges, s);
        let mut fresh = create_edges(model_edges, &self.locations, Some(s));
        kept.append(&mut fresh);
        self.edges = kept;
    }

    /// Adds a box for a node the graph model has just created, at the origin,
    /// and carries it with the pointer; a drag under way first ends as a
    /// release over no slot. Returns what ending that drag asks of the model,
    /// or `None`, changing nothing, when the id already has a box.
    pub fn add_node(&mut self, info: NodeInfo) -> (r: Option<Vec<GraphCommand>>)
        requires
            old(self)@.wf(),
        ensures
            r is Some == !old(self)@.has_node(info.node_id),
            r matches Some(c) ==> c@ == old(self)@.end_drag_commands() && final(self)@ == old(
                self,
            )@.add_node(info),
            r is Some ==> final(self)@.dragged_entity == Some(DragDropEntity::Node(info.node_id)),
            r is None ==> final(self)@ == old(self)@,
            final(self)@.wf(),
            final(self)@.has_node(info.node_id),
    {
        proof {
            lemma_first_index(node_ids(self.nodes@), info.node_id);
        }
        if find_node(&self.nodes, info.node_id).is_some() {
            return None;
        }
        let ghost v0 = self@;
        proof {
            lemma_add_wf(v0, info);
        }
        let commands = if self.dragged_entity.is_some() {
            let pos = self.mouse_position;
            self.release(pos, None)
        } else {
            Vec::new()
        };
        let origin = Point { x: 0, y: 0 };
        self.locations.push(Location { node_id: info.node_id, point: origin });
        self.nodes.push(
            NodeVisual {
                node_id: info.node_id,
                position: origin,
                slot_count_input: info.slot_count_input,
                slot_count_output: info.slot_count_output,
            },
        );
        self.dragged_entity = Some(DragDropEntity::Node(info.node_id));
        self.dragging = false;
        self.drag_offset = drag_offset_default();
        self.drag_anchor = drag_offset_default();
        assert(commands@ =~= v0.end_drag_commands());
        Some(commands)
    }

    /// Removes node `id` from the canvas: its location, its box, every line
    /// that touches it and every loose edge held at it. Returns whether it was
    /// there; the graph model is to remove the node too.
    pub fn delete_node(&mut self, id: NodeId) -> (r: bool)
        requires
            old(self)@.wf(),
        ensures
            r == old(self)@.has_node(id),
            final(self)@ == old(self)@.delete_node(id),
            final(self)@.wf(),
            !final(self)@.has_node(id),
    {
        let ghost v0 = self@;
        proof {
            lemma_delete_wf(v0, id);
            lemma_first_index(location_ids(self.locations@), id);
            lemma_first_index(node_ids(self.nodes@), id);
        }
        let found = find_node(&self.nodes, id);
        if let Some(k) = find_location(&self.locations, id) {
            self.locations.remove(k);
        }
        if let Some(k) = found {
            self.nodes.remove(k);
        }
        remove_node_edges(&mut self.edges, id);
        remove_node_loose(&mut self.dragged_edges, id);
        let refers = match self.dragged_entity {
            Some(DragDropEntity::Node(n)) => n == id,
            Some(DragDropEntity::Slot(s)) => s.node_id == id,
            _ => false,
        };
        if refers {
            self.dragged_entity = None;
            self.dragging = false;
        }
        if self.selected == Some(id) {
            self.selected = None;
        }
        if self.menu_node == Some(id) {
            self.menu_node = None;
        }
        found.is_some()
    }

    /// The Delete key: removes the selected node, if there is one, and
    /// returns its id for the graph model.
    pub fn delete_selected(&mut self) -> (r: Option<NodeId>)
        requires
            old(self)@.wf(),
        ensures
            r == old(self)@.selected,
            r matches Some(id) ==> final(self)@ == old(self)@.delete_node(id),
            r is None ==> final(self)@ == old(self)@,
            final(self)@.wf(),
    {
        match self.selected {
            Some(id) => {
                self.delete_node(id);
                Some(id)
            },
            None => None,
        }
    }

    /// The locations to save beside the graph model.
    pub fn snapshot(&self) -> (r: Vec<Location>)
        ensures
            r@ == self@.locations,
    {
        let mut out: Vec<Location> = Vec::new();
        let mut i: usize = 0;
        while i < self.locations.len()
            invariant
                0 <= i <= self.locations@.len(),
                out@ =~= self.locations@.take(i as int),
            decreases self.locations.len() - i,
        {
            out.push(self.locations[i]);
            i = i + 1;
            assert(out@ =~= self.locations@.take(i as int));
        }
        assert(self.locations@.take(self.locations@.len() as int) =~= self.locations@);
        out
    }

    /// Replaces the whole canvas by the one a saved file describes: `file`
    /// holds its locations, `infos` and `model_edges` what the loaded graph
    /// model holds.
    pub fn populate_workspace(&mut self, file: &Vec<Location>, infos: &Vec<NodeInfo>, model_edges: &Vec<Edge>)
        requires
            old(self)@.wf(),
        ensures
            final(self)@ == old(self)@.populate(file@, infos@, model_edges@),
            final(self)@.wf(),
    {
        let ghost v0 = self@;
        let mut nodes: Vec<NodeVisual> = Vec::new();
        let mut locs: Vec<Location> = Vec::new();
        let mut i: usize = 0;
        assert(infos@.take(0) =~= Seq::<NodeInfo>::empty());
        assert(node_ids(nodes@) =~= Seq::<NodeId>::empty());
        assert(node_locations(nodes@) =~= Seq::<Location>::empty());
        while i < infos.len()
            invariant
                0 <= i <= infos@.len(),
                nodes@ == loaded_nodes(file@, infos@.take(i as int)),
                locs@ == node_locations(nodes@),
                node_ids(nodes@).no_duplicates(),
                valid_nodes(nodes@),
            decreases infos.len() - i,
        {
            proof {
                lemma_take_step(infos@, i as int);
                lemma_first_index(node_ids(nodes@), infos@[i as int].node_id);
            }
            let info = infos[i];
            if find_node(&nodes, info.node_id).is_none() {
                let position = match try_get_location(file, info.node_id) {
                    Some(p) => clamp_point(p),
                    None => Point { x: 0, y: 0 },
                };
                let ghost before = nodes@;
                nodes.push(
                    NodeVisual {
                        node_id: info.node_id,
                        position,
                        slot_count_input: info.slot_count_input,
                        slot_count_output: info.slot_count_output,
                    },
                );
                locs.push(Location { node_id: info.node_id, point: position });
                proof {
                    assert(node_ids(nodes@) =~= node_ids(before).push(info.node_id));
                    lemma_no_dup_push(node_ids(before), info.node_id);
                    assert(locs@ =~= node_locations(nodes@));
                }
            }
            i = i + 1;
        }
        assert(infos@.take(infos@.len() as int) =~= infos@);
        assert(location_ids(locs@) =~= node_ids(nodes@));
        let edges = create_edges(model_edges, &locs, None);
        self.locations = locs;
        self.nodes = nodes;
        self.edges = edges;
        self.dragged_edges = Vec::new();
        self.pending_drops = Vec::new();
        self.dragged_entity = None;
        self.dragging = false;
        self.drag_offset = drag_offset_default();
        self.selected = None;
        self.menu_node = None;
        assert(self.dragged_edges@ =~= Seq::<LooseEdge>::empty());
        assert(self.pending_drops@ =~= Seq::<PendingDrop>::empty());
        proof {
            lemma_populate_keeps_boxes(v0, file@, infos@, model_edges@);
        }
    }

    /// Handles one event and returns what the graph model is to do. A release
    /// is followed as [`NodeContainerState::release`] says.
    pub fn handle_action(&mut self, a: Action) -> (r: Vec<GraphCommand>)
        requires
            old(self)@.wf(),
            action_in_range(a),
        ensures
            final(self)@ == old(self)@.after(a),
            r@ == old(self)@.commands(a),
            final(self)@.wf(),
    {
        match a {
            Action::Press(p, b, t) => {
                self.press(p, b, t);
                Vec::new()
            },
            Action::Release(p, on) => self.release(p, on),
            Action::Move(p) => {
                self.pointer_moved(p);
                Vec::new()
            },
            Action::Delete => {
                let mut out: Vec<GraphCommand> = Vec::new();
                if let Some(id) = self.delete_selected() {
                    out.push(GraphCommand::RemoveNode(id));
                }
                assert(out@ =~= old(self)@.commands(a));
                out
            },
        }
    }

    /// The slot squares of node `id`, placed beside its box.
    pub fn slot_visuals(&self, id: NodeId) -> (r: Vec<SlotVisual>)
        requires
            self@.wf(),
        ensures
            node_of(self@.nodes, id) matches Some(n) ==> r@ == slots_of(n),
            node_of(self@.nodes, id) is None ==> r@.len() == 0,
    {
        proof {
            lemma_node_of(self.nodes@, id);
        }
        match get_node(&self.nodes, id) {
            Some(n) => node_slots(&n),
            None => Vec::new(),
        }
    }
}

} // verus!
