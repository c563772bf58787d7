//! Identities of the graph model as the editor sees them: nodes, slots,
//! edges, the spatial layer of node locations, and the commands the editor
//! hands to the graph model.
use vstd::prelude::*;
use crate::geometry::{Point, WidgetSide, valid_point};

verus! {

/// Identifier of a node, assigned by the graph model.
pub type NodeId = u32;

/// Index of a slot on one side of a node.
pub type SlotId = u32;

/// A connection point: a slot on one side of one node.
#[derive(Clone, Copy, PartialEq, Eq, Structural, Debug)]
pub struct SlotRef {
    pub node_id: NodeId,
    pub side: WidgetSide,
    pub slot_id: SlotId,
}

/// A directed connection from an output slot to an input slot.
#[derive(Clone, Copy, PartialEq, Eq, Structural, Debug)]
pub struct Edge {
    pub output_node: NodeId,
    pub output_slot: SlotId,
    pub input_node: NodeId,
    pub input_slot: SlotId,
}

impl Edge {
    /// The end of the edge on `side`.
    pub open spec fn spec_end(self, side: WidgetSide) -> SlotRef {
        match side {
            WidgetSide::Input => SlotRef {
                node_id: self.input_node,
                side: WidgetSide::Input,
                slot_id: self.input_slot,
            },
            WidgetSide::Output => SlotRef {
                node_id: self.output_node,
                side: WidgetSide::Output,
                slot_id: self.output_slot,
            },
        }
    }

    pub open spec fn touches(self, slot: SlotRef) -> bool {
        self.spec_end(slot.side) == slot
    }

    pub open spec fn touches_node(self, id: NodeId) -> bool {
        self.output_node == id || self.input_node == id
    }

    pub fn end(&self, side: WidgetSide) -> (r: SlotRef)
        ensures
            r == self.spec_end(side),
    {
        match side {
            WidgetSide::Input => SlotRef {
                node_id: self.input_node,
                side: WidgetSide::Input,
                slot_id: self.input_slot,
            },
            WidgetSide::Output => SlotRef {
                node_id: self.output_node,
                side: WidgetSide::Output,
                slot_id: self.output_slot,
            },
        }
    }

    /// Whether the edge ends at `slot`.
    pub fn in_slot(&self, slot: SlotRef) -> (r: bool)
        ensures
            r == self.touches(slot),
    {
        let e = self.end(slot.side);
        e.node_id == slot.node_id && e.side == slot.side && e.slot_id == slot.slot_id
    }

    pub fn touches_node_exec(&self, id: NodeId) -> (r: bool)
        ensures
            r == self.touches_node(id),
    {
        self.output_node == id || self.input_node == id
    }
}

/// The edge that joins two slots of opposite sides.
pub open spec fn spec_edge_between(a: SlotRef, b: SlotRef) -> Edge {
    match a.side {
        WidgetSide::Output => Edge {
            output_node: a.node_id,
            output_slot: a.slot_id,
            input_node: b.node_id,
            input_slot: b.slot_id,
        },
        WidgetSide::Input => Edge {
            output_node: b.node_id,
            output_slot: b.slot_id,
            input_node: a.node_id,
            input_slot: a.slot_id,
        },
    }
}

pub fn edge_between(a: SlotRef, b: SlotRef) -> (r: Edge)
    ensures
        r == spec_edge_between(a, b),
{
    match a.side {
        WidgetSide::Output => Edge {
            output_node: a.node_id,
            output_slot: a.slot_id,
            input_node: b.node_id,
            input_slot: b.slot_id,
        },
        WidgetSide::Input => Edge {
            output_node: b.node_id,
            output_slot: b.slot_id,
            input_node: a.node_id,
            input_slot: a.slot_id,
        },
    }
}

/// A change the editor asks the graph model to make.
#[derive(Clone, Copy, PartialEq, Eq, Structural, Debug)]
pub enum GraphCommand {
    Connect(Edge),
    Disconnect(Edge),
    RemoveNode(NodeId),
}

/// A node's place on the canvas: the spatial layer that the graph model lacks.
#[derive(Clone, Copy, PartialEq, Eq, Structural, Debug)]
pub struct Location {
    pub node_id: NodeId,
    pub point: Point,
}

/// Position of the first occurrence of `id` in `ids`.
pub open spec fn first_index(ids: Seq<NodeId>, id: NodeId) -> Option<int>
    decreases ids.len(),
{
    if ids.len() == 0 {
        None
    } else if ids[0] == id {
        Some(0)
    } else {
        match first_index(ids.drop_first(), id) {
            Some(k) => Some(k + 1),
            None => None,
        }
    }
}

pub proof fn lemma_first_index(ids: Seq<NodeId>, id: NodeId)
    ensures
        first_index(ids, id) is None <==> !ids.contains(id),
        first_index(ids, id) matches Some(k) ==> 0 <= k < ids.len() && ids[k] == id && forall|
            j: int,
        | 0 <= j < k ==> ids[j] != id,
    decreases ids.len(),
{
    if ids.len() > 0 {
        let rest = ids.drop_first();
        lemma_first_index(rest, id);
        if ids[0] != id {
            if ids.contains(id) {
                let i = choose|i: int| 0 <= i < ids.len() && ids[i] == id;
                assert(rest[i - 1] == id);
            }
            if rest.contains(id) {
                let i = choose|i: int| 0 <= i < rest.len() && rest[i] == id;
                assert(ids[i + 1] == id);
            }
            if let Some(k) = first_index(ids, id) {
                assert forall|j: int| 0 <= j < k implies ids[j] != id by {
                    if j > 0 {
                        assert(ids[j] == rest[j - 1]);
                    }
                }
            }
        }
    }
}

pub open spec fn location_ids(locs: Seq<Location>) -> Seq<NodeId> {
    locs.map_values(|l: Location| l.node_id)
}

/// The point recorded for `id` (the first one, should there be several).
pub open spec fn location_of(locs: Seq<Location>, id: NodeId) -> Option<Point> {
    match first_index(location_ids(locs), id) {
        Some(k) => Some(locs[k].point),
        None => None,
    }
}

pub open spec fn valid_locations(locs: Seq<Location>) -> bool {
    forall|i: int| 0 <= i < locs.len() ==> valid_point(#[trigger] locs[i].point)
}

pub proof fn lemma_location_of(locs: Seq<Location>, id: NodeId)
    ensures
        location_of(locs, id) is Some <==> location_ids(locs).contains(id),
        location_of(locs, id) matches Some(p) ==> exists|i: int|
            0 <= i < locs.len() && locs[i] == (Location { node_id: id, point: p }),
        valid_locations(locs) ==> (location_of(locs, id) matches Some(p) ==> valid_point(p)),
{
    lemma_first_index(location_ids(locs), id);
    if let Some(k) = first_index(location_ids(locs), id) {
        assert(locs[k] == (Location { node_id: id, point: locs[k].point }));
    }
}

/// Where ids are unique, the lookup finds the one location recorded for an id.
pub proof fn lemma_located(locs: Seq<Location>, x: NodeId)
    requires
        location_ids(locs).no_duplicates(),
    ensures
        forall|k: int|
            0 <= k < locs.len() && (#[trigger] locs[k]).node_id == x ==> location_of(locs, x)
                == Some(locs[k].point),
        !location_ids(locs).contains(x) ==> location_of(locs, x) is None,
{
    let ids = location_ids(locs);
    lemma_first_index(ids, x);
    assert forall|k: int| 0 <= k < locs.len() && (#[trigger] locs[k]).node_id == x implies location_of(
        locs,
        x,
    ) == Some(locs[k].point) by {
        assert(ids[k] == x);
        assert(ids.contains(x));
        let j = first_index(ids, x)->Some_0;
        assert(ids[j] == x);
    }
}

/// Index of the first location recorded for `id`.
pub fn find_location(locs: &Vec<Location>, id: NodeId) -> (r: Option<usize>)
    ensures
        r matches Some(k) ==> first_index(location_ids(locs@), id) == Some(k as int),
        r is None ==> first_index(location_ids(locs@), id) is None,
{
    let ghost ids = location_ids(locs@);
    proof {
        lemma_first_index(ids, id);
    }
    let mut i: usize = 0;
    while i < locs.len()
        invariant
            0 <= i <= locs@.len(),
            ids == location_ids(locs@),
            forall|j: int| 0 <= j < i ==> ids[j] != id,
            first_index(ids, id) is None <==> !ids.contains(id),
            first_index(ids, id) matches Some(k) ==> 0 <= k < ids.len() && ids[k] == id && forall|
                j: int,
            | 0 <= j < k ==> ids[j] != id,
        decreases locs.len() - i,
    {
        assert(ids[i as int] == locs@[i as int].node_id);
        if locs[i].node_id == id {
            assert(ids.contains(id));
            return Some(i);
        }
        i = i + 1;
    }
    None
}

/// The point of the first location recorded for `id`, if any.
pub fn try_get_location(locs: &Vec<Location>, id: NodeId) -> (r: Option<Point>)
    ensures
        r == location_of(locs@, id),
{
    proof {
        lemma_first_index(location_ids(locs@), id);
    }
    match find_location(locs, id) {
        Some(k) => Some(locs[k].point),
        None => None,
    }
}

} // verus!
