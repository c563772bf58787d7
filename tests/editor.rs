use kanter_editor::editor::{Action, DragDropEntity, MouseButton, NodeContainerState};
use kanter_editor::geometry::{
    exceeds_drag_threshold, position_edge, position_slot, Point, WidgetSide, COORD_LIMIT,
    SUBPIXELS,
};
use kanter_editor::graph::{Edge, GraphCommand, Location, SlotRef};
use kanter_editor::visuals::{node_info, EdgeVisual, NodeInfo, NodeKind};

/// A point given in half pixels.
fn pt(x: i64, y: i64) -> Point {
    Point { x: x * SUBPIXELS / 2, y: y * SUBPIXELS / 2 }
}

fn raw(x: i64, y: i64) -> Point {
    Point { x, y }
}

fn slot(node_id: u32, side: WidgetSide, slot_id: u32) -> SlotRef {
    SlotRef { node_id, side, slot_id }
}

fn info(node_id: u32, inputs: u32, outputs: u32) -> NodeInfo {
    NodeInfo { node_id, slot_count_input: inputs, slot_count_output: outputs }
}

/// A stand-in for the graph model: it accepts an edge from an output to an
/// input slot, once, unless it refuses every connection.
struct Model {
    edges: Vec<Edge>,
    refuse: bool,
}

impl Model {
    fn new(edges: Vec<Edge>) -> Model {
        Model { edges, refuse: false }
    }

    /// Carries out the commands; returns the answers to the connections.
    fn apply(&mut self, commands: &[GraphCommand]) -> Vec<bool> {
        let mut answers = Vec::new();
        for c in commands {
            match *c {
                GraphCommand::Connect(e) => {
                    let ok = !self.refuse && !self.edges.contains(&e);
                    if ok {
                        self.edges.push(e);
                    }
                    answers.push(ok);
                }
                GraphCommand::Disconnect(e) => self.edges.retain(|x| *x != e),
                GraphCommand::RemoveNode(id) => {
                    self.edges.retain(|x| x.output_node != id && x.input_node != id)
                }
            }
        }
        answers
    }

    fn edges_in_slot(&self, s: SlotRef) -> Vec<Edge> {
        self.edges
            .iter()
            .copied()
            .filter(|e| match s.side {
                WidgetSide::Input => e.input_node == s.node_id && e.input_slot == s.slot_id,
                WidgetSide::Output => e.output_node == s.node_id && e.output_slot == s.slot_id,
            })
            .collect()
    }
}

fn release_into(ed: &mut NodeContainerState, model: &mut Model, at: Point, on: Option<SlotRef>) -> Vec<GraphCommand> {
    let mut commands = ed.release(at, on);
    let answers = model.apply(&commands);
    let settled = ed.settle_drop(&answers);
    model.apply(&settled);
    commands.extend(settled);
    assert!(ed.pending_drops.is_empty());
    if let Some(s) = on {
        let es = model.edges_in_slot(s);
        ed.resync_slot_edges(s, &es);
    }
    commands
}

/// Two nodes: A (id 1, one output) at the origin, B (id 2, one input) 200 px right.
fn two_nodes(edges: &[Edge]) -> NodeContainerState {
    let mut ed = NodeContainerState::new();
    let file = vec![
        Location { node_id: 1, point: pt(0, 0) },
        Location { node_id: 2, point: pt(400, 0) },
    ];
    ed.populate_workspace(&file, &vec![info(1, 0, 1), info(2, 1, 0)], &edges.to_vec());
    ed
}

fn a_to_b() -> Edge {
    Edge { output_node: 1, output_slot: 0, input_node: 2, input_slot: 0 }
}

#[test]
fn slot_anchor_geometry() {
    assert_eq!(position_edge(WidgetSide::Input, 0, pt(10, 20)), pt(10, 35));
    assert_eq!(position_edge(WidgetSide::Output, 0, pt(10, 20)), pt(210, 35));
    assert_eq!(position_edge(WidgetSide::Input, 2, pt(0, 0)), pt(0, 105));
    assert_eq!(position_edge(WidgetSide::Output, 3, pt(-100, -50)), pt(100, 100));
}

#[test]
fn slot_square_geometry() {
    assert_eq!(position_slot(WidgetSide::Input, 0, pt(10, 20)), pt(-5, 20));
    assert_eq!(position_slot(WidgetSide::Output, 1, pt(10, 20)), pt(195, 65));
}

#[test]
fn drag_threshold_is_five_pixels() {
    assert!(!exceeds_drag_threshold(pt(10, 0), pt(0, 0)));
    assert!(exceeds_drag_threshold(pt(11, 0), pt(0, 0)));
    assert!(exceeds_drag_threshold(pt(7, 8), pt(0, 0)));
    assert!(!exceeds_drag_threshold(pt(6, -8), pt(0, 0)));
    assert!(!exceeds_drag_threshold(pt(3, 3), pt(3, 3)));
}

#[test]
fn connect_output_to_input_by_dragging() {
    let mut ed = two_nodes(&[]);
    let mut model = Model::new(vec![]);
    ed.press(pt(190, 10), MouseButton::Left, Some(DragDropEntity::Slot(slot(1, WidgetSide::Output, 0))));
    ed.pointer_moved(pt(400, 15));
    assert_eq!(ed.dragged_edges.len(), 1);
    assert_eq!(ed.dragged_edges[0].anchor_point, pt(200, 15));
    assert_eq!(ed.dragged_edges[0].free_point, pt(400, 15));
    let commands = release_into(&mut ed, &mut model, pt(400, 15), Some(slot(2, WidgetSide::Input, 0)));
    assert_eq!(commands, vec![GraphCommand::Connect(a_to_b())]);
    assert_eq!(model.edges, vec![a_to_b()]);
    assert_eq!(
        ed.edges,
        vec![EdgeVisual {
            edge: a_to_b(),
            output_point: position_edge(WidgetSide::Output, 0, pt(0, 0)),
            input_point: position_edge(WidgetSide::Input, 0, pt(400, 0)),
        }]
    );
    assert!(ed.dragged_edges.is_empty());
    assert_eq!(ed.dragged_entity, None);
}

#[test]
fn connect_from_input_end() {
    let mut ed = two_nodes(&[]);
    let mut model = Model::new(vec![]);
    ed.press(pt(390, 10), MouseButton::Left, Some(DragDropEntity::Slot(slot(2, WidgetSide::Input, 0))));
    ed.pointer_moved(pt(200, 15));
    assert_eq!(ed.dragged_edges[0].anchor, slot(2, WidgetSide::Input, 0));
    let commands = release_into(&mut ed, &mut model, pt(200, 15), Some(slot(1, WidgetSide::Output, 0)));
    assert_eq!(commands, vec![GraphCommand::Connect(a_to_b())]);
    assert_eq!(ed.edges.len(), 1);
    assert_eq!(ed.edges[0].edge, a_to_b());
}

#[test]
fn output_onto_output_is_rejected() {
    let mut ed = NodeContainerState::new();
    ed.populate_workspace(&vec![], &vec![info(1, 0, 1), info(2, 0, 1)], &vec![]);
    let mut model = Model::new(vec![]);
    ed.press(pt(190, 10), MouseButton::Left, Some(DragDropEntity::Slot(slot(1, WidgetSide::Output, 0))));
    ed.pointer_moved(pt(300, 40));
    assert_eq!(ed.dragged_edges.len(), 1);
    let commands = release_into(&mut ed, &mut model, pt(300, 40), Some(slot(2, WidgetSide::Output, 0)));
    assert!(commands.is_empty());
    assert!(model.edges.is_empty());
    assert!(ed.edges.is_empty());
    assert!(ed.dragged_edges.is_empty());
}

#[test]
fn loose_edge_dropped_nowhere_vanishes() {
    let mut ed = two_nodes(&[]);
    ed.press(pt(190, 10), MouseButton::Left, Some(DragDropEntity::Slot(slot(1, WidgetSide::Output, 0))));
    ed.pointer_moved(pt(300, 300));
    let commands = ed.release(pt(300, 300), None);
    assert!(commands.is_empty());
    assert!(ed.dragged_edges.is_empty());
    assert!(ed.edges.is_empty());
}

#[test]
fn pulling_edges_off_an_input_disconnects_them() {
    let mut ed = two_nodes(&[a_to_b()]);
    let mut model = Model::new(vec![a_to_b()]);
    assert_eq!(ed.edges.len(), 1);
    ed.press(pt(390, 10), MouseButton::Left, Some(DragDropEntity::Slot(slot(2, WidgetSide::Input, 0))));
    ed.pointer_moved(pt(500, 100));
    assert!(ed.edges.is_empty());
    assert_eq!(ed.dragged_edges.len(), 1);
    assert_eq!(ed.dragged_edges[0].anchor, slot(1, WidgetSide::Output, 0));
    assert_eq!(ed.dragged_edges[0].committed, Some(a_to_b()));
    assert_eq!(ed.dragged_edges[0].free_point, pt(500, 100));
    let commands = release_into(&mut ed, &mut model, pt(500, 100), None);
    assert_eq!(commands, vec![GraphCommand::Disconnect(a_to_b())]);
    assert!(model.edges.is_empty());
    assert!(ed.edges.is_empty());
}

#[test]
fn moving_an_edge_to_another_input() {
    let mut ed = NodeContainerState::new();
    ed.populate_workspace(&vec![], &vec![info(1, 0, 1), info(2, 2, 0)], &vec![a_to_b()]);
    let mut model = Model::new(vec![a_to_b()]);
    ed.press(pt(0, 10), MouseButton::Left, Some(DragDropEntity::Slot(slot(2, WidgetSide::Input, 0))));
    ed.pointer_moved(pt(0, 60));
    let commands = release_into(&mut ed, &mut model, pt(0, 60), Some(slot(2, WidgetSide::Input, 1)));
    let moved = Edge { output_node: 1, output_slot: 0, input_node: 2, input_slot: 1 };
    assert_eq!(commands, vec![GraphCommand::Connect(moved), GraphCommand::Disconnect(a_to_b())]);
    assert_eq!(model.edges, vec![moved]);
    assert_eq!(ed.edges.len(), 1);
    assert_eq!(ed.edges[0].edge, moved);
    assert_eq!(ed.edges[0].input_point, pt(0, 60));
}

fn drag_node_by(edges: &[Edge], expected_lines: usize) {
    let mut ed = NodeContainerState::new();
    let file = vec![
        Location { node_id: 1, point: pt(0, 0) },
        Location { node_id: 2, point: pt(400, 0) },
        Location { node_id: 3, point: pt(400, 300) },
    ];
    ed.populate_workspace(&file, &vec![info(1, 1, 3), info(2, 1, 1), info(3, 1, 1)], &edges.to_vec());
    assert_eq!(ed.edges.len(), expected_lines);
    ed.press(pt(50, 50), MouseButton::Left, Some(DragDropEntity::Node(1)));
    ed.pointer_moved(pt(80, 90));
    ed.release(pt(80, 90), None);
    assert_eq!(ed.locations[0], Location { node_id: 1, point: pt(30, 40) });
    assert_eq!(ed.nodes[0].position, pt(30, 40));
    for line in &ed.edges {
        if line.edge.output_node == 1 {
            assert_eq!(line.output_point, position_edge(WidgetSide::Output, line.edge.output_slot, pt(30, 40)));
        }
        if line.edge.input_node == 1 {
            assert_eq!(line.input_point, position_edge(WidgetSide::Input, line.edge.input_slot, pt(30, 40)));
        }
        if line.edge.input_node == 2 {
            assert_eq!(line.input_point, position_edge(WidgetSide::Input, line.edge.input_slot, pt(400, 0)));
        }
    }
    assert_eq!(ed.edges.len(), expected_lines);
}

#[test]
fn drag_node_without_edges() {
    drag_node_by(&[], 0);
}

#[test]
fn drag_node_with_one_edge() {
    drag_node_by(&[Edge { output_node: 1, output_slot: 0, input_node: 2, input_slot: 0 }], 1);
}

#[test]
fn drag_node_with_three_edges() {
    drag_node_by(
        &[
            Edge { output_node: 1, output_slot: 0, input_node: 2, input_slot: 0 },
            Edge { output_node: 1, output_slot: 1, input_node: 3, input_slot: 0 },
            Edge { output_node: 2, output_slot: 0, input_node: 1, input_slot: 0 },
        ],
        3,
    );
}

#[test]
fn small_motion_is_a_click() {
    let mut ed = two_nodes(&[]);
    ed.press(pt(50, 50), MouseButton::Left, Some(DragDropEntity::Node(1)));
    ed.pointer_moved(pt(56, 58));
    assert!(!ed.dragging);
    assert_eq!(ed.nodes[0].position, pt(0, 0));
    ed.release(pt(56, 58), None);
    assert_eq!(ed.selected, Some(1));
    assert_eq!(ed.locations[0].point, pt(0, 0));
}

#[test]
fn click_selects_and_switches_selection() {
    let mut ed = two_nodes(&[]);
    ed.press(pt(50, 50), MouseButton::Left, Some(DragDropEntity::Node(1)));
    ed.release(pt(50, 50), None);
    assert_eq!(ed.selected, Some(1));
    ed.press(pt(450, 50), MouseButton::Left, Some(DragDropEntity::Node(2)));
    ed.release(pt(450, 50), None);
    assert_eq!(ed.selected, Some(2));
}

#[test]
fn click_on_canvas_deselects() {
    let mut ed = two_nodes(&[]);
    ed.press(pt(50, 50), MouseButton::Left, Some(DragDropEntity::Node(1)));
    ed.release(pt(50, 50), None);
    assert_eq!(ed.selected, Some(1));
    ed.press(pt(1000, 1000), MouseButton::Left, None);
    ed.release(pt(1000, 1000), None);
    assert_eq!(ed.selected, None);
}

#[test]
fn real_drag_keeps_selection() {
    let mut ed = two_nodes(&[]);
    ed.press(pt(450, 50), MouseButton::Left, Some(DragDropEntity::Node(2)));
    ed.release(pt(450, 50), None);
    ed.press(pt(50, 50), MouseButton::Left, Some(DragDropEntity::Node(1)));
    ed.pointer_moved(pt(150, 50));
    ed.release(pt(150, 50), None);
    assert_eq!(ed.selected, Some(2));
    assert_eq!(ed.locations[0].point, pt(100, 0));
}

#[test]
fn delete_selected_node() {
    let mut ed = two_nodes(&[a_to_b()]);
    ed.press(pt(50, 50), MouseButton::Left, Some(DragDropEntity::Node(1)));
    ed.release(pt(50, 50), None);
    assert_eq!(ed.delete_selected(), Some(1));
    assert_eq!(ed.selected, None);
    assert_eq!(ed.nodes.len(), 1);
    assert_eq!(ed.nodes[0].node_id, 2);
    assert_eq!(ed.locations, vec![Location { node_id: 2, point: pt(400, 0) }]);
    assert!(ed.edges.is_empty());
    assert_eq!(ed.delete_selected(), None);
}

#[test]
fn delete_other_node_keeps_selection() {
    let mut ed = two_nodes(&[a_to_b()]);
    ed.press(pt(50, 50), MouseButton::Left, Some(DragDropEntity::Node(1)));
    ed.release(pt(50, 50), None);
    assert!(ed.delete_node(2));
    assert_eq!(ed.selected, Some(1));
    assert!(ed.edges.is_empty());
    assert!(!ed.delete_node(2));
}

#[test]
fn added_node_follows_pointer_until_release() {
    let mut ed = NodeContainerState::new();
    assert_eq!(ed.add_node(info(7, 2, 1)), Some(vec![]));
    assert!(ed.add_node(info(7, 0, 0)).is_none());
    assert_eq!(ed.nodes.len(), 1);
    assert_eq!(ed.locations, vec![Location { node_id: 7, point: pt(0, 0) }]);
    assert_eq!(ed.dragged_entity, Some(DragDropEntity::Node(7)));
    ed.pointer_moved(pt(300, 200));
    assert_eq!(ed.nodes[0].position, pt(200, 100));
    ed.release(pt(300, 200), None);
    assert_eq!(ed.locations, vec![Location { node_id: 7, point: pt(200, 100) }]);
    assert_eq!(ed.dragged_entity, None);
    assert_eq!(ed.slot_visuals(7).len(), 3);
}

#[test]
fn slot_squares_follow_node() {
    let mut ed = NodeContainerState::new();
    ed.add_node(info(3, 2, 1));
    ed.pointer_moved(pt(300, 200));
    let slots = ed.slot_visuals(3);
    assert_eq!(slots.len(), 3);
    assert_eq!(slots[0].slot, slot(3, WidgetSide::Input, 0));
    assert_eq!(slots[0].margin, pt(185, 100));
    assert_eq!(slots[1].margin, pt(185, 145));
    assert_eq!(slots[2].slot, slot(3, WidgetSide::Output, 0));
    assert_eq!(slots[2].margin, pt(385, 100));
    assert!(ed.slot_visuals(4).is_empty());
}

#[test]
fn resync_twice_is_resync_once() {
    let mut ed = two_nodes(&[]);
    let s = slot(2, WidgetSide::Input, 0);
    let model_edges = vec![a_to_b(), a_to_b()];
    ed.resync_slot_edges(s, &model_edges);
    let once = ed.edges.clone();
    assert_eq!(once.len(), 1);
    ed.resync_slot_edges(s, &model_edges);
    assert_eq!(ed.edges, once);
}

#[test]
fn resync_skips_edges_of_other_slots_and_unknown_nodes() {
    let mut ed = two_nodes(&[]);
    let s = slot(2, WidgetSide::Input, 0);
    let elsewhere = Edge { output_node: 1, output_slot: 0, input_node: 2, input_slot: 5 };
    let unknown = Edge { output_node: 9, output_slot: 0, input_node: 2, input_slot: 0 };
    ed.resync_slot_edges(s, &vec![elsewhere, unknown, a_to_b()]);
    assert_eq!(ed.edges.len(), 1);
    assert_eq!(ed.edges[0].edge, a_to_b());
}

#[test]
fn save_and_load_round_trip() {
    // A cycle of three nodes with two edges between the same pair on different slots.
    let infos = vec![info(1, 2, 2), info(2, 2, 2), info(3, 2, 2)];
    let edges = vec![
        Edge { output_node: 1, output_slot: 0, input_node: 2, input_slot: 0 },
        Edge { output_node: 1, output_slot: 1, input_node: 2, input_slot: 1 },
        Edge { output_node: 2, output_slot: 0, input_node: 3, input_slot: 0 },
        Edge { output_node: 3, output_slot: 0, input_node: 1, input_slot: 0 },
    ];
    let mut ed = NodeContainerState::new();
    let file = vec![
        Location { node_id: 1, point: pt(0, 0) },
        Location { node_id: 2, point: pt(500, -20) },
        Location { node_id: 3, point: pt(250, 400) },
    ];
    ed.populate_workspace(&file, &infos, &edges);
    ed.press(pt(510, 0), MouseButton::Left, Some(DragDropEntity::Node(2)));
    ed.pointer_moved(pt(610, 30));
    ed.release(pt(610, 30), None);
    let saved = ed.snapshot();
    let mut loaded = NodeContainerState::new();
    loaded.populate_workspace(&saved, &infos, &edges);
    assert_eq!(loaded.locations, ed.locations);
    assert_eq!(loaded.nodes, ed.nodes);
    assert_eq!(loaded.edges, ed.edges);
    assert_eq!(loaded.edges.len(), 4);
    assert_eq!(loaded.locations[1].point, pt(600, 10));
}

#[test]
fn round_trip_of_empty_and_single_node() {
    let mut empty = NodeContainerState::new();
    empty.populate_workspace(&vec![], &vec![], &vec![]);
    let mut back = NodeContainerState::new();
    back.populate_workspace(&empty.snapshot(), &vec![], &vec![]);
    assert!(back.locations.is_empty() && back.nodes.is_empty() && back.edges.is_empty());

    let mut one = NodeContainerState::new();
    one.populate_workspace(&vec![Location { node_id: 4, point: pt(8, 9) }], &vec![info(4, 1, 1)], &vec![]);
    let mut back = NodeContainerState::new();
    back.populate_workspace(&one.snapshot(), &vec![info(4, 1, 1)], &vec![]);
    assert_eq!(back.locations, vec![Location { node_id: 4, point: pt(8, 9) }]);
    assert!(back.edges.is_empty());
}

#[test]
fn load_places_nodes_without_location_at_origin() {
    let mut ed = NodeContainerState::new();
    let file = vec![
        Location { node_id: 5, point: raw(COORD_LIMIT + 10, -COORD_LIMIT - 10) },
        Location { node_id: 8, point: pt(1, 1) },
    ];
    ed.populate_workspace(&file, &vec![info(5, 0, 0), info(6, 0, 0), info(5, 1, 1)], &vec![]);
    assert_eq!(
        ed.locations,
        vec![
            Location { node_id: 5, point: raw(COORD_LIMIT, -COORD_LIMIT) },
            Location { node_id: 6, point: pt(0, 0) },
        ]
    );
    assert_eq!(ed.nodes.len(), 2);
}

#[test]
fn right_click_opens_and_closes_menu() {
    let mut ed = two_nodes(&[]);
    ed.press(pt(50, 50), MouseButton::Right, Some(DragDropEntity::Node(2)));
    assert_eq!(ed.menu_node, Some(2));
    assert_eq!(ed.dragged_entity, None);
    ed.press(pt(50, 50), MouseButton::Right, None);
    assert_eq!(ed.menu_node, None);
    ed.press(pt(50, 50), MouseButton::Right, Some(DragDropEntity::Node(9)));
    assert_eq!(ed.menu_node, None);
}

#[test]
fn press_on_missing_slot_grabs_nothing() {
    let mut ed = two_nodes(&[]);
    ed.press(pt(190, 10), MouseButton::Left, Some(DragDropEntity::Slot(slot(1, WidgetSide::Output, 3))));
    assert_eq!(ed.dragged_entity, None);
    ed.press(pt(190, 10), MouseButton::Left, Some(DragDropEntity::Node(42)));
    assert_eq!(ed.dragged_entity, None);
}

#[test]
fn drag_far_away_is_clamped() {
    let mut ed = two_nodes(&[]);
    ed.press(raw(-COORD_LIMIT, 0), MouseButton::Left, Some(DragDropEntity::Node(2)));
    ed.pointer_moved(raw(COORD_LIMIT, 0));
    ed.release(raw(COORD_LIMIT, 0), None);
    assert_eq!(ed.locations[1].point, raw(COORD_LIMIT, 0));
}

#[test]
fn delete_key_asks_model_to_remove_selected_node() {
    let mut ed = two_nodes(&[a_to_b()]);
    assert!(ed.handle_action(Action::Delete).is_empty());
    ed.handle_action(Action::Press(pt(450, 50), MouseButton::Left, Some(DragDropEntity::Node(2))));
    ed.handle_action(Action::Release(pt(450, 50), None));
    assert_eq!(ed.handle_action(Action::Delete), vec![GraphCommand::RemoveNode(2)]);
    assert_eq!(ed.nodes.len(), 1);
    assert!(ed.edges.is_empty());
    assert_eq!(ed.selected, None);
}

#[test]
fn actions_drive_a_connection() {
    let mut ed = two_nodes(&[]);
    let target = slot(2, WidgetSide::Input, 0);
    ed.handle_action(Action::Press(pt(190, 10), MouseButton::Left, Some(DragDropEntity::Slot(slot(1, WidgetSide::Output, 0)))));
    ed.handle_action(Action::Move(pt(400, 15)));
    let commands = ed.handle_action(Action::Release(pt(400, 15), Some(target)));
    assert_eq!(commands, vec![GraphCommand::Connect(a_to_b())]);
    assert!(ed.settle_drop(&vec![true]).is_empty());
    ed.resync_slot_edges(target, &vec![a_to_b()]);
    assert_eq!(ed.edges.len(), 1);
    assert_eq!(ed.edges[0].output_point, pt(200, 15));
    assert_eq!(ed.edges[0].input_point, pt(400, 15));
}

#[test]
fn press_while_carrying_new_node_places_it() {
    let mut ed = two_nodes(&[]);
    assert!(ed.add_node(info(9, 1, 1)).is_some());
    ed.pointer_moved(pt(700, 500));
    ed.press(pt(700, 500), MouseButton::Left, Some(DragDropEntity::Node(1)));
    assert_eq!(ed.dragged_entity, Some(DragDropEntity::Node(9)));
    ed.release(pt(700, 500), None);
    assert_eq!(ed.locations[2], Location { node_id: 9, point: pt(600, 400) });
    assert_eq!(ed.locations[0].point, pt(0, 0));
}

#[test]
fn node_added_during_node_drag_ends_that_drag() {
    let mut ed = two_nodes(&[]);
    ed.press(pt(50, 50), MouseButton::Left, Some(DragDropEntity::Node(1)));
    ed.pointer_moved(pt(90, 50));
    assert_eq!(ed.add_node(info(9, 0, 0)), Some(vec![]));
    assert_eq!(ed.dragged_entity, Some(DragDropEntity::Node(9)));
    assert_eq!(ed.locations[0].point, pt(40, 0));
    assert_eq!(ed.locations[2], Location { node_id: 9, point: pt(0, 0) });
}

#[test]
fn node_added_during_edge_drag_drops_the_edge() {
    let mut ed = two_nodes(&[a_to_b()]);
    ed.press(pt(390, 10), MouseButton::Left, Some(DragDropEntity::Slot(slot(2, WidgetSide::Input, 0))));
    ed.pointer_moved(pt(500, 100));
    assert_eq!(ed.add_node(info(9, 0, 0)), Some(vec![GraphCommand::Disconnect(a_to_b())]));
    assert_eq!(ed.dragged_entity, Some(DragDropEntity::Node(9)));
    assert!(ed.dragged_edges.is_empty());
    assert!(ed.edges.is_empty());
}

#[test]
fn pressing_a_slot_grabs_its_loose_edge_at_once() {
    let mut ed = two_nodes(&[]);
    ed.press(pt(190, 10), MouseButton::Left, Some(DragDropEntity::Slot(slot(1, WidgetSide::Output, 0))));
    assert_eq!(ed.dragged_entity, Some(DragDropEntity::Edge));
    assert_eq!(ed.dragged_edges.len(), 1);
    assert_eq!(ed.dragged_edges[0].anchor_point, pt(200, 15));
    assert_eq!(ed.dragged_edges[0].free_point, pt(190, 10));
    let commands = ed.release(pt(190, 10), Some(slot(1, WidgetSide::Output, 0)));
    assert!(commands.is_empty());
    assert!(ed.dragged_edges.is_empty() && ed.edges.is_empty());
}

#[test]
fn refused_move_puts_the_edge_back() {
    let mut ed = NodeContainerState::new();
    ed.populate_workspace(&vec![], &vec![info(1, 0, 1), info(2, 2, 0)], &vec![a_to_b()]);
    let before = ed.edges.clone();
    let mut model = Model::new(vec![a_to_b()]);
    model.refuse = true;
    ed.press(pt(0, 10), MouseButton::Left, Some(DragDropEntity::Slot(slot(2, WidgetSide::Input, 0))));
    ed.pointer_moved(pt(0, 60));
    assert!(ed.edges.is_empty());
    let target = slot(2, WidgetSide::Input, 1);
    let commands = release_into(&mut ed, &mut model, pt(0, 60), Some(target));
    let moved = Edge { output_node: 1, output_slot: 0, input_node: 2, input_slot: 1 };
    assert_eq!(commands, vec![GraphCommand::Connect(moved)]);
    assert_eq!(model.edges, vec![a_to_b()]);
    assert_eq!(ed.edges, before);
}

#[test]
fn same_side_drop_restores_pulled_off_edges() {
    let mut ed = two_nodes(&[a_to_b()]);
    let before = ed.edges.clone();
    ed.press(pt(390, 10), MouseButton::Left, Some(DragDropEntity::Slot(slot(2, WidgetSide::Input, 0))));
    ed.pointer_moved(pt(100, 10));
    let commands = ed.release(pt(100, 10), Some(slot(1, WidgetSide::Output, 0)));
    assert!(commands.is_empty());
    assert!(ed.pending_drops.is_empty());
    assert_eq!(ed.edges, before);
}

#[test]
fn graph_inputs_and_outputs_lose_a_side() {
    assert_eq!(node_info(3, NodeKind::GraphInput, 2, 1), info(3, 0, 1));
    assert_eq!(node_info(3, NodeKind::GraphOutput, 2, 1), info(3, 2, 0));
    assert_eq!(node_info(3, NodeKind::Operation, 2, 1), info(3, 2, 1));
}
