use pixie_wrangler::controls::{
    cancel_drawing, dismiss_score_dialog, drawing_mode_change, keyboard, pixie_button,
    reset_button, tool_button, KeysPressed, PixieButtonAction, PixieCount, Tool,
    ToolButtonSelection,
};
use pixie_wrangler::geom::Point;
use pixie_wrangler::net_ripping::NetRippingState;
use pixie_wrangler::road_drawing::RoadDrawingState;
use pixie_wrangler::sim::SimulationState;

fn keys() -> KeysPressed {
    KeysPressed { digit1: false, digit2: false, digit3: false, escape: false, key_r: false }
}

fn drawing() -> RoadDrawingState {
    let mut s = RoadDrawingState::default();
    s.drawing = true;
    s.segments = vec![(Point::new(0, 0), Point::new(10, 0))];
    s
}

#[test]
fn digits_pick_a_layer_the_level_has() {
    let mut road = drawing();
    let r = keyboard(KeysPressed { digit2: true, ..keys() }, 3, Tool::NetRipping, &mut road);
    assert_eq!(r, (Tool::LineDrawing, ToolButtonSelection::Layer(2)));
    assert_eq!(road.layer, 2);
    assert!(road.drawing);
    let r = keyboard(KeysPressed { digit3: true, ..keys() }, 2, Tool::NetRipping, &mut road);
    assert_eq!(r, (Tool::NetRipping, ToolButtonSelection::Unchanged));
    assert_eq!(road.layer, 2);
    let r = keyboard(KeysPressed { digit1: true, digit3: true, ..keys() }, 1, Tool::LineDrawing, &mut road);
    assert_eq!(r, (Tool::LineDrawing, ToolButtonSelection::Layer(1)));
    assert_eq!(road.layer, 1);
}

#[test]
fn escape_and_r() {
    let mut road = drawing();
    let r = keyboard(KeysPressed { escape: true, ..keys() }, 3, Tool::NetRipping, &mut road);
    assert_eq!(r, (Tool::LineDrawing, ToolButtonSelection::Unchanged));
    assert!(road.drawing);
    let r = keyboard(KeysPressed { escape: true, ..keys() }, 3, Tool::LineDrawing, &mut road);
    assert_eq!(r, (Tool::LineDrawing, ToolButtonSelection::Unchanged));
    assert!(!road.drawing);
    assert!(road.segments.is_empty());
    let mut road = drawing();
    let r = keyboard(KeysPressed { key_r: true, ..keys() }, 3, Tool::LineDrawing, &mut road);
    assert_eq!(r, (Tool::NetRipping, ToolButtonSelection::NetRipping));
    assert!(road.drawing);
    let r = keyboard(keys(), 3, Tool::LineDrawing, &mut road);
    assert_eq!(r, (Tool::LineDrawing, ToolButtonSelection::Unchanged));
    assert_eq!(Tool::default(), Tool::LineDrawing);
}

#[test]
fn tool_buttons() {
    let mut road = RoadDrawingState::default();
    assert_eq!(tool_button(&mut road, Tool::NetRipping, Some(3), false), Tool::LineDrawing);
    assert_eq!(road.layer, 3);
    assert_eq!(tool_button(&mut road, Tool::LineDrawing, None, true), Tool::NetRipping);
    assert_eq!(road.layer, 3);
    assert_eq!(tool_button(&mut road, Tool::NetRipping, None, false), Tool::NetRipping);
}

#[test]
fn switching_tools_drops_the_other_tool_state() {
    let mut road = drawing();
    let mut ripping = NetRippingState::new();
    ripping.entities.insert(4);
    ripping.nodes.push(7);
    drawing_mode_change(Tool::NetRipping, &mut road, &mut ripping);
    assert!(!road.drawing);
    assert!(ripping.entities.len() == 1 && ripping.entities.contains(&4));
    let mut road = drawing();
    drawing_mode_change(Tool::LineDrawing, &mut road, &mut ripping);
    assert!(road.drawing);
    assert!(ripping.entities.is_empty() && ripping.nodes.is_empty());
    let mut road = drawing();
    cancel_drawing(&mut road);
    assert!(!road.drawing && road.segments.is_empty());
}

#[test]
fn pixie_button_releases_cancels_or_complains() {
    let mut state = SimulationState::NotStarted;
    let mut road = drawing();
    let mut count = PixieCount(7);
    assert_eq!(pixie_button(&mut state, &mut road, &mut count, false), PixieButtonAction::ShowProblems);
    assert_eq!(state, SimulationState::NotStarted);
    assert_eq!(count, PixieCount(7));
    assert!(!road.drawing);
    assert_eq!(pixie_button(&mut state, &mut road, &mut count, true), PixieButtonAction::Release);
    assert_eq!(state, SimulationState::Running);
    assert_eq!(count, PixieCount(0));
    count.0 = 12;
    assert_eq!(pixie_button(&mut state, &mut road, &mut count, true), PixieButtonAction::Cancel);
    assert_eq!(state, SimulationState::NotStarted);
    assert_eq!(count, PixieCount(0));
    let mut finished = SimulationState::Finished;
    let mut road = drawing();
    count.0 = 3;
    assert_eq!(pixie_button(&mut finished, &mut road, &mut count, true), PixieButtonAction::Ignored);
    assert!(road.drawing);
    assert_eq!(count, PixieCount(3));
}

#[test]
fn reset_and_dismiss() {
    let mut state = SimulationState::Running;
    let mut road = drawing();
    let mut count = PixieCount(9);
    assert!(reset_button(&mut state, &mut road, &mut count));
    assert_eq!(state, SimulationState::NotStarted);
    assert_eq!(count, PixieCount(0));
    assert!(!road.drawing);
    let mut finished = SimulationState::Finished;
    count.0 = 4;
    assert!(!reset_button(&mut finished, &mut road, &mut count));
    assert_eq!(finished, SimulationState::Finished);
    assert_eq!(count, PixieCount(4));
    let mut score = Some(120);
    dismiss_score_dialog(&mut finished, &mut count, &mut score);
    assert_eq!(finished, SimulationState::NotStarted);
    assert_eq!(count, PixieCount(0));
    assert_eq!(score, None);
}
