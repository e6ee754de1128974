//! What the player's buttons and keys do to the game's state.

use vstd::prelude::*;
use crate::road_drawing::{EntityId, RoadDrawingState};
use crate::net_ripping::NetRippingState;
use crate::sim::SimulationState;

verus! {

/// The tool in the player's hand.
#[derive(Clone, Copy, Debug, PartialEq, Eq, Structural)]
pub enum Tool {
    LineDrawing,
    NetRipping,
}

impl Default for Tool {
    fn default() -> (t: Self)
        ensures
            t == Tool::LineDrawing,
    {
        Tool::LineDrawing
    }
}

/// The pixies that have reached their destination in the current run.
#[derive(Clone, Copy, Debug, PartialEq, Eq, Structural)]
pub struct PixieCount(pub u32);

/// The road being drawn is the same in all but whether it is being drawn,
/// its layer and its shown segments.
pub open spec fn same_road_but_drawing(o: RoadDrawingState, f: RoadDrawingState) -> bool {
    &&& f.start == o.start
    &&& f.end == o.end
    &&& f.valid == o.valid
    &&& f.stop == o.stop
    &&& f.adds@ == o.adds@
    &&& f.axis_preference == o.axis_preference
    &&& f.prev_layer == o.prev_layer
}

/// Stops drawing the current road and drops its planned route.
pub fn cancel_drawing(road: &mut RoadDrawingState)
    ensures
        !final(road).drawing,
        final(road).segments@.len() == 0,
        final(road).start == old(road).start,
        final(road).end == old(road).end,
        final(road).valid == old(road).valid,
        final(road).stop == old(road).stop,
        final(road).adds@ == old(road).adds@,
        final(road).axis_preference == old(road).axis_preference,
        final(road).layer == old(road).layer,
        final(road).prev_layer == old(road).prev_layer,
{
    road.drawing = false;
    road.segments = Vec::new();
}

/// The keys held down when the keyboard changed.
#[derive(Clone, Copy, Debug)]
pub struct KeysPressed {
    pub digit1: bool,
    pub digit2: bool,
    pub digit3: bool,
    pub escape: bool,
    pub key_r: bool,
}

/// Which tool button to show as selected after a key press.
#[derive(Clone, Copy, Debug, PartialEq, Eq, Structural)]
pub enum ToolButtonSelection {
    Unchanged,
    Layer(u32),
    NetRipping,
}

/// The layer chosen by the digit keys held down (the lowest wins), if any.
pub open spec fn key_layer(keys: KeysPressed) -> Option<u32> {
    if keys.digit1 {
        Some(1)
    } else if keys.digit2 {
        Some(2)
    } else if keys.digit3 {
        Some(3)
    } else {
        None
    }
}

/// A change of the keyboard: 1, 2 and 3 pick a layer the level has (and the
/// drawing tool); Escape puts down the ripping tool, or else cancels the road
/// being drawn; R picks the ripping tool. Gives the tool now in hand and the
/// tool button to show as selected.
pub fn keyboard(keys: KeysPressed, level_layers: u32, tool: Tool, road: &mut RoadDrawingState) -> (r: (
    Tool,
    ToolButtonSelection,
))
    ensures
        match key_layer(keys) {
            Some(l) => if l <= level_layers {
                &&& r == (Tool::LineDrawing, ToolButtonSelection::Layer(l))
                &&& final(road).layer == l
                &&& final(road).drawing == old(road).drawing
                &&& final(road).segments@ == old(road).segments@
            } else {
                &&& r == (tool, ToolButtonSelection::Unchanged)
                &&& final(road).layer == old(road).layer
                &&& final(road).drawing == old(road).drawing
                &&& final(road).segments@ == old(road).segments@
            },
            None => if keys.escape {
                &&& r == (Tool::LineDrawing, ToolButtonSelection::Unchanged)
                &&& final(road).layer == old(road).layer
                &&& (tool == Tool::NetRipping ==> final(road).drawing == old(road).drawing
                    && final(road).segments@ == old(road).segments@)
                &&& (tool == Tool::LineDrawing ==> !final(road).drawing && final(road).segments@.len()
                    == 0)
            } else if keys.key_r {
                &&& r == (Tool::NetRipping, ToolButtonSelection::NetRipping)
                &&& final(road).layer == old(road).layer
                &&& final(road).drawing == old(road).drawing
                &&& final(road).segments@ == old(road).segments@
            } else {
                &&& r == (tool, ToolButtonSelection::Unchanged)
                &&& final(road).layer == old(road).layer
                &&& final(road).drawing == old(road).drawing
                &&& final(road).segments@ == old(road).segments@
            },
        },
        same_road_but_drawing(*old(road), *final(road)),
{
    if keys.digit1 || keys.digit2 || keys.digit3 {
        let layer: u32 = if keys.digit1 {
            1
        } else if keys.digit2 {
            2
        } else {
            3
        };
        if layer <= level_layers {
            road.layer = layer;
            return (Tool::LineDrawing, ToolButtonSelection::Layer(layer));
        }
        (tool, ToolButtonSelection::Unchanged)
    } else if keys.escape {
        if tool == Tool::NetRipping {
            (Tool::LineDrawing, ToolButtonSelection::Unchanged)
        } else {
            cancel_drawing(road);
            (Tool::LineDrawing, ToolButtonSelection::Unchanged)
        }
    } else if keys.key_r {
        (Tool::NetRipping, ToolButtonSelection::NetRipping)
    } else {
        (tool, ToolButtonSelection::Unchanged)
    }
}

/// A press of a tool button: a layer button picks its layer and the drawing
/// tool; the ripping button picks the ripping tool. Gives the tool in hand.
pub fn tool_button(
    road: &mut RoadDrawingState,
    tool: Tool,
    layer_pressed: Option<u32>,
    ripping_pressed: bool,
) -> (r: Tool)
    ensures
        r == (if ripping_pressed {
            Tool::NetRipping
        } else if layer_pressed is Some {
            Tool::LineDrawing
        } else {
            tool
        }),
        final(road).layer == (match layer_pressed {
            Some(l) => l,
            None => old(road).layer,
        }),
        final(road).drawing == old(road).drawing,
        final(road).segments@ == old(road).segments@,
        same_road_but_drawing(*old(road), *final(road)),
{
    let mut t = tool;
    if let Some(l) = layer_pressed {
        road.layer = l;
        t = Tool::LineDrawing;
    }
    if ripping_pressed {
        t = Tool::NetRipping;
    }
    t
}

/// When the tool in hand changes: picking up the drawing tool forgets the net
/// picked for ripping; picking up the ripping tool cancels the road being
/// drawn.
pub fn drawing_mode_change(tool: Tool, road: &mut RoadDrawingState, ripping: &mut NetRippingState)
    ensures
        tool == Tool::LineDrawing ==> final(ripping).picked() == Set::<EntityId>::empty() && final(ripping).nodes@.len()
            == 0 && final(ripping).segments@.len() == 0 && final(road).drawing == old(road).drawing
            && final(road).segments@ == old(road).segments@,
        tool == Tool::NetRipping ==> !final(road).drawing && final(road).segments@.len() == 0
            && final(ripping).picked() == old(ripping).picked() && final(ripping).nodes@ == old(
            ripping,
        ).nodes@ && final(ripping).segments@ == old(ripping).segments@,
        final(road).layer == old(road).layer,
        same_road_but_drawing(*old(road), *final(road)),
{
    match tool {
        Tool::LineDrawing => {
            ripping.reset();
        },
        Tool::NetRipping => {
            cancel_drawing(road);
        },
    }
}

/// What pressing the "release the pixies" button does.
#[derive(Clone, Copy, Debug, PartialEq, Eq, Structural)]
pub enum PixieButtonAction {
    /// Nothing, while the score dialog is shown.
    Ignored,
    /// The running simulation is stopped: its emitters and pixies are removed.
    Cancel,
    /// Some terminus is not connected: the flagged termini are shown.
    ShowProblems,
    /// The pixies are released: an emitter is made for each path.
    Release,
}

/// A press of the "release the pixies" button, given whether every requested
/// path was found.
pub fn pixie_button(
    sim_state: &mut SimulationState,
    road: &mut RoadDrawingState,
    pixie_count: &mut PixieCount,
    paths_valid: bool,
) -> (r: PixieButtonAction)
    ensures
        *old(sim_state) == SimulationState::Finished ==> r == PixieButtonAction::Ignored
            && *final(sim_state) == *old(sim_state) && final(pixie_count).0 == old(pixie_count).0
            && final(road).drawing == old(road).drawing && final(road).segments@ == old(road).segments@,
        *old(sim_state) == SimulationState::Running ==> r == PixieButtonAction::Cancel
            && *final(sim_state) == SimulationState::NotStarted && final(pixie_count).0 == 0
            && !final(road).drawing && final(road).segments@.len() == 0,
        *old(sim_state) == SimulationState::NotStarted && !paths_valid ==> r
            == PixieButtonAction::ShowProblems && *final(sim_state) == *old(sim_state)
            && final(pixie_count).0 == old(pixie_count).0 && !final(road).drawing
            && final(road).segments@.len() == 0,
        *old(sim_state) == SimulationState::NotStarted && paths_valid ==> r
            == PixieButtonAction::Release && *final(sim_state) == SimulationState::Running
            && final(pixie_count).0 == 0 && !final(road).drawing && final(road).segments@.len() == 0,
        final(road).layer == old(road).layer,
        same_road_but_drawing(*old(road), *final(road)),
{
    // do nothing while score dialog is shown
    if *sim_state == SimulationState::Finished {
        return PixieButtonAction::Ignored;
    }
    cancel_drawing(road);
    if *sim_state == SimulationState::Running {
        // If the sim is ongoing, the button is a cancel button.
        *sim_state = SimulationState::NotStarted;
        pixie_count.0 = 0;
        PixieButtonAction::Cancel
    } else if !paths_valid {
        PixieButtonAction::ShowProblems
    } else {
        *sim_state = SimulationState::Running;
        pixie_count.0 = 0;
        PixieButtonAction::Release
    }
}

/// A press of the reset button: unless the score dialog is shown, everything
/// the player built and released is removed (`true`; the road graph is then
/// rebuilt by [`crate::network::reset_graph`]).
pub fn reset_button(
    sim_state: &mut SimulationState,
    road: &mut RoadDrawingState,
    pixie_count: &mut PixieCount,
) -> (r: bool)
    ensures
        r == (*old(sim_state) != SimulationState::Finished),
        r ==> *final(sim_state) == SimulationState::NotStarted && final(pixie_count).0 == 0
            && !final(road).drawing && final(road).segments@.len() == 0,
        !r ==> *final(sim_state) == *old(sim_state) && final(pixie_count).0 == old(pixie_count).0
            && final(road).drawing == old(road).drawing && final(road).segments@ == old(road).segments@,
        final(road).layer == old(road).layer,
        same_road_but_drawing(*old(road), *final(road)),
{
    // do nothing while score dialog is shown
    if *sim_state == SimulationState::Finished {
        return false;
    }
    cancel_drawing(road);
    *sim_state = SimulationState::NotStarted;
    pixie_count.0 = 0;
    true
}

/// Dismissing the score dialog: back to a simulation that has not started,
/// with no pixies counted and no score.
pub fn dismiss_score_dialog(
    sim_state: &mut SimulationState,
    pixie_count: &mut PixieCount,
    score: &mut Option<u32>,
)
    ensures
        *final(sim_state) == SimulationState::NotStarted,
        final(pixie_count).0 == 0,
        *final(score) is None,
{
    *sim_state = SimulationState::NotStarted;
    pixie_count.0 = 0;
    *score = None;
}

} // verus!
