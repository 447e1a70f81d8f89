use prismata::file_dialog::{file_flow_step, DialogState, FileFlowInput};
use prismata::math::IVec3;
use prismata::voxel::Coords;
use prismata::tools::{
    floor_on_click, FloorBrushState, FloorClickAction, LastUsedColors,
    brush_should_be_created, brush_should_be_destroyed, is_active, is_in_use,
    set_tool_on_input, started_being_used, stopped_being_used, tool_just_changed, ActiveTool,
    Tool, ToolInUse, TOOL_COUNT,
};

#[test]
fn tools_in_panel_order() {
    assert_eq!(TOOL_COUNT, 9);
    assert_eq!(Tool::at(0), Tool::Sphere);
    assert_eq!(Tool::at(4), Tool::Eraser);
    assert_eq!(Tool::at(8), Tool::Prism);
    assert_eq!(Tool::default(), Tool::NoTool);
}

#[test]
fn tool_names_and_descriptions() {
    assert_eq!(Tool::NoTool.to_string(), "None");
    assert_eq!(Tool::ColorPicker.to_string(), "Color Picker");
    assert_eq!(Tool::Eraser.description(), "Erase your mistakes.");
    assert_eq!(Tool::NoTool.description(), "");
}

#[test]
fn selecting_by_index_toggles() {
    let mut active = ActiveTool::default();
    assert!(active.is_none());
    active.set_by_index(1);
    assert!(active.is(Tool::Cube));
    active.set_by_index(1);
    assert!(active.is_none());
    active.set_by_index(100);
    assert!(active.is(Tool::Prism));
    active.set_by_index(2);
    assert!(active.is(Tool::Floor));
}

#[test]
fn disabling_tools() {
    let mut active = ActiveTool::default();
    active.set_by_index(0);
    active.disable_if_active(Tool::Cube);
    assert!(active.is(Tool::Sphere));
    active.disable_if_active(Tool::Sphere);
    assert!(active.is_none());
    active.set_by_index(3);
    active.disable();
    assert!(active.is_none());
}

#[test]
fn remembering_the_previous_tool() {
    let mut active = ActiveTool::default();
    active.set_by_index(5);
    assert!(active.tool_just_changed());
    assert!(tool_just_changed(&active));
    active.update_previous();
    assert!(!active.tool_just_changed());
    assert!(active.was(Tool::Tint));
    assert!(is_active(&active, Tool::Tint));
}

#[test]
fn number_keys_select_tools() {
    let mut active = ActiveTool::default();
    let mut keys = [false; 10];
    keys[2] = true;
    set_tool_on_input(&mut active, keys);
    assert!(active.is(Tool::Floor));
    // The `0` key selects the last tool.
    let mut keys = [false; 10];
    keys[9] = true;
    set_tool_on_input(&mut active, keys);
    assert!(active.is(Tool::Prism));
    // Two keys in one frame act in key order: first the sphere, then the prism again.
    let mut keys = [false; 10];
    keys[0] = true;
    keys[8] = true;
    set_tool_on_input(&mut active, keys);
    assert!(active.is(Tool::Prism));
    // Pressing the key of the active tool deselects it.
    let mut keys = [false; 10];
    keys[8] = true;
    set_tool_on_input(&mut active, keys);
    assert!(active.is_none());
    set_tool_on_input(&mut active, [false; 10]);
    assert!(active.is_none());
}

#[test]
fn tool_use_edges() {
    let mut active = ActiveTool::default();
    active.set_by_index(0);
    active.update_previous();
    let mut in_use = ToolInUse::default();
    in_use.set(true);
    assert!(in_use.in_use());
    assert!(started_being_used(&in_use, &active, Tool::Sphere));
    assert!(!stopped_being_used(&in_use, &active, Tool::Sphere));
    assert!(is_in_use(&in_use, &active, Tool::Sphere, false));
    in_use.set(true);
    assert!(!started_being_used(&in_use, &active, Tool::Sphere));
    assert!(!is_in_use(&in_use, &active, Tool::Sphere, false));
    assert!(is_in_use(&in_use, &active, Tool::Sphere, true));
    in_use.set(false);
    assert!(stopped_being_used(&in_use, &active, Tool::Sphere));
    assert!(!started_being_used(&in_use, &active, Tool::Sphere));
}

#[test]
fn switching_tools_while_held() {
    let mut active = ActiveTool::default();
    active.set_by_index(0);
    active.update_previous();
    let mut in_use = ToolInUse::default();
    in_use.set(true);
    in_use.set(true);
    active.set_by_index(1);
    assert!(started_being_used(&in_use, &active, Tool::Cube));
    assert!(stopped_being_used(&in_use, &active, Tool::Sphere));
}

#[test]
fn brushes_follow_the_active_tool() {
    let mut active = ActiveTool::default();
    active.set_by_index(4);
    assert!(brush_should_be_created(false, &active, Tool::Eraser));
    assert!(!brush_should_be_created(true, &active, Tool::Eraser));
    assert!(!brush_should_be_destroyed(true, &active, Tool::Eraser));
    assert!(brush_should_be_destroyed(true, &active, Tool::Sphere));
    assert!(!brush_should_be_destroyed(false, &active, Tool::Sphere));
}

#[test]
fn file_dialog_flow() {
    let idle = FileFlowInput { dialog_idle: true, requests: 2, dialog: DialogState::Open, transfer_finished: false };
    let a = file_flow_step(idle);
    assert!(a.consume_requests && a.open_dialog && !a.start_transfer && !a.report_cancelled);
    let a = file_flow_step(FileFlowInput { requests: 0, ..idle });
    assert!(a.consume_requests && !a.open_dialog);
    let chosen = FileFlowInput { dialog_idle: false, requests: 5, dialog: DialogState::Chosen, transfer_finished: true };
    let a = file_flow_step(chosen);
    assert!(!a.consume_requests && !a.open_dialog && a.start_transfer && a.finish_transfer);
    let a = file_flow_step(FileFlowInput { dialog: DialogState::Cancelled, ..chosen });
    assert!(a.report_cancelled && !a.start_transfer && !a.finish_transfer);
    let a = file_flow_step(FileFlowInput { dialog: DialogState::Open, ..chosen });
    assert!(!a.report_cancelled && !a.start_transfer && a.finish_transfer);
}

#[test]
fn floor_clicks_set_the_edge_then_lay_the_floor() {
    let p1 = Coords(IVec3 { x: 1, y: 0, z: 2 });
    let p2 = Coords(IVec3 { x: 5, y: 0, z: 2 });
    let (s, a) = floor_on_click(FloorBrushState::WaitingForPoint1, None);
    assert_eq!((s, a), (FloorBrushState::WaitingForPoint1, FloorClickAction::Nothing));
    let (s, a) = floor_on_click(s, Some(p1));
    assert_eq!((s, a), (FloorBrushState::Point1 { point1: p1 }, FloorClickAction::Nothing));
    let (s2, a) = floor_on_click(s, None);
    assert_eq!((s2, a), (s, FloorClickAction::Nothing));
    let (s, a) = floor_on_click(s, Some(p2));
    assert_eq!(s, FloorBrushState::Ready { point1: p1, point2: p2 });
    assert_eq!(a, FloorClickAction::ResetWidth);
    let (s, a) = floor_on_click(s, None);
    assert_eq!(s, FloorBrushState::WaitingForPoint1);
    assert_eq!(a, FloorClickAction::LayFloor { point1: p1, point2: p2 });
}

#[test]
fn last_used_colors_move_the_new_colour_first() {
    let mut colors = LastUsedColors([[0, 0, 0, 255]; 16]);
    for i in 0..16u8 {
        colors.0[i as usize] = [i, 0, 0, 255];
    }
    colors.push([0, 0, 0, 255]);
    assert_eq!(colors.0[0], [0, 0, 0, 255]);
    assert_eq!(colors.0[15], [15, 0, 0, 255]);
    colors.push([200, 1, 2, 3]);
    assert_eq!(colors.0[0], [200, 1, 2, 3]);
    assert_eq!(colors.0[1], [0, 0, 0, 255]);
    assert_eq!(colors.0[15], [14, 0, 0, 255]);
    colors.push([200, 1, 2, 3]);
    assert_eq!(colors.0[1], [0, 0, 0, 255]);
}
