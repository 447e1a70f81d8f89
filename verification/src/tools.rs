//! The editing tools: which one is active, whether it is in use, and when its brush exists.

use vstd::prelude::*;

use crate::voxel::Coords;

verus! {

/// An editing tool.
#[derive(Clone, Copy, Debug, PartialEq, Eq, Structural)]
pub enum Tool {
    NoTool,
    Sphere,
    Cube,
    Floor,
    Wall,
    Eraser,
    Tint,
    ColorPicker,
    Spawn,
    Prism,
}

/// The number of selectable tools (all but `NoTool`).
pub const TOOL_COUNT: usize = 9;

impl Default for Tool {
    fn default() -> (t: Tool)
        ensures
            t == Tool::NoTool,
    {
        Tool::NoTool
    }
}

impl Tool {
    /// The selectable tools, in the order of the tool panel and the number keys.
    pub open spec fn spec_all() -> Seq<Tool> {
        seq![
            Tool::Sphere,
            Tool::Cube,
            Tool::Floor,
            Tool::Wall,
            Tool::Eraser,
            Tool::Tint,
            Tool::ColorPicker,
            Tool::Spawn,
            Tool::Prism,
        ]
    }

    /// The selectable tool at `index` of [`Tool::spec_all`].
    pub fn at(index: usize) -> (t: Tool)
        requires
            index < TOOL_COUNT,
        ensures
            t == Tool::spec_all()[index as int],
    {
        if index == 0 {
            Tool::Sphere
        } else if index == 1 {
            Tool::Cube
        } else if index == 2 {
            Tool::Floor
        } else if index == 3 {
            Tool::Wall
        } else if index == 4 {
            Tool::Eraser
        } else if index == 5 {
            Tool::Tint
        } else if index == 6 {
            Tool::ColorPicker
        } else if index == 7 {
            Tool::Spawn
        } else {
            Tool::Prism
        }
    }

    pub open spec fn spec_description(self) -> Seq<char> {
        match self {
            Tool::NoTool => ""@,
            Tool::Sphere => "Paint with spheres."@,
            Tool::Cube => "Paint with cubes."@,
            Tool::Floor => "Create floors."@,
            Tool::Wall => "Make walls."@,
            Tool::Eraser => "Erase your mistakes."@,
            Tool::Tint => "Tint the world."@,
            Tool::ColorPicker => "Borrow colors from the world."@,
            Tool::Spawn => "Spawn objects into the world."@,
            Tool::Prism => "Reimagine reality."@,
        }
    }

    /// The one-line description shown when hovering the tool's button.
    pub fn description(&self) -> (d: &'static str)
        ensures
            d@ == self.spec_description(),
    {
        match self {
            Tool::NoTool => "",
            Tool::Sphere => "Paint with spheres.",
            Tool::Cube => "Paint with cubes.",
            Tool::Floor => "Create floors.",
            Tool::Wall => "Make walls.",
            Tool::Eraser => "Erase your mistakes.",
            Tool::Tint => "Tint the world.",
            Tool::ColorPicker => "Borrow colors from the world.",
            Tool::Spawn => "Spawn objects into the world.",
            Tool::Prism => "Reimagine reality.",
        }
    }

    pub open spec fn spec_name(self) -> Seq<char> {
        match self {
            Tool::NoTool => "None"@,
            Tool::Sphere => "Sphere"@,
            Tool::Cube => "Cube"@,
            Tool::Floor => "Floor"@,
            Tool::Wall => "Wall"@,
            Tool::Eraser => "Eraser"@,
            Tool::Tint => "Tint"@,
            Tool::ColorPicker => "Color Picker"@,
            Tool::Spawn => "Spawn"@,
            Tool::Prism => "Prism"@,
        }
    }

    /// The tool's name, as the interface shows it.
    pub fn to_string(&self) -> (s: String)
        ensures
            s@ == self.spec_name(),
    {
        let name = match self {
            Tool::NoTool => "None",
            Tool::Sphere => "Sphere",
            Tool::Cube => "Cube",
            Tool::Floor => "Floor",
            Tool::Wall => "Wall",
            Tool::Eraser => "Eraser",
            Tool::Tint => "Tint",
            Tool::ColorPicker => "Color Picker",
            Tool::Spawn => "Spawn",
            Tool::Prism => "Prism",
        };
        String::from_str(name)
    }
}

/// The tool that selecting the tool at `index` (past the end: the last tool) leaves active when
/// `current` is: that tool, or none when it is already the active one.
pub open spec fn tool_after_index(current: Tool, index: int) -> Tool {
    let new_tool = Tool::spec_all()[if index < TOOL_COUNT {
        index
    } else {
        TOOL_COUNT - 1
    }];
    if new_tool != current {
        new_tool
    } else {
        Tool::NoTool
    }
}

/// The tool that pressing the number keys (`1` to `9`, then `0`) in order leaves active: each
/// pressed key selects the tool at its position.
pub open spec fn tool_after_keys(current: Tool, pressed: Seq<bool>) -> Tool
    decreases pressed.len(),
{
    if pressed.len() == 0 {
        current
    } else {
        let before = tool_after_keys(current, pressed.drop_last());
        if pressed.last() {
            tool_after_index(before, pressed.len() - 1)
        } else {
            before
        }
    }
}

/// The active tool, and the one that was active in the previous frame.
#[derive(Clone, Copy, Debug, PartialEq, Eq, Structural)]
pub struct ActiveTool {
    tool: Tool,
    previous_tool: Tool,
}

impl Default for ActiveTool {
    fn default() -> (a: ActiveTool)
        ensures
            a.spec_tool() == Tool::NoTool,
            a.spec_previous_tool() == Tool::NoTool,
    {
        ActiveTool { tool: Tool::NoTool, previous_tool: Tool::NoTool }
    }
}

impl ActiveTool {
    pub closed spec fn spec_tool(self) -> Tool {
        self.tool
    }

    pub closed spec fn spec_previous_tool(self) -> Tool {
        self.previous_tool
    }

    pub fn is_none(&self) -> (b: bool)
        ensures
            b == (self.spec_tool() == Tool::NoTool),
    {
        self.tool == Tool::NoTool
    }

    pub fn is(&self, tool: Tool) -> (b: bool)
        ensures
            b == (self.spec_tool() == tool),
    {
        self.tool == tool
    }

    pub fn was(&self, tool: Tool) -> (b: bool)
        ensures
            b == (self.spec_previous_tool() == tool),
    {
        self.previous_tool == tool
    }

    /// Selects the tool at `index` (past the end: the last tool); selecting the active tool
    /// again deselects it.
    pub fn set_by_index(&mut self, index: usize)
        ensures
            final(self).spec_tool() == tool_after_index(old(self).spec_tool(), index as int),
            final(self).spec_previous_tool() == old(self).spec_previous_tool(),
    {
        let clamped = if index < TOOL_COUNT {
            index
        } else {
            TOOL_COUNT - 1
        };
        let new_tool = Tool::at(clamped);
        if new_tool != self.tool {
            self.tool = new_tool;
        } else {
            self.tool = Tool::NoTool;
        }
    }

    pub fn disable_if_active(&mut self, tool: Tool)
        ensures
            final(self).spec_tool() == if old(self).spec_tool() == tool {
                Tool::NoTool
            } else {
                old(self).spec_tool()
            },
            final(self).spec_previous_tool() == old(self).spec_previous_tool(),
    {
        if self.tool == tool {
            self.disable();
        }
    }

    pub fn disable(&mut self)
        ensures
            final(self).spec_tool() == Tool::NoTool,
            final(self).spec_previous_tool() == old(self).spec_previous_tool(),
    {
        self.tool = Tool::NoTool;
    }

    /// Remembers the active tool as the previous one (at the end of every frame).
    pub fn update_previous(&mut self)
        ensures
            final(self).spec_tool() == old(self).spec_tool(),
            final(self).spec_previous_tool() == old(self).spec_tool(),
    {
        self.previous_tool = self.tool;
    }

    pub fn tool_just_changed(&self) -> (b: bool)
        ensures
            b == (self.spec_tool() != self.spec_previous_tool()),
    {
        self.tool != self.previous_tool
    }
}

/// Selects tools by the number keys pressed this frame: `pressed[i]` is whether the key for
/// index `i` (`1` to `9`, then `0`) was pressed.
pub fn set_tool_on_input(active_tool: &mut ActiveTool, pressed: [bool; 10])
    ensures
        final(active_tool).spec_tool() == tool_after_keys(old(active_tool).spec_tool(), pressed@),
        final(active_tool).spec_previous_tool() == old(active_tool).spec_previous_tool(),
{
    let mut i: usize = 0;
    while i < 10
        invariant
            i <= 10,
            active_tool.spec_tool() == tool_after_keys(
                old(active_tool).spec_tool(),
                pressed@.subrange(0, i as int),
            ),
            active_tool.spec_previous_tool() == old(active_tool).spec_previous_tool(),
        decreases 10 - i,
    {
        assert(pressed@.subrange(0, i + 1).drop_last() =~= pressed@.subrange(0, i as int));
        if pressed[i] {
            active_tool.set_by_index(i);
        }
        i += 1;
    }
    assert(pressed@.subrange(0, 10) =~= pressed@);
}

/// Whether the tool button is held down now, and whether it was in the previous frame.
#[derive(Clone, Copy, Debug, PartialEq, Eq, Structural)]
pub struct ToolInUse {
    in_use: bool,
    previous_in_use: bool,
}

impl Default for ToolInUse {
    fn default() -> (t: ToolInUse)
        ensures
            !t.spec_in_use(),
            !t.spec_previous_in_use(),
    {
        ToolInUse { in_use: false, previous_in_use: false }
    }
}

impl ToolInUse {
    pub closed spec fn spec_in_use(self) -> bool {
        self.in_use
    }

    pub closed spec fn spec_previous_in_use(self) -> bool {
        self.previous_in_use
    }

    /// Records whether the button is held down in this frame.
    pub fn set(&mut self, in_use: bool)
        ensures
            final(self).spec_in_use() == in_use,
            final(self).spec_previous_in_use() == old(self).spec_in_use(),
    {
        self.previous_in_use = self.in_use;
        self.in_use = in_use;
    }

    pub fn in_use(&self) -> (b: bool)
        ensures
            b == self.spec_in_use(),
    {
        self.in_use
    }
}

/// Whether `tool` is the active tool.
pub fn is_active(active_tool: &ActiveTool, tool: Tool) -> (b: bool)
    ensures
        b == (active_tool.spec_tool() == tool),
{
    active_tool.is(tool)
}

/// Whether the active tool changed since the previous frame (including from `NoTool`).
pub fn tool_just_changed(active_tool: &ActiveTool) -> (b: bool)
    ensures
        b == (active_tool.spec_tool() != active_tool.spec_previous_tool()),
{
    active_tool.tool_just_changed()
}

pub open spec fn spec_started_being_used(this: ToolInUse, active_tool: ActiveTool, tool: Tool) -> bool {
    (this.spec_in_use() && !this.spec_previous_in_use() && active_tool.spec_tool() == tool) || (
    this.spec_in_use() && active_tool.spec_previous_tool() != tool && active_tool.spec_tool()
        == tool)
}

/// Whether `tool` just started being used: the button was just pressed while it is active, or
/// it just became active while the button is held.
pub fn started_being_used(this: &ToolInUse, active_tool: &ActiveTool, tool: Tool) -> (b: bool)
    ensures
        b == spec_started_being_used(*this, *active_tool, tool),
{
    (this.in_use && !this.previous_in_use && active_tool.is(tool)) || (this.in_use
        && !active_tool.was(tool) && active_tool.is(tool))
}

pub open spec fn spec_stopped_being_used(this: ToolInUse, active_tool: ActiveTool, tool: Tool) -> bool {
    (!this.spec_in_use() && this.spec_previous_in_use() && active_tool.spec_tool() == tool) || (
    this.spec_in_use() && active_tool.spec_previous_tool() == tool && active_tool.spec_tool()
        != tool)
}

/// Whether `tool` just stopped being used: the button was just released while it is active, or
/// it just stopped being active while the button is held.
pub fn stopped_being_used(this: &ToolInUse, active_tool: &ActiveTool, tool: Tool) -> (b: bool)
    ensures
        b == spec_stopped_being_used(*this, *active_tool, tool),
{
    (!this.in_use && this.previous_in_use && active_tool.is(tool)) || (this.in_use
        && active_tool.was(tool) && !active_tool.is(tool))
}

/// Whether `tool` is in use in this frame: it just started being used, or it is held while
/// active and its repeat timer (if it has one) just fired.
pub fn is_in_use(this: &ToolInUse, active_tool: &ActiveTool, tool: Tool, timer_finished: bool) -> (b: bool)
    ensures
        b == (spec_started_being_used(*this, *active_tool, tool) || (this.spec_in_use()
            && active_tool.spec_tool() == tool && timer_finished)),
{
    let in_use_now = this.in_use && active_tool.is(tool) && timer_finished;
    started_being_used(this, active_tool, tool) || in_use_now
}

/// Whether the brush of `tool` should be created: it does not exist and the tool is active.
pub fn brush_should_be_created(brush_exists: bool, active_tool: &ActiveTool, tool: Tool) -> (b: bool)
    ensures
        b == (!brush_exists && active_tool.spec_tool() == tool),
{
    !brush_exists && active_tool.is(tool)
}

/// Whether the brush of `tool` should be destroyed: it exists and the tool is not active.
pub fn brush_should_be_destroyed(brush_exists: bool, active_tool: &ActiveTool, tool: Tool) -> (b: bool)
    ensures
        b == (brush_exists && active_tool.spec_tool() != tool),
{
    brush_exists && !active_tool.is(tool)
}


/// Selecting the same tool twice in a row deselects it, unless it was the active tool to begin
/// with, in which case it ends up active again.
pub proof fn lemma_select_twice(current: Tool, index: int)
    ensures
        ({
            let selected = Tool::spec_all()[if index < TOOL_COUNT {
                index
            } else {
                TOOL_COUNT - 1
            }];
            tool_after_index(tool_after_index(current, index), index) == if current == selected {
                selected
            } else {
                Tool::NoTool
            }
        }),
{
}

/// Once the frame's active tool has been remembered, the tool no longer counts as just changed.
pub proof fn lemma_no_change_after_update_previous(before: ActiveTool, after: ActiveTool)
    requires
        after.spec_tool() == before.spec_tool(),
        after.spec_previous_tool() == before.spec_tool(),
    ensures
        !(after.spec_tool() != after.spec_previous_tool()),
{
}

/// A tool never starts and stops being used in the same frame.
pub proof fn lemma_start_stop_exclusive(this: ToolInUse, active_tool: ActiveTool, tool: Tool)
    ensures
        !(spec_started_being_used(this, active_tool, tool) && spec_stopped_being_used(
            this,
            active_tool,
            tool,
        )),
{
}


/// Where the floor tool stands between clicks. The floor's width, a length in metres, is kept
/// beside it by whoever draws the floor.
#[derive(Clone, Copy, Debug, PartialEq, Eq, Structural)]
pub enum FloorBrushState {
    /// Waiting for the first point of the floor's edge.
    WaitingForPoint1,
    /// The first point is set; waiting for the second.
    Point1 { point1: Coords },
    /// Both points of the edge are set; the next click lays the floor.
    Ready { point1: Coords, point2: Coords },
}

/// What a click of the floor tool does besides changing its state.
#[derive(Clone, Copy, Debug, PartialEq, Eq, Structural)]
pub enum FloorClickAction {
    /// Nothing more.
    Nothing,
    /// The edge is complete: the floor's width starts at the brush's thickness.
    ResetWidth,
    /// Lay the floor along the edge from `point1` to `point2` as a draft, and note the tool's
    /// colour as used.
    LayFloor { point1: Coords, point2: Coords },
}

/// What a click does, as values: a point under the cursor starts the edge, then ends it; a
/// click on a complete edge lays the floor and starts over, wherever the cursor is. A click
/// that needs a point and has none changes nothing.
pub open spec fn floor_click_next(state: FloorBrushState, hit: Option<Coords>) -> (
    FloorBrushState,
    FloorClickAction,
) {
    match state {
        FloorBrushState::WaitingForPoint1 => match hit {
            Some(c) => (FloorBrushState::Point1 { point1: c }, FloorClickAction::Nothing),
            None => (state, FloorClickAction::Nothing),
        },
        FloorBrushState::Point1 { point1 } => match hit {
            Some(c) => (
                FloorBrushState::Ready { point1, point2: c },
                FloorClickAction::ResetWidth,
            ),
            None => (state, FloorClickAction::Nothing),
        },
        FloorBrushState::Ready { point1, point2 } => (
            FloorBrushState::WaitingForPoint1,
            FloorClickAction::LayFloor { point1, point2 },
        ),
    }
}

/// One click of the floor tool, with the voxel under the cursor if there is one (see
/// [`floor_click_next`]).
pub fn floor_on_click(state: FloorBrushState, hit: Option<Coords>) -> (r: (
    FloorBrushState,
    FloorClickAction,
))
    ensures
        r == floor_click_next(state, hit),
{
    match state {
        FloorBrushState::WaitingForPoint1 => match hit {
            Some(c) => (FloorBrushState::Point1 { point1: c }, FloorClickAction::Nothing),
            None => (state, FloorClickAction::Nothing),
        },
        FloorBrushState::Point1 { point1 } => match hit {
            Some(c) => (
                FloorBrushState::Ready { point1, point2: c },
                FloorClickAction::ResetWidth,
            ),
            None => (state, FloorClickAction::Nothing),
        },
        FloorBrushState::Ready { point1, point2 } => (
            FloorBrushState::WaitingForPoint1,
            FloorClickAction::LayFloor { point1, point2 },
        ),
    }
}

/// Three clicks on points lay a floor along the edge between the first two, and leave the tool
/// waiting for a new edge.
pub proof fn lemma_floor_three_clicks(p1: Coords, p2: Coords, third: Option<Coords>)
    ensures
        ({
            let (s1, a1) = floor_click_next(FloorBrushState::WaitingForPoint1, Some(p1));
            let (s2, a2) = floor_click_next(s1, Some(p2));
            let (s3, a3) = floor_click_next(s2, third);
            &&& a1 == FloorClickAction::Nothing
            &&& a2 == FloorClickAction::ResetWidth
            &&& s3 == FloorBrushState::WaitingForPoint1
            &&& a3 == FloorClickAction::LayFloor { point1: p1, point2: p2 }
        }),
{
}

/// The floor is laid only from a complete edge, and laying it always starts over.
pub proof fn lemma_floor_laid_only_when_ready(state: FloorBrushState, hit: Option<Coords>)
    ensures
        floor_click_next(state, hit).1 is LayFloor <==> state is Ready,
        floor_click_next(state, hit).1 is LayFloor ==> floor_click_next(state, hit).0
            == FloorBrushState::WaitingForPoint1,
{
}


/// A colour as red, green, blue and alpha bytes.
pub type Rgba = [u8; 4];

/// The colours used last, most recent first.
pub struct LastUsedColors(pub [Rgba; 16]);

/// Whether two colours are the same.
pub fn same_color(a: Rgba, b: Rgba) -> (r: bool)
    ensures
        r == (a@ == b@),
{
    let r = a[0] == b[0] && a[1] == b[1] && a[2] == b[2] && a[3] == b[3];
    proof {
        if r {
            assert(a@ =~= b@);
        }
    }
    r
}

/// The colours after `color` is used: unchanged when it is already the most recent, else it
/// goes first and the others move down one, the oldest dropping out.
pub open spec fn colors_after_use(colors: Seq<Rgba>, color: Rgba) -> Seq<Rgba> {
    if colors[0]@ == color@ {
        colors
    } else {
        seq![color] + colors.subrange(0, colors.len() - 1)
    }
}

impl LastUsedColors {
    /// Notes that `color` was used (see [`colors_after_use`]).
    pub fn push(&mut self, color: Rgba)
        ensures
            final(self).0@ == colors_after_use(old(self).0@, color),
    {
        if same_color(self.0[0], color) {
            return;
        }
        let ghost before = self.0@;
        let mut i: usize = 15;
        while i > 0
            invariant
                i <= 15,
                self.0@.len() == 16,
                forall|j: int| 0 <= j <= i ==> #[trigger] self.0@[j] == before[j],
                forall|j: int| i < j < 16 ==> #[trigger] self.0@[j] == before[j - 1],
            decreases i,
        {
            let prev = self.0[i - 1];
            self.0[i] = prev;
            i -= 1;
        }
        self.0[0] = color;
        assert(self.0@ =~= seq![color] + before.subrange(0, 15));
    }
}

/// Using the most recent colour again changes nothing; using another puts it first and keeps
/// all but the oldest of the others, in order.
pub proof fn lemma_colors_after_use(colors: Seq<Rgba>, color: Rgba)
    requires
        colors.len() == 16,
    ensures
        colors_after_use(colors, color).len() == 16,
        colors_after_use(colors, color)[0]@ == color@,
        colors_after_use(colors_after_use(colors, color), color) == colors_after_use(colors, color),
{
}

} // verus!
