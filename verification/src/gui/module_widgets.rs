//! What a module's face is made of: the outline of each widget as a module
//! template describes it, and the feedback data each one needs.

use crate::gui::constants::{
    coord,
    coord_px,
    fatgrid_px,
    grid,
    grid_px,
    FATGRID_1,
    GRID_P,
    JACK_SIZE,
    KNOB_MENU_KNOB_IR,
    KNOB_MENU_KNOB_OR,
    KNOB_MENU_LANE_GAP,
    KNOB_MENU_LANE_SIZE,
    MODULE_IO_WIDTH,
};
use vstd::prelude::*;

pub mod value_sequence;

verus! {

/// Samples a waveform graph is drawn from.
pub const WAVEFORM_GRAPH_POINTS: usize = 60;

/// Values an envelope graph is drawn from: attack, decay, sustain, release,
/// and the cursor's two coordinates.
pub const ENVELOPE_GRAPH_VALUES: usize = 6;

/// The feedback data a widget asks the running program for.
pub enum FeedbackDataRequirement {
    Nothing,
    Control { control_index: usize },
    Custom { code_name: String, size: usize },
}

impl FeedbackDataRequirement {
    /// Number of values the requirement stands for.
    pub open spec fn spec_size(&self) -> nat {
        match self {
            FeedbackDataRequirement::Nothing => 0,
            FeedbackDataRequirement::Control { .. } => 1,
            FeedbackDataRequirement::Custom { size, .. } => *size as nat,
        }
    }

    /// Number of values the requirement stands for.
    pub fn size(&self) -> (n: usize)
        ensures
            n == self.spec_size(),
    {
        match self {
            Self::Nothing => 0,
            Self::Control { .. } => 1,
            Self::Custom { size, .. } => *size,
        }
    }
}

/// A widget as a module template describes it.
#[derive(Debug)]
pub enum WidgetOutline {
    Knob { tooltip: String, control_index: usize, grid_pos: (i32, i32), label: String },
    EnvelopeGraph { grid_pos: (i32, i32), grid_size: (i32, i32), feedback_name: String },
    WaveformGraph { grid_pos: (i32, i32), grid_size: (i32, i32), feedback_name: String },
    IntBox {
        tooltip: String,
        ccontrol_index: usize,
        grid_pos: (i32, i32),
        range: (i32, i32),
        label: String,
    },
}

/// A widget outline as a value.
pub enum WidgetOutlineView {
    Knob { tooltip: Seq<char>, control_index: usize, grid_pos: (i32, i32), label: Seq<char> },
    EnvelopeGraph { grid_pos: (i32, i32), grid_size: (i32, i32), feedback_name: Seq<char> },
    WaveformGraph { grid_pos: (i32, i32), grid_size: (i32, i32), feedback_name: Seq<char> },
    IntBox {
        tooltip: Seq<char>,
        ccontrol_index: usize,
        grid_pos: (i32, i32),
        range: (i32, i32),
        label: Seq<char>,
    },
}

impl View for WidgetOutline {
    type V = WidgetOutlineView;

    open spec fn view(&self) -> WidgetOutlineView {
        match *self {
            WidgetOutline::Knob { tooltip, control_index, grid_pos, label } => WidgetOutlineView::Knob {
                tooltip: tooltip@,
                control_index,
                grid_pos,
                label: label@,
            },
            WidgetOutline::EnvelopeGraph {
                grid_pos,
                grid_size,
                feedback_name,
            } => WidgetOutlineView::EnvelopeGraph { grid_pos, grid_size, feedback_name: feedback_name@ },
            WidgetOutline::WaveformGraph {
                grid_pos,
                grid_size,
                feedback_name,
            } => WidgetOutlineView::WaveformGraph { grid_pos, grid_size, feedback_name: feedback_name@ },
            WidgetOutline::IntBox { tooltip, ccontrol_index, grid_pos, range, label } => WidgetOutlineView::IntBox {
                tooltip: tooltip@,
                ccontrol_index,
                grid_pos,
                range,
                label: label@,
            },
        }
    }
}

impl WidgetOutlineView {
    /// Number of feedback values the widget is drawn from.
    pub open spec fn feedback_len(self) -> nat {
        match self {
            WidgetOutlineView::Knob { .. } => 1,
            WidgetOutlineView::EnvelopeGraph { .. } => ENVELOPE_GRAPH_VALUES as nat,
            WidgetOutlineView::WaveformGraph { .. } => WAVEFORM_GRAPH_POINTS as nat,
            WidgetOutlineView::IntBox { .. } => 0,
        }
    }
}

impl WidgetOutline {
    /// Number of feedback values the widget is drawn from.
    pub open spec fn feedback_len(&self) -> nat {
        match self {
            WidgetOutline::Knob { .. } => 1,
            WidgetOutline::EnvelopeGraph { .. } => ENVELOPE_GRAPH_VALUES as nat,
            WidgetOutline::WaveformGraph { .. } => WAVEFORM_GRAPH_POINTS as nat,
            WidgetOutline::IntBox { .. } => 0,
        }
    }

    /// The feedback data the widget needs: a knob shows the automated value of
    /// its control, a graph shows data the module's code publishes under the
    /// graph's feedback name, and an integer box shows none.
    pub fn get_feedback_data_requirement(&self) -> (req: FeedbackDataRequirement)
        ensures
            req.spec_size() == self.feedback_len(),
            match *self {
                WidgetOutline::Knob { control_index, .. } => req == (FeedbackDataRequirement::Control {
                    control_index,
                }),
                WidgetOutline::EnvelopeGraph { feedback_name, .. } => req matches FeedbackDataRequirement::Custom {
                    code_name,
                    size,
                } && code_name@ == feedback_name@ && size == ENVELOPE_GRAPH_VALUES,
                WidgetOutline::WaveformGraph { feedback_name, .. } => req matches FeedbackDataRequirement::Custom {
                    code_name,
                    size,
                } && code_name@ == feedback_name@ && size == WAVEFORM_GRAPH_POINTS,
                WidgetOutline::IntBox { .. } => req == FeedbackDataRequirement::Nothing,
            },
    {
        match self {
            Self::Knob { control_index, .. } => FeedbackDataRequirement::Control {
                control_index: *control_index,
            },
            Self::EnvelopeGraph { feedback_name, .. } => FeedbackDataRequirement::Custom {
                code_name: feedback_name.clone(),
                size: ENVELOPE_GRAPH_VALUES,
            },
            Self::WaveformGraph { feedback_name, .. } => FeedbackDataRequirement::Custom {
                code_name: feedback_name.clone(),
                size: WAVEFORM_GRAPH_POINTS,
            },
            Self::IntBox { .. } => FeedbackDataRequirement::Nothing,
        }
    }
}

/// Which buttons and keys are held during a mouse press.
#[derive(Clone, Copy, Debug)]
pub struct MouseMods {
    pub right_click: bool,
    pub shift: bool,
}

/// A control, by the place of its module in the graph and its own place in
/// the module.
pub type ControlRef = (usize, usize);

/// What a mouse press on a widget starts.
#[derive(Debug)]
pub enum MouseAction {
    Nothing,
    ManipulateControl(ControlRef),
    ManipulateLane(ControlRef, usize),
    ManipulateLaneStart(ControlRef, usize),
    ManipulateLaneEnd(ControlRef, usize),
    OpenMenu(KnobEditor),
}

/// What something dragged onto a widget lands on.
#[derive(Clone, Copy, Debug, PartialEq, Eq)]
pub enum DropTarget {
    Nothing,
    Control(ControlRef),
}

/// `pos`, taken from the top left corner of an area of size `size`, lies in
/// the area.
pub open spec fn inside(pos: (int, int), size: (int, int)) -> bool {
    0 <= pos.0 <= size.0 && 0 <= pos.1 <= size.1
}

/// Whether the point `at` lies in the area of size `size` whose top left
/// corner is `corner`.
pub fn is_inside(at: (i32, i32), corner: (i32, i32), size: (i32, i32)) -> (yes: bool)
    ensures
        yes == inside((at.0 - corner.0, at.1 - corner.1), (size.0 as int, size.1 as int)),
{
    let x: i64 = at.0 as i64 - corner.0 as i64;
    let y: i64 = at.1 as i64 - corner.1 as i64;
    0 <= x && x <= size.0 as i64 && 0 <= y && y <= size.1 as i64
}

/// A knob on a module's face.
#[derive(Debug)]
pub struct Knob {
    pub control: ControlRef,
    pub pos: (i32, i32),
    pub label: String,
}

/// The area of a knob that takes the mouse: two grid squares wide, one high.
pub open spec fn knob_area() -> (int, int) {
    (grid_px(2), grid_px(1))
}

impl Knob {
    pub fn create(control: ControlRef, pos: (i32, i32), label: String) -> (knob: Knob)
        ensures
            knob.control == control,
            knob.pos == pos,
            knob.label == label,
    {
        Knob { control, pos, label }
    }

    /// The mouse at `mouse_pos` is on the knob.
    pub open spec fn hit(&self, mouse_pos: (i32, i32)) -> bool {
        inside((mouse_pos.0 - self.pos.0, mouse_pos.1 - self.pos.1), knob_area())
    }

    /// The middle of the knob on the screen: where its menu opens.
    pub open spec fn menu_center(&self, parent_pos: (i32, i32)) -> (int, int) {
        (self.pos.0 + parent_pos.0 + grid_px(2) / 2, self.pos.1 + parent_pos.1 + grid_px(2) / 2)
    }

    /// What a press at `mouse_pos` starts: nothing if it misses the knob, the
    /// knob's menu on a right click, and turning the knob otherwise.
    /// `auto_lanes` is the number of lanes that automate the knob's control.
    pub fn respond_to_mouse_press(
        &self,
        mouse_pos: (i32, i32),
        mods: &MouseMods,
        parent_pos: (i32, i32),
        auto_lanes: usize,
    ) -> (action: MouseAction)
        requires
            KnobEditor::can_create(auto_lanes, self.menu_center(parent_pos)),
        ensures
            !self.hit(mouse_pos) ==> action is Nothing,
            self.hit(mouse_pos) && !mods.right_click ==> action == MouseAction::ManipulateControl(self.control),
            self.hit(mouse_pos) && mods.right_click ==> (action matches MouseAction::OpenMenu(editor)
                && editor.control == self.control && editor.label@ == self.label@ && editor.shaped_for(
                auto_lanes,
                self.menu_center(parent_pos),
            )),
    {
        if is_inside(mouse_pos, self.pos, (grid(2), grid(1))) {
            if mods.right_click {
                let pos: (i32, i32) = (
                    self.pos.0 + parent_pos.0 + grid(2) / 2,
                    self.pos.1 + parent_pos.1 + grid(2) / 2,
                );
                MouseAction::OpenMenu(KnobEditor::create(self.control, auto_lanes, pos, self.label.clone()))
            } else {
                MouseAction::ManipulateControl(self.control)
            }
        } else {
            MouseAction::Nothing
        }
    }

    /// What something dropped at `mouse_pos` lands on: the knob's control if
    /// it hits the knob.
    pub fn get_drop_target_at(&self, mouse_pos: (i32, i32)) -> (target: DropTarget)
        ensures
            target == if self.hit(mouse_pos) {
                DropTarget::Control(self.control)
            } else {
                DropTarget::Nothing
            },
    {
        if is_inside(mouse_pos, self.pos, (grid(2), grid(1))) {
            DropTarget::Control(self.control)
        } else {
            DropTarget::Nothing
        }
    }
}

impl Clone for Knob {
    fn clone(&self) -> (copy: Self)
        ensures
            copy == *self,
    {
        Knob { control: self.control, pos: self.pos, label: self.label.clone() }
    }
}

/// A graph of an envelope on a module's face.
#[derive(Clone, Copy, Debug)]
pub struct EnvelopeGraph {
    pub pos: (i32, i32),
    pub size: (i32, i32),
}

impl EnvelopeGraph {
    pub fn create(pos: (i32, i32), size: (i32, i32)) -> (graph: Self)
        ensures
            graph.pos == pos,
            graph.size == size,
    {
        Self { pos, size }
    }

    /// A press on the graph starts nothing.
    pub fn respond_to_mouse_press(&self, mouse_pos: (i32, i32), mods: &MouseMods, parent_pos: (i32, i32)) -> (action:
        MouseAction)
        ensures
            action is Nothing,
    {
        MouseAction::Nothing
    }

    /// Nothing can be dropped on the graph.
    pub fn get_drop_target_at(&self, mouse_pos: (i32, i32)) -> (target: DropTarget)
        ensures
            target == DropTarget::Nothing,
    {
        DropTarget::Nothing
    }
}

/// A graph of a waveform on a module's face.
#[derive(Clone, Copy, Debug)]
pub struct WaveformGraph {
    pub pos: (i32, i32),
    pub size: (i32, i32),
}

/// A box that holds a whole number on a module's face.
#[derive(Debug)]
pub struct IntBox {
    pub tooltip: String,
    pub ccontrol: ControlRef,
    pub pos: (i32, i32),
    pub range: (i32, i32),
    pub label: String,
}

/// The menu that opens on a knob: the knob again, larger, with one ring
/// around it for each lane that automates its control.
#[derive(Debug)]
pub struct KnobEditor {
    pub control: ControlRef,
    pub pos: (i32, i32),
    pub size: (i32, i32),
    pub label: String,
}

/// The part of a knob's menu that a press falls on.
#[derive(Clone, Copy, Debug, PartialEq, Eq)]
pub enum EditorZone {
    /// Nothing there that takes the mouse.
    Inert,
    /// The knob itself.
    Knob,
    /// The ring of the lane at this place among the control's lanes.
    Lane(usize),
}

/// Number of rings a menu makes room for: one per lane, and never fewer than
/// two.
pub open spec fn editor_channels(auto_lanes: usize) -> int {
    if auto_lanes > 2 {
        auto_lanes as int
    } else {
        2
    }
}

/// How far a menu reaches from the middle of its knob.
pub open spec fn editor_radius(auto_lanes: usize) -> int {
    (KNOB_MENU_LANE_SIZE + KNOB_MENU_LANE_GAP) * editor_channels(auto_lanes) + KNOB_MENU_KNOB_OR + GRID_P
}

impl KnobEditor {
    /// The size of a menu for a control with `auto_lanes` lanes.
    pub open spec fn size_for(auto_lanes: usize) -> (int, int) {
        (editor_radius(auto_lanes) * 2, editor_radius(auto_lanes) + fatgrid_px(1))
    }

    /// A menu for a control with `auto_lanes` lanes can be laid out around
    /// `center_pos` without leaving the range of coordinates.
    pub open spec fn can_create(auto_lanes: usize, center_pos: (int, int)) -> bool {
        &&& KnobEditor::size_for(auto_lanes).0 <= i32::MAX
        &&& i32::MIN <= center_pos.0 - KnobEditor::size_for(auto_lanes).0 / 2
        &&& center_pos.0 <= i32::MAX
        &&& i32::MIN <= center_pos.1 - KnobEditor::size_for(auto_lanes).1 / 2
        &&& center_pos.1 <= i32::MAX
    }

    /// The menu has the size for `auto_lanes` lanes and is centred on
    /// `center_pos`.
    pub open spec fn shaped_for(&self, auto_lanes: usize, center_pos: (int, int)) -> bool {
        &&& self.size.0 == KnobEditor::size_for(auto_lanes).0
        &&& self.size.1 == KnobEditor::size_for(auto_lanes).1
        &&& self.pos.0 == center_pos.0 - self.size.0 / 2
        &&& self.pos.1 == center_pos.1 - self.size.1 / 2
    }

    /// The menu for a control with `auto_lanes` lanes, centred on
    /// `center_pos`.
    pub fn create(control: ControlRef, auto_lanes: usize, center_pos: (i32, i32), label: String) -> (editor:
        Self)
        requires
            KnobEditor::can_create(auto_lanes, (center_pos.0 as int, center_pos.1 as int)),
        ensures
            editor.control == control,
            editor.label == label,
            editor.shaped_for(auto_lanes, (center_pos.0 as int, center_pos.1 as int)),
    {
        let num_channels: i32 = if auto_lanes > 2 {
            auto_lanes as i32
        } else {
            2
        };
        let required_radius: i32 = (KNOB_MENU_LANE_SIZE + KNOB_MENU_LANE_GAP) * num_channels + KNOB_MENU_KNOB_OR
            + GRID_P;
        let size: (i32, i32) = (required_radius * 2, required_radius + FATGRID_1);
        Self { control, pos: (center_pos.0 - size.0 / 2, center_pos.1 - size.1 / 2), size, label }
    }

    /// The mouse at `mouse_pos` is on the menu.
    pub open spec fn hit(&self, mouse_pos: (i32, i32)) -> bool {
        inside((mouse_pos.0 - self.pos.0, mouse_pos.1 - self.pos.1), (self.size.0 as int, self.size.1 as int))
    }

    /// Where `mouse_pos` lies as seen from the middle of the knob, to the
    /// right and downwards. The middle is half the menu's width from its left
    /// and from its top.
    pub fn offset_from_center(&self, mouse_pos: (i32, i32)) -> (offset: (i64, i64))
        requires
            self.size.0 >= 0,
        ensures
            offset.0 == mouse_pos.0 - self.pos.0 - self.size.0 / 2,
            offset.1 == mouse_pos.1 - self.pos.1 - self.size.0 / 2,
    {
        let half: i64 = (self.size.0 / 2) as i64;
        (mouse_pos.0 as i64 - self.pos.0 as i64 - half, mouse_pos.1 as i64 - self.pos.1 as i64 - half)
    }

    /// The zone at a distance of `radius` from the middle of the knob, in the
    /// upper half if `upper_half`, for a control with `auto_lanes` lanes.
    /// Rings are drawn from the last lane inwards to the first outwards, so
    /// the innermost ring stands for the last lane.
    pub open spec fn zone_at(radius: i32, upper_half: bool, auto_lanes: usize) -> EditorZone {
        if !upper_half || radius < KNOB_MENU_KNOB_IR {
            EditorZone::Inert
        } else if radius < KNOB_MENU_KNOB_OR {
            EditorZone::Knob
        } else {
            let ring = (radius - KNOB_MENU_KNOB_OR) / (KNOB_MENU_LANE_SIZE + KNOB_MENU_LANE_GAP);
            if ring < auto_lanes {
                EditorZone::Lane((auto_lanes - ring - 1) as usize)
            } else {
                EditorZone::Inert
            }
        }
    }

    /// What a press at `mouse_pos` falls on, or `None` if it misses the menu.
    /// The caller has worked out how far the press is from the middle of the
    /// knob and whether it lies in the upper half.
    pub fn respond_to_mouse_press(
        &self,
        mouse_pos: (i32, i32),
        radius: i32,
        upper_half: bool,
        auto_lanes: usize,
    ) -> (zone: Option<EditorZone>)
        ensures
            zone == if self.hit(mouse_pos) {
                Some(KnobEditor::zone_at(radius, upper_half, auto_lanes))
            } else {
                None
            },
    {
        if !is_inside(mouse_pos, self.pos, self.size) {
            return None;
        }
        if !upper_half || radius < KNOB_MENU_KNOB_IR {
            Some(EditorZone::Inert)
        } else if radius < KNOB_MENU_KNOB_OR {
            Some(EditorZone::Knob)
        } else {
            let ring: i32 = (radius - KNOB_MENU_KNOB_OR) / (KNOB_MENU_LANE_SIZE + KNOB_MENU_LANE_GAP);
            if (ring as usize) < auto_lanes {
                Some(EditorZone::Lane(auto_lanes - ring as usize - 1))
            } else {
                Some(EditorZone::Inert)
            }
        }
    }
}

impl Clone for KnobEditor {
    fn clone(&self) -> (copy: Self)
        ensures
            copy == *self,
    {
        KnobEditor { control: self.control, pos: self.pos, size: self.size, label: self.label.clone() }
    }
}

/// A widget on a module's face.
#[derive(Debug)]
pub enum Widget {
    Knob(Knob),
    EnvelopeGraph(EnvelopeGraph),
    WaveformGraph(WaveformGraph),
    IntBox(IntBox),
}

/// The pixel at which the grid cell `grid_pos` of a module's face begins,
/// to the right of the module's inputs.
pub open spec fn face_pos(grid_pos: (i32, i32)) -> (int, int) {
    (MODULE_IO_WIDTH + JACK_SIZE + coord_px(grid_pos.0 as int), coord_px(grid_pos.1 as int))
}

/// The pixels that `grid_size` grid cells take.
pub open spec fn face_size(grid_size: (i32, i32)) -> (int, int) {
    (grid_px(grid_size.0 as int), grid_px(grid_size.1 as int))
}

/// A position in pixels fits the range of coordinates.
pub open spec fn on_canvas(at: (int, int)) -> bool {
    i32::MIN <= at.0 <= i32::MAX && i32::MIN <= at.1 <= i32::MAX
}

impl WidgetOutline {
    /// Where on the grid the widget stands.
    pub open spec fn grid_pos(&self) -> (i32, i32) {
        match self {
            WidgetOutline::Knob { grid_pos, .. } => *grid_pos,
            WidgetOutline::EnvelopeGraph { grid_pos, .. } => *grid_pos,
            WidgetOutline::WaveformGraph { grid_pos, .. } => *grid_pos,
            WidgetOutline::IntBox { grid_pos, .. } => *grid_pos,
        }
    }

    /// The widget can be laid out without leaving the range of coordinates.
    pub open spec fn can_lay_out(&self) -> bool {
        &&& on_canvas(face_pos(self.grid_pos()))
        &&& i32::MIN <= coord_px(self.grid_pos().0 as int)
        &&& match self {
            WidgetOutline::EnvelopeGraph { grid_size, .. } => on_canvas(face_size(*grid_size)),
            WidgetOutline::WaveformGraph { grid_size, .. } => on_canvas(face_size(*grid_size)),
            _ => true,
        }
    }
}

fn convert_grid_pos(grid_pos: (i32, i32)) -> (pos: (i32, i32))
    requires
        on_canvas(face_pos(grid_pos)),
        i32::MIN <= coord_px(grid_pos.0 as int),
    ensures
        pos.0 == face_pos(grid_pos).0,
        pos.1 == face_pos(grid_pos).1,
{
    (MODULE_IO_WIDTH + JACK_SIZE + coord(grid_pos.0), coord(grid_pos.1))
}

fn convert_grid_size(grid_size: (i32, i32)) -> (size: (i32, i32))
    requires
        on_canvas(face_size(grid_size)),
    ensures
        size.0 == face_size(grid_size).0,
        size.1 == face_size(grid_size).1,
{
    (grid(grid_size.0), grid(grid_size.1))
}

/// Makes the widget that an outline describes, for the module at place
/// `module` of the graph. Returns it with the number of feedback values it is
/// drawn from.
pub fn widget_from_outline(module: usize, outline: &WidgetOutline) -> (made: (Widget, usize))
    requires
        outline.can_lay_out(),
    ensures
        made.1 == outline.feedback_len(),
        match *outline {
            WidgetOutline::Knob { control_index, grid_pos, label, .. } => made.0 matches Widget::Knob(knob)
                && knob.control == (module, control_index) && knob.label@ == label@ && knob.pos.0 == face_pos(
                grid_pos,
            ).0 && knob.pos.1 == face_pos(grid_pos).1,
            WidgetOutline::EnvelopeGraph { grid_pos, grid_size, .. } => made.0 matches Widget::EnvelopeGraph(graph)
                && graph.pos.0 == face_pos(grid_pos).0 && graph.pos.1 == face_pos(grid_pos).1 && graph.size.0
                == face_size(grid_size).0 && graph.size.1 == face_size(grid_size).1,
            WidgetOutline::WaveformGraph { grid_pos, grid_size, .. } => made.0 matches Widget::WaveformGraph(graph)
                && graph.pos.0 == face_pos(grid_pos).0 && graph.pos.1 == face_pos(grid_pos).1 && graph.size.0
                == face_size(grid_size).0 && graph.size.1 == face_size(grid_size).1,
            WidgetOutline::IntBox { ccontrol_index, grid_pos, range, label, tooltip } => made.0 matches Widget::IntBox(
                int_box,
            ) && int_box.ccontrol == (module, ccontrol_index) && int_box.range == range && int_box.label@
                == label@ && int_box.tooltip@ == tooltip@ && int_box.pos.0 == face_pos(grid_pos).0
                && int_box.pos.1 == face_pos(grid_pos).1,
        },
{
    let widget: Widget = match outline {
        WidgetOutline::Knob { control_index, grid_pos, label, .. } => Widget::Knob(
            Knob::create((module, *control_index), convert_grid_pos(*grid_pos), label.clone()),
        ),
        WidgetOutline::EnvelopeGraph { grid_pos, grid_size, .. } => Widget::EnvelopeGraph(
            EnvelopeGraph::create(convert_grid_pos(*grid_pos), convert_grid_size(*grid_size)),
        ),
        WidgetOutline::WaveformGraph { grid_pos, grid_size, .. } => Widget::WaveformGraph(
            WaveformGraph { pos: convert_grid_pos(*grid_pos), size: convert_grid_size(*grid_size) },
        ),
        WidgetOutline::IntBox { tooltip, ccontrol_index, grid_pos, range, label } => Widget::IntBox(
            IntBox {
                tooltip: tooltip.clone(),
                ccontrol: (module, *ccontrol_index),
                pos: convert_grid_pos(*grid_pos),
                range: *range,
                label: label.clone(),
            },
        ),
    };
    let feedback_data_len: usize = outline.get_feedback_data_requirement().size();
    (widget, feedback_data_len)
}

} // verus!
