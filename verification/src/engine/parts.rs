//! The parts a patch is made of: controls, jacks, module templates, modules,
//! and the graph that connects them.
//!
//! A graph keeps its modules in a vector and names a module by its place in
//! it. Every wire and every automation lane names its source that way, so a
//! graph is well formed when all those places exist.

use crate::engine::schedule::{adjacency, closed, has_cycle, is_cycle, is_schedule, schedule};
use crate::gui::module_widgets::WidgetOutline;
use crate::scalar::Scalar;
use crate::text::same_text;
use std::rc::Rc;
use vstd::prelude::*;

verus! {

/// The kind of signal a jack carries.
#[derive(Clone, Copy, Debug, PartialEq, Eq, Structural)]
pub enum JackType {
    Pitch,
    Waveform,
    Audio,
    Trigger,
}

impl JackType {
    /// The jack type a descriptor names, if it names one.
    pub open spec fn named(name: Seq<char>) -> Option<JackType> {
        if name == "pitch"@ {
            Some(JackType::Pitch)
        } else if name == "waveform"@ {
            Some(JackType::Waveform)
        } else if name == "audio"@ {
            Some(JackType::Audio)
        } else if name == "trigger"@ {
            Some(JackType::Trigger)
        } else {
            None
        }
    }

    /// Reads a jack type from its name in a descriptor.
    pub fn from_str(input: &str) -> (typ: Result<JackType, ()>)
        ensures
            typ == match JackType::named(input@) {
                Some(t) => Ok::<JackType, ()>(t),
                None => Err::<JackType, ()>(()),
            },
    {
        if same_text(input, "pitch") {
            Ok(JackType::Pitch)
        } else if same_text(input, "waveform") {
            Ok(JackType::Waveform)
        } else if same_text(input, "audio") {
            Ok(JackType::Audio)
        } else if same_text(input, "trigger") {
            Ok(JackType::Trigger)
        } else {
            Err(())
        }
    }

    /// Name of the icon that stands for this type when a jack has none of its
    /// own.
    pub fn icon_name(&self) -> (name: &'static str)
        ensures
            name@ == match *self {
                JackType::Pitch => "base:pitch"@,
                JackType::Waveform => "base:waveform"@,
                JackType::Audio => "base:audio"@,
                JackType::Trigger => "base:trigger"@,
            },
    {
        match self {
            JackType::Pitch => "base:pitch",
            JackType::Waveform => "base:waveform",
            JackType::Audio => "base:audio",
            JackType::Trigger => "base:trigger",
        }
    }

    /// Number of built-in sources an unconnected input of this type can pick
    /// from.
    pub open spec fn num_defaults(self) -> nat {
        match self {
            JackType::Pitch => 1,
            JackType::Waveform => 4,
            JackType::Audio => 1,
            JackType::Trigger => 2,
        }
    }

    /// Number of built-in sources an unconnected input of this type can pick
    /// from.
    pub fn get_num_defaults(&self) -> (n: usize)
        ensures
            n == self.num_defaults(),
    {
        match self {
            JackType::Pitch => 1,
            JackType::Waveform => 4,
            JackType::Audio => 1,
            JackType::Trigger => 2,
        }
    }
}

/// An input or output of a module template.
pub struct IOJack {
    pub typ: JackType,
    pub icon_index: usize,
    pub custom_icon_index: Option<usize>,
    pub code_name: String,
    pub label: String,
    pub tooltip: String,
}

/// A jack as a value.
pub struct IOJackView {
    pub typ: JackType,
    pub icon_index: usize,
    pub custom_icon_index: Option<usize>,
    pub code_name: Seq<char>,
    pub label: Seq<char>,
    pub tooltip: Seq<char>,
}

impl View for IOJack {
    type V = IOJackView;

    open spec fn view(&self) -> IOJackView {
        IOJackView {
            typ: self.typ,
            icon_index: self.icon_index,
            custom_icon_index: self.custom_icon_index,
            code_name: self.code_name@,
            label: self.label@,
            tooltip: self.tooltip@,
        }
    }
}

impl IOJack {
    pub fn create(
        typ: JackType,
        icon_index: usize,
        custom_icon_index: Option<usize>,
        code_name: String,
        label: String,
        tooltip: String,
    ) -> (jack: IOJack)
        ensures
            jack == (IOJack { typ, icon_index, custom_icon_index, code_name, label, tooltip }),
    {
        IOJack { typ, icon_index, custom_icon_index, code_name, label, tooltip }
    }

    /// The icon to draw: the jack's own if it has one, else its type's.
    pub fn get_icon_index(&self) -> (icon: usize)
        ensures
            icon == match self.custom_icon_index {
                Some(custom) => custom,
                None => self.icon_index,
            },
    {
        match self.custom_icon_index {
            Some(custom) => custom,
            None => self.icon_index,
        }
    }
}

/// What every instance of one kind of module has in common.
pub struct ModuleTemplate {
    pub resource_name: String,
    pub label: String,
    pub category: String,
    pub tooltip: String,
    pub code_resource: String,
    pub size: (i32, i32),
    pub widget_outlines: Vec<WidgetOutline>,
    pub inputs: Vec<IOJack>,
    pub outputs: Vec<IOJack>,
    pub feedback_data_len: usize,
}

/// One source that drives a control: an output of a module, mapped onto a
/// part of the control's range.
#[derive(Clone, Copy, Debug)]
pub struct AutomationLane {
    pub connection: (usize, usize),
    pub range: (Scalar, Scalar),
}

/// A scalar parameter of a module.
pub struct Control {
    pub code_name: String,
    pub range: (Scalar, Scalar),
    pub value: Scalar,
    pub default: Scalar,
    pub suffix: String,
    pub automation: Vec<AutomationLane>,
}

/// A control as a value.
pub struct ControlView {
    pub code_name: Seq<char>,
    pub range: (Scalar, Scalar),
    pub value: Scalar,
    pub default: Scalar,
    pub suffix: Seq<char>,
    pub automation: Seq<AutomationLane>,
}

impl View for Control {
    type V = ControlView;

    open spec fn view(&self) -> ControlView {
        ControlView {
            code_name: self.code_name@,
            range: self.range,
            value: self.value,
            default: self.default,
            suffix: self.suffix@,
            automation: self.automation@,
        }
    }
}

impl ControlView {
    /// The value and the default lie in the range, and so does every end of
    /// every lane.
    pub open spec fn valid(self) -> bool {
        &&& self.range.0.le_spec(self.range.1)
        &&& self.value.within(self.range.0, self.range.1)
        &&& self.default.within(self.range.0, self.range.1)
        &&& forall|l: int|
            0 <= l < self.automation.len() ==> {
                &&& (#[trigger] self.automation[l]).range.0.within(self.range.0, self.range.1)
                &&& self.automation[l].range.1.within(self.range.0, self.range.1)
            }
    }

    /// The same control with its value and lanes as the template gave them.
    pub open spec fn reset(self) -> ControlView {
        ControlView { value: self.default, automation: Seq::empty(), ..self }
    }
}

impl Control {
    /// Whether `default` lies in `min ..= max`, so that the control can exist.
    pub open spec fn can_create(min: Scalar, max: Scalar, default: Scalar) -> bool {
        default.within(min, max)
    }

    /// A control at its default, with no automation.
    pub fn create(code_name: String, min: Scalar, max: Scalar, default: Scalar, suffix: String) -> (control:
        Control)
        ensures
            control@ == (ControlView {
                code_name: code_name@,
                range: (min, max),
                value: default,
                default,
                suffix: suffix@,
                automation: Seq::empty(),
            }),
            Control::can_create(min, max, default) ==> control@.valid(),
    {
        Control { code_name, range: (min, max), value: default, default, suffix, automation: Vec::new() }
    }

    /// A copy.
    pub fn duplicate(&self) -> (copy: Control)
        ensures
            copy@ == self@,
    {
        let mut automation: Vec<AutomationLane> = Vec::new();
        let mut i: usize = 0;
        while i < self.automation.len()
            invariant
                i <= self.automation.len(),
                automation@ == self.automation@.subrange(0, i as int),
            decreases self.automation.len() - i,
        {
            automation.push(self.automation[i]);
            i += 1;
            assert(automation@ =~= self.automation@.subrange(0, i as int));
        }
        assert(automation@ =~= self.automation@);
        Control {
            code_name: self.code_name.clone(),
            range: self.range,
            value: self.value,
            default: self.default,
            suffix: self.suffix.clone(),
            automation,
        }
    }

    /// Whether the control is valid.
    pub fn is_valid(&self) -> (ok: bool)
        ensures
            ok == self@.valid(),
    {
        let (min, max) = self.range;
        if !(min.le(max) && self.value.is_within(min, max) && self.default.is_within(min, max)) {
            return false;
        }
        let mut l: usize = 0;
        while l < self.automation.len()
            invariant
                l <= self.automation.len(),
                (min, max) == self.range,
                forall|j: int|
                    0 <= j < l ==> {
                        &&& (#[trigger] self.automation@[j]).range.0.within(min, max)
                        &&& self.automation@[j].range.1.within(min, max)
                    },
            decreases self.automation.len() - l,
        {
            let lane: AutomationLane = self.automation[l];
            if !(lane.range.0.is_within(min, max) && lane.range.1.is_within(min, max)) {
                assert(self@.automation[l as int] == lane);
                return false;
            }
            l += 1;
        }
        true
    }
}

/// A structured parameter of a module, encoded as text.
pub struct ComplexControl {
    pub code_name: String,
    pub value: String,
    pub default: String,
}

/// A complex control as a value.
pub struct ComplexControlView {
    pub code_name: Seq<char>,
    pub value: Seq<char>,
    pub default: Seq<char>,
}

impl View for ComplexControl {
    type V = ComplexControlView;

    open spec fn view(&self) -> ComplexControlView {
        ComplexControlView { code_name: self.code_name@, value: self.value@, default: self.default@ }
    }
}

impl ComplexControl {
    /// A copy.
    pub fn duplicate(&self) -> (copy: ComplexControl)
        ensures
            copy@ == self@,
    {
        ComplexControl {
            code_name: self.code_name.clone(),
            value: self.value.clone(),
            default: self.default.clone(),
        }
    }
}

/// Where an input takes its signal from.
#[derive(Clone, Copy, Debug, PartialEq, Eq, Structural)]
pub enum InputConnection {
    /// An output of a module of the same graph: the module's place, then the
    /// output's.
    Wire(usize, usize),
    /// One of the built-in sources of the input's type.
    Default(usize),
}

/// An instance of a module template.
pub struct Module {
    pub template: Rc<ModuleTemplate>,
    pub controls: Vec<Control>,
    pub complex_controls: Vec<ComplexControl>,
    pub inputs: Vec<InputConnection>,
    pub default_inputs: Vec<usize>,
    pub pos: (i32, i32),
}

/// A module as a value.
pub struct ModuleView {
    pub template: ModuleTemplate,
    pub controls: Seq<ControlView>,
    pub complex_controls: Seq<ComplexControlView>,
    pub inputs: Seq<InputConnection>,
    pub default_inputs: Seq<usize>,
    pub pos: (i32, i32),
}

/// The controls of a sequence, each as a value.
pub open spec fn control_views(controls: Seq<Control>) -> Seq<ControlView> {
    Seq::new(controls.len(), |c: int| controls[c]@)
}

/// The complex controls of a sequence, each as a value.
pub open spec fn complex_control_views(controls: Seq<ComplexControl>) -> Seq<ComplexControlView> {
    Seq::new(controls.len(), |c: int| controls[c]@)
}

impl View for Module {
    type V = ModuleView;

    open spec fn view(&self) -> ModuleView {
        ModuleView {
            template: *self.template,
            controls: control_views(self.controls@),
            complex_controls: complex_control_views(self.complex_controls@),
            inputs: self.inputs@,
            default_inputs: self.default_inputs@,
            pos: self.pos,
        }
    }
}

impl ModuleView {
    /// The module has one connection and one default per input of its
    /// template, and its controls are valid.
    pub open spec fn shaped(self) -> bool {
        &&& self.inputs.len() == self.template.inputs@.len()
        &&& self.default_inputs.len() == self.template.inputs@.len()
        &&& forall|c: int| 0 <= c < self.controls.len() ==> (#[trigger] self.controls[c]).valid()
    }

    /// No input is wired and no control is automated.
    pub open spec fn detached(self) -> bool {
        &&& forall|i: int| 0 <= i < self.inputs.len() ==> (#[trigger] self.inputs[i]) is Default
        &&& forall|c: int| 0 <= c < self.controls.len() ==> (#[trigger] self.controls[c]).automation.len() == 0
    }

    /// The module as its template makes it: inputs on their defaults, controls
    /// at their defaults, complex controls at theirs.
    pub open spec fn fresh(self) -> ModuleView {
        ModuleView {
            controls: Seq::new(self.controls.len(), |c: int| self.controls[c].reset()),
            complex_controls: Seq::new(
                self.complex_controls.len(),
                |c: int|
                    ComplexControlView {
                        value: self.complex_controls[c].default,
                        ..self.complex_controls[c]
                    },
            ),
            inputs: Seq::new(self.default_inputs.len(), |i: int| InputConnection::Default(self.default_inputs[i])),
            pos: (0, 0),
            ..self
        }
    }
}

/// Shares a template between its instances.
///
/// Wraps `Rc::clone`, which hands out another pointer to the same allocation:
/// the template behind the result is the one behind the argument.
#[verifier::external_body]
pub(crate) fn share(template: &Rc<ModuleTemplate>) -> (shared: Rc<ModuleTemplate>)
    ensures
        shared == *template,
{
    Rc::clone(template)
}

impl Module {
    /// A module of the given template with its inputs on the given defaults.
    pub fn create(
        template: Rc<ModuleTemplate>,
        controls: Vec<Control>,
        complex_controls: Vec<ComplexControl>,
        default_inputs: Vec<usize>,
    ) -> (module: Module)
        ensures
            module@ == (ModuleView {
                template: *template,
                controls: control_views(controls@),
                complex_controls: complex_control_views(complex_controls@),
                inputs: Seq::new(default_inputs@.len(), |i: int| InputConnection::Default(default_inputs@[i])),
                default_inputs: default_inputs@,
                pos: (0, 0),
            }),
    {
        let mut inputs: Vec<InputConnection> = Vec::new();
        let mut i: usize = 0;
        while i < default_inputs.len()
            invariant
                i <= default_inputs.len(),
                inputs@ == Seq::new(i as nat, |j: int| InputConnection::Default(default_inputs@[j])),
            decreases default_inputs.len() - i,
        {
            inputs.push(InputConnection::Default(default_inputs[i]));
            i += 1;
            assert(inputs@ =~= Seq::new(i as nat, |j: int| InputConnection::Default(default_inputs@[j])));
        }
        Module { template, controls, complex_controls, inputs, default_inputs, pos: (0, 0) }
    }

    /// Whether the module has its template's shape.
    pub fn is_shaped(&self) -> (ok: bool)
        ensures
            ok == self@.shaped(),
    {
        if self.inputs.len() != self.template.inputs.len() || self.default_inputs.len()
            != self.template.inputs.len() {
            return false;
        }
        let mut c: usize = 0;
        while c < self.controls.len()
            invariant
                c <= self.controls.len(),
                forall|j: int| 0 <= j < c ==> (#[trigger] self@.controls[j]).valid(),
            decreases self.controls.len() - c,
        {
            assert(self@.controls[c as int] == self.controls@[c as int]@);
            if !self.controls[c].is_valid() {
                return false;
            }
            c += 1;
        }
        true
    }

    /// Whether the module is as its template makes it: nothing wired,
    /// nothing automated, every control at its default, at the origin.
    pub fn is_fresh(&self) -> (ok: bool)
        ensures
            ok == (self@.fresh() == self@),
    {
        let ghost now = self@;
        let ghost made = self@.fresh();
        if self.pos.0 != 0 || self.pos.1 != 0 {
            return false;
        }
        if self.inputs.len() != self.default_inputs.len() {
            assert(made.inputs.len() != now.inputs.len());
            return false;
        }
        let mut i: usize = 0;
        while i < self.inputs.len()
            invariant
                i <= self.inputs.len(),
                self.inputs.len() == self.default_inputs.len(),
                now == self@,
                made == self@.fresh(),
                forall|j: int| 0 <= j < i ==> made.inputs[j] == now.inputs[j],
            decreases self.inputs.len() - i,
        {
            let same: bool = match self.inputs[i] {
                InputConnection::Default(option) => option == self.default_inputs[i],
                InputConnection::Wire(_, _) => false,
            };
            if !same {
                assert(made.inputs[i as int] != now.inputs[i as int]);
                return false;
            }
            i += 1;
        }
        let mut c: usize = 0;
        while c < self.controls.len()
            invariant
                c <= self.controls.len(),
                now == self@,
                made == self@.fresh(),
                forall|j: int| 0 <= j < c ==> made.controls[j] == now.controls[j],
            decreases self.controls.len() - c,
        {
            let control: &Control = &self.controls[c];
            assert(now.controls[c as int] == control@);
            if control.value.to_bits() != control.default.to_bits() || control.automation.len() != 0 {
                assert(made.controls[c as int] != now.controls[c as int]);
                return false;
            }
            assert(control@.automation =~= Seq::empty());
            c += 1;
        }
        let mut k: usize = 0;
        while k < self.complex_controls.len()
            invariant
                k <= self.complex_controls.len(),
                now == self@,
                made == self@.fresh(),
                forall|j: int| 0 <= j < k ==> made.complex_controls[j] == now.complex_controls[j],
            decreases self.complex_controls.len() - k,
        {
            let control: &ComplexControl = &self.complex_controls[k];
            assert(now.complex_controls[k as int] == control@);
            if !same_text(control.value.as_str(), control.default.as_str()) {
                assert(made.complex_controls[k as int] != now.complex_controls[k as int]);
                return false;
            }
            k += 1;
        }
        assert(made.inputs =~= now.inputs);
        assert(made.controls =~= now.controls);
        assert(made.complex_controls =~= now.complex_controls);
        true
    }

    /// A new instance of the same template, as the template makes it: nothing
    /// wired, nothing automated, every control at its default.
    pub fn instantiate(&self) -> (module: Module)
        ensures
            module@ == self@.fresh(),
    {
        let mut controls: Vec<Control> = Vec::new();
        let mut c: usize = 0;
        while c < self.controls.len()
            invariant
                c <= self.controls.len(),
                controls@.len() == c,
                forall|j: int| 0 <= j < c ==> (#[trigger] controls@[j])@ == self.controls@[j]@.reset(),
            decreases self.controls.len() - c,
        {
            let source: &Control = &self.controls[c];
            let control: Control = Control::create(
                source.code_name.clone(),
                source.range.0,
                source.range.1,
                source.default,
                source.suffix.clone(),
            );
            controls.push(control);
            c += 1;
        }
        let mut complex_controls: Vec<ComplexControl> = Vec::new();
        let mut x: usize = 0;
        while x < self.complex_controls.len()
            invariant
                x <= self.complex_controls.len(),
                complex_controls@.len() == x,
                forall|j: int|
                    0 <= j < x ==> (#[trigger] complex_controls@[j])@ == (ComplexControlView {
                        value: self.complex_controls@[j]@.default,
                        ..self.complex_controls@[j]@
                    }),
            decreases self.complex_controls.len() - x,
        {
            let source: &ComplexControl = &self.complex_controls[x];
            complex_controls.push(
                ComplexControl {
                    code_name: source.code_name.clone(),
                    value: source.default.clone(),
                    default: source.default.clone(),
                },
            );
            x += 1;
        }
        let mut default_inputs: Vec<usize> = Vec::new();
        let mut i: usize = 0;
        while i < self.default_inputs.len()
            invariant
                i <= self.default_inputs.len(),
                default_inputs@ == self.default_inputs@.subrange(0, i as int),
            decreases self.default_inputs.len() - i,
        {
            default_inputs.push(self.default_inputs[i]);
            i += 1;
            assert(default_inputs@ =~= self.default_inputs@.subrange(0, i as int));
        }
        assert(default_inputs@ =~= self.default_inputs@);
        let module: Module = Module::create(share(&self.template), controls, complex_controls, default_inputs);
        assert(module@.controls =~= self@.fresh().controls);
        assert(module@.complex_controls =~= self@.fresh().complex_controls);
        assert(module@.inputs =~= self@.fresh().inputs);
        module
    }
}

impl ModuleView {
    /// The module with one of its inputs connected anew.
    pub open spec fn with_input(self, input: int, connection: InputConnection) -> ModuleView {
        ModuleView { inputs: self.inputs.update(input, connection), ..self }
    }

    /// The module with one of its controls replaced.
    pub open spec fn with_control(self, control: int, by: ControlView) -> ModuleView {
        ModuleView { controls: self.controls.update(control, by), ..self }
    }

    /// The module as it is once the module at place `removed` has left the
    /// graph: inputs wired to it fall back to their defaults, lanes fed by it
    /// are dropped, and places above it move down by one.
    pub open spec fn without(self, removed: usize) -> ModuleView {
        ModuleView {
            inputs: Seq::new(
                self.inputs.len(),
                |i: int| input_without(self.inputs[i], self.default_inputs[i], removed),
            ),
            controls: Seq::new(self.controls.len(), |c: int| self.controls[c].without(removed)),
            ..self
        }
    }
}

impl ControlView {
    /// The control with one more lane.
    pub open spec fn with_lane(self, lane: AutomationLane) -> ControlView {
        ControlView { automation: self.automation.push(lane), ..self }
    }

    /// The control with one lane less.
    pub open spec fn without_lane(self, lane: int) -> ControlView {
        ControlView { automation: self.automation.remove(lane), ..self }
    }

    /// The control set to a value.
    pub open spec fn with_value(self, value: Scalar) -> ControlView {
        ControlView { value, ..self }
    }

    /// The control once the module at place `removed` has left the graph.
    pub open spec fn without(self, removed: usize) -> ControlView {
        ControlView { automation: lanes_without(self.automation, removed), ..self }
    }
}

/// A place in the graph after the module at place `removed` has left.
pub open spec fn shifted(place: usize, removed: usize) -> usize {
    if place > removed {
        (place - 1) as usize
    } else {
        place
    }
}

/// A connection after the module at place `removed` has left.
pub open spec fn input_without(connection: InputConnection, fallback: usize, removed: usize) -> InputConnection {
    match connection {
        InputConnection::Wire(module, output) => if module == removed {
            InputConnection::Default(fallback)
        } else {
            InputConnection::Wire(shifted(module, removed), output)
        },
        InputConnection::Default(option) => InputConnection::Default(option),
    }
}

/// A lane after the module at place `removed`, which does not feed it, has
/// left.
pub open spec fn lane_shifted(lane: AutomationLane, removed: usize) -> AutomationLane {
    AutomationLane { connection: (shifted(lane.connection.0, removed), lane.connection.1), range: lane.range }
}

/// The lanes that the module at place `removed` does not feed, in order, after
/// it has left.
pub open spec fn lanes_without(lanes: Seq<AutomationLane>, removed: usize) -> Seq<AutomationLane>
    decreases lanes.len(),
{
    if lanes.len() == 0 {
        Seq::empty()
    } else if lanes.last().connection.0 == removed {
        lanes_without(lanes.drop_last(), removed)
    } else {
        lanes_without(lanes.drop_last(), removed).push(lane_shifted(lanes.last(), removed))
    }
}

/// The graph after the module at place `removed` has left.
pub open spec fn without_module(g: Seq<ModuleView>, removed: usize) -> Seq<ModuleView> {
    Seq::new(
        (g.len() - 1) as nat,
        |m: int|
            g[if m < removed {
                m
            } else {
                m + 1
            }].without(removed),
    )
}

/// Output `output` of the module at place `module` exists.
pub open spec fn output_exists(g: Seq<ModuleView>, module: usize, output: usize) -> bool {
    module < g.len() && output < g[module as int].template.outputs@.len()
}

/// The connection names an output that exists, or a built-in source.
pub open spec fn input_ok(g: Seq<ModuleView>, connection: InputConnection) -> bool {
    match connection {
        InputConnection::Wire(module, output) => output_exists(g, module, output),
        InputConnection::Default(_) => true,
    }
}

/// The lane is fed by an output that exists.
pub open spec fn lane_ok(g: Seq<ModuleView>, lane: AutomationLane) -> bool {
    output_exists(g, lane.connection.0, lane.connection.1)
}

/// The module has its template's shape, and all that feeds it exists.
pub open spec fn module_ok(g: Seq<ModuleView>, module: ModuleView) -> bool {
    &&& module.shaped()
    &&& forall|i: int| 0 <= i < module.inputs.len() ==> input_ok(g, #[trigger] module.inputs[i])
    &&& forall|c: int, l: int|
        0 <= c < module.controls.len() && 0 <= l < module.controls[c].automation.len() ==> lane_ok(
            g,
            #[trigger] module.controls[c].automation[l],
        )
}

/// Every module has its template's shape, and no wire or lane dangles.
pub open spec fn well_formed(g: Seq<ModuleView>) -> bool {
    forall|m: int| 0 <= m < g.len() ==> module_ok(g, #[trigger] g[m])
}

/// The modules that the given inputs are wired to, in order.
pub open spec fn wire_sources(inputs: Seq<InputConnection>) -> Seq<usize>
    decreases inputs.len(),
{
    if inputs.len() == 0 {
        Seq::empty()
    } else {
        match inputs.last() {
            InputConnection::Wire(module, _) => wire_sources(inputs.drop_last()).push(module),
            InputConnection::Default(_) => wire_sources(inputs.drop_last()),
        }
    }
}

/// The modules that feed the given lanes, in order.
pub open spec fn lane_sources(lanes: Seq<AutomationLane>) -> Seq<usize>
    decreases lanes.len(),
{
    if lanes.len() == 0 {
        Seq::empty()
    } else {
        lane_sources(lanes.drop_last()).push(lanes.last().connection.0)
    }
}

/// The modules that automate the given controls, in order.
pub open spec fn control_sources(controls: Seq<ControlView>) -> Seq<usize>
    decreases controls.len(),
{
    if controls.len() == 0 {
        Seq::empty()
    } else {
        control_sources(controls.drop_last()) + lane_sources(controls.last().automation)
    }
}

/// The modules a module reads from: those its inputs are wired to, then those
/// that automate its controls.
pub open spec fn sources(module: ModuleView) -> Seq<usize> {
    wire_sources(module.inputs) + control_sources(module.controls)
}

/// For each module of the graph, the modules it reads from.
pub open spec fn dependencies(g: Seq<ModuleView>) -> Seq<Seq<usize>> {
    Seq::new(g.len(), |m: int| sources(g[m]))
}

/// No module reads, directly or through others, from itself.
pub open spec fn acyclic(g: Seq<ModuleView>) -> bool {
    !has_cycle(dependencies(g))
}

/// The modules of a sequence, each as a value.
pub open spec fn module_views(modules: Seq<Module>) -> Seq<ModuleView> {
    Seq::new(modules.len(), |m: int| modules[m]@)
}

/// A feedback loop found in a graph: a ring of modules, by their places, in
/// which each reads from the next and the last reads from the first.
#[derive(Debug)]
pub struct CyclicGraphError {
    pub ring: Vec<usize>,
}

/// A dataflow graph of modules.
pub struct ModuleGraph {
    pub modules: Vec<Module>,
}

impl View for ModuleGraph {
    type V = Seq<ModuleView>;

    open spec fn view(&self) -> Seq<ModuleView> {
        module_views(self.modules@)
    }
}

proof fn lemma_grown_graph(g: Seq<ModuleView>, module: ModuleView)
    requires
        well_formed(g),
        module.shaped(),
        module.detached(),
    ensures
        well_formed(g.push(module)),
{
    let h = g.push(module);
    assert forall|m: int| 0 <= m < h.len() implies module_ok(h, #[trigger] h[m]) by {
        if m < g.len() {
            assert(module_ok(g, g[m]));
            let mv = g[m];
            assert forall|i: int| 0 <= i < mv.inputs.len() implies input_ok(h, #[trigger] mv.inputs[i]) by {
                assert(input_ok(g, mv.inputs[i]));
                match mv.inputs[i] {
                    InputConnection::Wire(src, out) => {
                        assert(h[src as int] == g[src as int]);
                    },
                    InputConnection::Default(_) => {},
                }
            }
            assert forall|c: int, l: int|
                0 <= c < mv.controls.len() && 0 <= l < mv.controls[c].automation.len() implies lane_ok(
                h,
                #[trigger] mv.controls[c].automation[l],
            ) by {
                let lane = mv.controls[c].automation[l];
                assert(lane_ok(g, lane));
                assert(h[lane.connection.0 as int] == g[lane.connection.0 as int]);
            }
        }
    }
}

/// Replacing a module by one of the same template keeps every output in place.
proof fn lemma_same_outputs(g: Seq<ModuleView>, at: int, by: ModuleView)
    requires
        well_formed(g),
        0 <= at < g.len(),
        by.template == g[at].template,
        module_ok(g, by),
    ensures
        well_formed(g.update(at, by)),
{
    let h = g.update(at, by);
    assert forall|module: usize, output: usize| output_exists(g, module, output) implies output_exists(
        h,
        module,
        output,
    ) by {}
    assert forall|m: int| 0 <= m < h.len() implies module_ok(h, #[trigger] h[m]) by {
        let mv = h[m];
        if m != at {
            assert(mv == g[m]);
        }
        assert(module_ok(g, mv));
        assert forall|i: int| 0 <= i < mv.inputs.len() implies input_ok(h, #[trigger] mv.inputs[i]) by {
            assert(input_ok(g, mv.inputs[i]));
        }
        assert forall|c: int, l: int|
            0 <= c < mv.controls.len() && 0 <= l < mv.controls[c].automation.len() implies lane_ok(
            h,
            #[trigger] mv.controls[c].automation[l],
        ) by {
            assert(lane_ok(g, mv.controls[c].automation[l]));
        }
    }
}

impl ModuleGraph {
    /// A graph without modules.
    pub fn new() -> (graph: ModuleGraph)
        ensures
            graph@ == Seq::<ModuleView>::empty(),
            well_formed(graph@),
    {
        let graph: ModuleGraph = ModuleGraph { modules: Vec::new() };
        assert(graph@ =~= Seq::<ModuleView>::empty());
        graph
    }

    /// Number of modules.
    pub fn len(&self) -> (n: usize)
        ensures
            n == self@.len(),
    {
        self.modules.len()
    }

    /// The module at a place.
    pub fn borrow_module(&self, place: usize) -> (module: Option<&Module>)
        ensures
            match module {
                Some(m) => place < self@.len() && m@ == self@[place as int],
                None => place >= self@.len(),
            },
    {
        if place < self.modules.len() {
            Some(&self.modules[place])
        } else {
            None
        }
    }

    /// Adds a module that nothing is connected to yet, and returns its place.
    pub fn add_module(&mut self, module: Module) -> (place: usize)
        requires
            well_formed(old(self)@),
            module@.shaped(),
            module@.detached(),
        ensures
            place == old(self)@.len(),
            final(self)@ == old(self)@.push(module@),
            well_formed(final(self)@),
    {
        let place: usize = self.modules.len();
        proof {
            lemma_grown_graph(self@, module@);
        }
        self.modules.push(module);
        assert(self@ =~= old(self)@.push(module@));
        place
    }

    /// Wires output `output` of the module at `source` to input `input` of the
    /// module at `target`, in place of whatever fed that input before.
    pub fn add_connection(&mut self, source: usize, output: usize, target: usize, input: usize)
        requires
            well_formed(old(self)@),
            output_exists(old(self)@, source, output),
            target < old(self)@.len(),
            input < old(self)@[target as int].inputs.len(),
        ensures
            final(self)@ == old(self)@.update(
                target as int,
                old(self)@[target as int].with_input(input as int, InputConnection::Wire(source, output)),
            ),
            well_formed(final(self)@),
    {
        let ghost g = self@;
        let ghost by = g[target as int].with_input(input as int, InputConnection::Wire(source, output));
        proof {
            assert(module_ok(g, g[target as int]));
            assert forall|i: int| 0 <= i < by.inputs.len() implies input_ok(g, #[trigger] by.inputs[i]) by {
                if i != input {
                    assert(input_ok(g, g[target as int].inputs[i]));
                }
            }
            lemma_same_outputs(g, target as int, by);
        }
        self.modules[target].inputs[input] = InputConnection::Wire(source, output);
        assert(self@ =~= g.update(target as int, by));
    }

    /// Takes the wire, if any, off input `input` of the module at `target`; the
    /// input goes back to its default.
    pub fn remove_connection(&mut self, target: usize, input: usize)
        requires
            well_formed(old(self)@),
            target < old(self)@.len(),
            input < old(self)@[target as int].inputs.len(),
        ensures
            final(self)@ == old(self)@.update(
                target as int,
                old(self)@[target as int].with_input(
                    input as int,
                    InputConnection::Default(old(self)@[target as int].default_inputs[input as int]),
                ),
            ),
            well_formed(final(self)@),
    {
        let ghost g = self@;
        proof {
            assert(module_ok(g, g[target as int]));
        }
        let fallback: usize = self.modules[target].default_inputs[input];
        let ghost by = g[target as int].with_input(input as int, InputConnection::Default(fallback));
        proof {
            assert forall|i: int| 0 <= i < by.inputs.len() implies input_ok(g, #[trigger] by.inputs[i]) by {
                if i != input {
                    assert(input_ok(g, g[target as int].inputs[i]));
                }
            }
            lemma_same_outputs(g, target as int, by);
        }
        self.modules[target].inputs[input] = InputConnection::Default(fallback);
        assert(self@ =~= g.update(target as int, by));
    }

    /// Lets an output drive a control over part of the control's range.
    pub fn add_automation(&mut self, target: usize, control: usize, lane: AutomationLane)
        requires
            well_formed(old(self)@),
            lane_ok(old(self)@, lane),
            target < old(self)@.len(),
            control < old(self)@[target as int].controls.len(),
            lane.range.0.within(
                old(self)@[target as int].controls[control as int].range.0,
                old(self)@[target as int].controls[control as int].range.1,
            ),
            lane.range.1.within(
                old(self)@[target as int].controls[control as int].range.0,
                old(self)@[target as int].controls[control as int].range.1,
            ),
        ensures
            final(self)@ == old(self)@.update(
                target as int,
                old(self)@[target as int].with_control(
                    control as int,
                    old(self)@[target as int].controls[control as int].with_lane(lane),
                ),
            ),
            well_formed(final(self)@),
    {
        let ghost g = self@;
        let ghost was = g[target as int].controls[control as int];
        let ghost by = g[target as int].with_control(control as int, was.with_lane(lane));
        proof {
            assert(module_ok(g, g[target as int]));
            assert(was.valid());
            assert(was.with_lane(lane).valid()) by {
                assert forall|l: int| 0 <= l < was.with_lane(lane).automation.len() implies {
                    &&& (#[trigger] was.with_lane(lane).automation[l]).range.0.within(was.range.0, was.range.1)
                    &&& was.with_lane(lane).automation[l].range.1.within(was.range.0, was.range.1)
                } by {
                    if l < was.automation.len() {
                        assert(was.automation[l].range.0.within(was.range.0, was.range.1));
                    }
                }
            }
            assert forall|c: int| 0 <= c < by.controls.len() implies (#[trigger] by.controls[c]).valid() by {
                if c != control {
                    assert(g[target as int].controls[c].valid());
                }
            }
            assert forall|c: int, l: int|
                0 <= c < by.controls.len() && 0 <= l < by.controls[c].automation.len() implies lane_ok(
                g,
                #[trigger] by.controls[c].automation[l],
            ) by {
                if c != control {
                    assert(lane_ok(g, g[target as int].controls[c].automation[l]));
                } else if l < was.automation.len() {
                    assert(lane_ok(g, g[target as int].controls[c].automation[l]));
                }
            }
            assert forall|i: int| 0 <= i < by.inputs.len() implies input_ok(g, #[trigger] by.inputs[i]) by {
                assert(input_ok(g, g[target as int].inputs[i]));
            }
            lemma_same_outputs(g, target as int, by);
        }
        self.modules[target].controls[control].automation.push(lane);
        assert(self@[target as int].controls =~= by.controls);
        assert(self@ =~= g.update(target as int, by));
    }

    /// Takes one lane off a control.
    pub fn remove_automation(&mut self, target: usize, control: usize, lane: usize)
        requires
            well_formed(old(self)@),
            target < old(self)@.len(),
            control < old(self)@[target as int].controls.len(),
            lane < old(self)@[target as int].controls[control as int].automation.len(),
        ensures
            final(self)@ == old(self)@.update(
                target as int,
                old(self)@[target as int].with_control(
                    control as int,
                    old(self)@[target as int].controls[control as int].without_lane(lane as int),
                ),
            ),
            well_formed(final(self)@),
    {
        let ghost g = self@;
        let ghost was = g[target as int].controls[control as int];
        let ghost by = g[target as int].with_control(control as int, was.without_lane(lane as int));
        proof {
            assert(module_ok(g, g[target as int]));
            assert(was.valid());
            assert(was.without_lane(lane as int).valid()) by {
                assert forall|l: int| 0 <= l < was.without_lane(lane as int).automation.len() implies {
                    &&& (#[trigger] was.without_lane(lane as int).automation[l]).range.0.within(
                        was.range.0,
                        was.range.1,
                    )
                    &&& was.without_lane(lane as int).automation[l].range.1.within(was.range.0, was.range.1)
                } by {
                    if l < lane {
                        assert(was.automation[l].range.0.within(was.range.0, was.range.1));
                    } else {
                        assert(was.automation[l + 1].range.0.within(was.range.0, was.range.1));
                    }
                }
            }
            assert forall|c: int| 0 <= c < by.controls.len() implies (#[trigger] by.controls[c]).valid() by {
                if c != control {
                    assert(g[target as int].controls[c].valid());
                }
            }
            assert forall|c: int, l: int|
                0 <= c < by.controls.len() && 0 <= l < by.controls[c].automation.len() implies lane_ok(
                g,
                #[trigger] by.controls[c].automation[l],
            ) by {
                if c != control {
                    assert(lane_ok(g, g[target as int].controls[c].automation[l]));
                } else if l < lane {
                    assert(lane_ok(g, g[target as int].controls[c].automation[l]));
                } else {
                    assert(lane_ok(g, g[target as int].controls[c].automation[l + 1]));
                }
            }
            assert forall|i: int| 0 <= i < by.inputs.len() implies input_ok(g, #[trigger] by.inputs[i]) by {
                assert(input_ok(g, g[target as int].inputs[i]));
            }
            lemma_same_outputs(g, target as int, by);
        }
        self.modules[target].controls[control].automation.remove(lane);
        assert(self@[target as int].controls =~= by.controls);
        assert(self@ =~= g.update(target as int, by));
    }

    /// Sets a control to a value of its range.
    pub fn set_control_value(&mut self, target: usize, control: usize, value: Scalar)
        requires
            well_formed(old(self)@),
            target < old(self)@.len(),
            control < old(self)@[target as int].controls.len(),
            value.within(
                old(self)@[target as int].controls[control as int].range.0,
                old(self)@[target as int].controls[control as int].range.1,
            ),
        ensures
            final(self)@ == old(self)@.update(
                target as int,
                old(self)@[target as int].with_control(
                    control as int,
                    old(self)@[target as int].controls[control as int].with_value(value),
                ),
            ),
            well_formed(final(self)@),
    {
        let ghost g = self@;
        let ghost was = g[target as int].controls[control as int];
        let ghost by = g[target as int].with_control(control as int, was.with_value(value));
        proof {
            assert(module_ok(g, g[target as int]));
            assert(was.valid());
            assert(was.with_value(value).valid()) by {
                assert forall|l: int| 0 <= l < was.automation.len() implies {
                    &&& (#[trigger] was.with_value(value).automation[l]).range.0.within(was.range.0, was.range.1)
                    &&& was.with_value(value).automation[l].range.1.within(was.range.0, was.range.1)
                } by {
                    assert(was.automation[l].range.0.within(was.range.0, was.range.1));
                }
            }
            assert forall|c: int| 0 <= c < by.controls.len() implies (#[trigger] by.controls[c]).valid() by {
                if c != control {
                    assert(g[target as int].controls[c].valid());
                }
            }
            assert forall|c: int, l: int|
                0 <= c < by.controls.len() && 0 <= l < by.controls[c].automation.len() implies lane_ok(
                g,
                #[trigger] by.controls[c].automation[l],
            ) by {
                assert(lane_ok(g, g[target as int].controls[c].automation[l]));
            }
            assert forall|i: int| 0 <= i < by.inputs.len() implies input_ok(g, #[trigger] by.inputs[i]) by {
                assert(input_ok(g, g[target as int].inputs[i]));
            }
            lemma_same_outputs(g, target as int, by);
        }
        self.modules[target].controls[control].value = value;
        assert(self@[target as int].controls =~= by.controls);
        assert(self@ =~= g.update(target as int, by));
    }
}

impl Module {
    /// The places of the modules this one reads from: those its inputs are
    /// wired to, then those that automate its controls.
    fn read_places(&self, bound: usize) -> (list: Vec<usize>)
        requires
            forall|i: int|
                0 <= i < self@.inputs.len() ==> match #[trigger] self@.inputs[i] {
                    InputConnection::Wire(src, _) => src < bound,
                    InputConnection::Default(_) => true,
                },
            forall|c: int, l: int|
                0 <= c < self@.controls.len() && 0 <= l < self@.controls[c].automation.len() ==> (
                #[trigger] self@.controls[c].automation[l]).connection.0 < bound,
        ensures
            list@ == sources(self@),
            forall|k: int| 0 <= k < list@.len() ==> list@[k] < bound,
    {
        let mut list: Vec<usize> = Vec::new();
        let mut i: usize = 0;
        while i < self.inputs.len()
            invariant
                i <= self.inputs.len(),
                list@ == wire_sources(self.inputs@.subrange(0, i as int)),
                forall|k: int| 0 <= k < list@.len() ==> list@[k] < bound,
                forall|i: int|
                    0 <= i < self@.inputs.len() ==> match #[trigger] self@.inputs[i] {
                        InputConnection::Wire(src, _) => src < bound,
                        InputConnection::Default(_) => true,
                    },
            decreases self.inputs.len() - i,
        {
            proof {
                assert(self.inputs@.subrange(0, i + 1).drop_last() =~= self.inputs@.subrange(0, i as int));
                assert(self.inputs@.subrange(0, i + 1).last() == self@.inputs[i as int]);
            }
            match self.inputs[i] {
                InputConnection::Wire(src, _) => {
                    list.push(src);
                },
                InputConnection::Default(_) => {},
            }
            i += 1;
        }
        assert(self.inputs@.subrange(0, self.inputs@.len() as int) =~= self.inputs@);
        let ghost wired = list@;
        let ghost views = self@.controls;
        let mut c: usize = 0;
        assert(views.subrange(0, 0) =~= Seq::<ControlView>::empty());
        assert(list@ =~= wired + control_sources(views.subrange(0, 0)));
        while c < self.controls.len()
            invariant
                c <= self.controls.len(),
                views == self@.controls,
                list@ == wired + control_sources(views.subrange(0, c as int)),
                forall|k: int| 0 <= k < list@.len() ==> list@[k] < bound,
                forall|c: int, l: int|
                    0 <= c < self@.controls.len() && 0 <= l < self@.controls[c].automation.len() ==> (
                    #[trigger] self@.controls[c].automation[l]).connection.0 < bound,
            decreases self.controls.len() - c,
        {
            let control: &Control = &self.controls[c];
            let ghost before = list@;
            let ghost lanes = control.automation@;
            assert(lanes == views[c as int].automation);
            let mut l: usize = 0;
            assert(lanes.subrange(0, 0) =~= Seq::<AutomationLane>::empty());
            assert(list@ =~= before + lane_sources(lanes.subrange(0, 0)));
            while l < control.automation.len()
                invariant
                    l <= control.automation.len(),
                    lanes == control.automation@,
                    c < self.controls.len(),
                    lanes == self@.controls[c as int].automation,
                    list@ == before + lane_sources(lanes.subrange(0, l as int)),
                    forall|k: int| 0 <= k < list@.len() ==> list@[k] < bound,
                    forall|c: int, l: int|
                        0 <= c < self@.controls.len() && 0 <= l < self@.controls[c].automation.len() ==> (
                        #[trigger] self@.controls[c].automation[l]).connection.0 < bound,
                decreases control.automation.len() - l,
            {
                proof {
                    assert(lanes.subrange(0, l + 1).drop_last() =~= lanes.subrange(0, l as int));
                    assert(lanes.subrange(0, l + 1).last() == lanes[l as int]);
                    assert(self@.controls[c as int].automation[l as int].connection.0 < bound);
                    assert((before + lane_sources(lanes.subrange(0, l as int))).push(lanes[l as int].connection.0)
                        =~= before + lane_sources(lanes.subrange(0, l + 1)));
                }
                list.push(control.automation[l].connection.0);
                l += 1;
            }
            proof {
                assert(lanes.subrange(0, lanes.len() as int) =~= lanes);
                assert(views.subrange(0, c + 1).drop_last() =~= views.subrange(0, c as int));
                assert(views.subrange(0, c + 1).last() == views[c as int]);
                assert(list@ =~= wired + control_sources(views.subrange(0, c + 1)));
            }
            c += 1;
        }
        assert(views.subrange(0, views.len() as int) =~= views);
        list
    }
}

impl ModuleGraph {
    /// For each module, the places of the modules it reads from.
    pub fn dependencies(&self) -> (deps: Vec<Vec<usize>>)
        requires
            well_formed(self@),
        ensures
            adjacency(&deps) == dependencies(self@),
            closed(adjacency(&deps)),
    {
        let n: usize = self.modules.len();
        let mut deps: Vec<Vec<usize>> = Vec::new();
        let mut m: usize = 0;
        while m < n
            invariant
                m <= n,
                n == self.modules.len(),
                well_formed(self@),
                deps@.len() == m,
                forall|j: int| 0 <= j < m ==> (#[trigger] deps@[j])@ == sources(self@[j]),
                forall|j: int, k: int| 0 <= j < m && 0 <= k < deps@[j]@.len() ==> (#[trigger] deps@[j]@[k]) < n,
            decreases n - m,
        {
            let module: &Module = &self.modules[m];
            proof {
                assert(module@ == self@[m as int]);
                assert(module_ok(self@, self@[m as int]));
                assert forall|i: int| 0 <= i < module@.inputs.len() implies match #[trigger] module@.inputs[i] {
                    InputConnection::Wire(src, _) => src < n,
                    InputConnection::Default(_) => true,
                } by {
                    assert(input_ok(self@, module@.inputs[i]));
                }
                assert forall|c: int, l: int|
                    0 <= c < module@.controls.len() && 0 <= l < module@.controls[c].automation.len() implies (
                #[trigger] module@.controls[c].automation[l]).connection.0 < n by {
                    assert(lane_ok(self@, module@.controls[c].automation[l]));
                }
            }
            let list: Vec<usize> = module.read_places(n);
            deps.push(list);
            m += 1;
        }
        assert(adjacency(&deps) =~= dependencies(self@));
        deps
    }

    /// Checks that no module reads, directly or through others, from itself.
    ///
    /// On success the result is an order in which the modules can run: every
    /// module comes after all the modules it reads from. On failure it is the
    /// first feedback loop that a depth-first search from place 0 upwards
    /// closes.
    pub fn validate_acyclic(&self) -> (result: Result<Vec<usize>, CyclicGraphError>)
        requires
            well_formed(self@),
        ensures
            match result {
                Ok(order) => is_schedule(dependencies(self@), order@),
                Err(error) => is_cycle(dependencies(self@), error.ring@),
            },
            result.is_ok() <==> acyclic(self@),
    {
        let deps: Vec<Vec<usize>> = self.dependencies();
        match schedule(&deps) {
            Ok(order) => Ok(order),
            Err(ring) => Err(CyclicGraphError { ring }),
        }
    }
}

proof fn lemma_output_survives(g: Seq<ModuleView>, removed: usize, module: usize, output: usize)
    requires
        removed < g.len(),
        module != removed,
        output_exists(g, module, output),
    ensures
        output_exists(without_module(g, removed), shifted(module, removed), output),
{
    let h = without_module(g, removed);
    let to = shifted(module, removed);
    assert(h[to as int].template == g[module as int].template);
}

proof fn lemma_lanes_without(
    g: Seq<ModuleView>,
    lanes: Seq<AutomationLane>,
    removed: usize,
    low: Scalar,
    high: Scalar,
)
    requires
        removed < g.len(),
        forall|l: int|
            0 <= l < lanes.len() ==> {
                &&& lane_ok(g, #[trigger] lanes[l])
                &&& lanes[l].range.0.within(low, high)
                &&& lanes[l].range.1.within(low, high)
            },
    ensures
        forall|l: int|
            0 <= l < lanes_without(lanes, removed).len() ==> {
                &&& lane_ok(without_module(g, removed), #[trigger] lanes_without(lanes, removed)[l])
                &&& lanes_without(lanes, removed)[l].range.0.within(low, high)
                &&& lanes_without(lanes, removed)[l].range.1.within(low, high)
            },
    decreases lanes.len(),
{
    if lanes.len() > 0 {
        let rest = lanes.drop_last();
        assert forall|l: int| 0 <= l < rest.len() implies {
            &&& lane_ok(g, #[trigger] rest[l])
            &&& rest[l].range.0.within(low, high)
            &&& rest[l].range.1.within(low, high)
        } by {
            assert(rest[l] == lanes[l]);
        }
        lemma_lanes_without(g, rest, removed, low, high);
        let last = lanes.last();
        assert(lane_ok(g, lanes[lanes.len() - 1]));
        if last.connection.0 != removed {
            lemma_output_survives(g, removed, last.connection.0, last.connection.1);
        }
        let kept = lanes_without(lanes, removed);
        let before = lanes_without(rest, removed);
        assert forall|l: int| 0 <= l < kept.len() implies {
            &&& lane_ok(without_module(g, removed), #[trigger] kept[l])
            &&& kept[l].range.0.within(low, high)
            &&& kept[l].range.1.within(low, high)
        } by {
            if l < before.len() {
                assert(kept[l] == before[l]);
            }
        }
    }
}

/// Taking a module out of a well-formed graph leaves a well-formed graph.
pub proof fn lemma_without_module(g: Seq<ModuleView>, removed: usize)
    requires
        well_formed(g),
        removed < g.len(),
    ensures
        well_formed(without_module(g, removed)),
{
    let h = without_module(g, removed);
    assert forall|m: int| 0 <= m < h.len() implies module_ok(h, #[trigger] h[m]) by {
        let from = if m < removed {
            m
        } else {
            m + 1
        };
        let was = g[from];
        let now = h[m];
        assert(now == was.without(removed));
        assert(module_ok(g, was));
        assert forall|c: int| 0 <= c < now.controls.len() implies (#[trigger] now.controls[c]).valid() by {
            let control = was.controls[c];
            assert(control.valid());
            assert forall|l: int| 0 <= l < control.automation.len() implies {
                &&& lane_ok(g, #[trigger] control.automation[l])
                &&& control.automation[l].range.0.within(control.range.0, control.range.1)
                &&& control.automation[l].range.1.within(control.range.0, control.range.1)
            } by {
                assert(lane_ok(g, was.controls[c].automation[l]));
            }
            lemma_lanes_without(g, control.automation, removed, control.range.0, control.range.1);
        }
        assert forall|i: int| 0 <= i < now.inputs.len() implies input_ok(h, #[trigger] now.inputs[i]) by {
            assert(input_ok(g, was.inputs[i]));
            match was.inputs[i] {
                InputConnection::Wire(src, out) => {
                    if src != removed {
                        lemma_output_survives(g, removed, src, out);
                    }
                },
                InputConnection::Default(_) => {},
            }
        }
        assert forall|c: int, l: int|
            0 <= c < now.controls.len() && 0 <= l < now.controls[c].automation.len() implies lane_ok(
            h,
            #[trigger] now.controls[c].automation[l],
        ) by {
            let control = was.controls[c];
            assert(control.valid());
            assert forall|l: int| 0 <= l < control.automation.len() implies {
                &&& lane_ok(g, #[trigger] control.automation[l])
                &&& control.automation[l].range.0.within(control.range.0, control.range.1)
                &&& control.automation[l].range.1.within(control.range.0, control.range.1)
            } by {
                assert(lane_ok(g, was.controls[c].automation[l]));
            }
            lemma_lanes_without(g, control.automation, removed, control.range.0, control.range.1);
        }
    }
}

impl Control {
    /// Drops the lanes fed by the module at place `removed`, which leaves the
    /// graph, and moves the places above it down by one.
    fn forget(&mut self, removed: usize)
        ensures
            final(self)@ == old(self)@.without(removed),
    {
        let mut kept: Vec<AutomationLane> = Vec::new();
        let mut l: usize = 0;
        assert(self.automation@.subrange(0, 0) =~= Seq::<AutomationLane>::empty());
        while l < self.automation.len()
            invariant
                l <= self.automation.len(),
                *self == *old(self),
                kept@ == lanes_without(self.automation@.subrange(0, l as int), removed),
            decreases self.automation.len() - l,
        {
            proof {
                assert(self.automation@.subrange(0, l + 1).drop_last() =~= self.automation@.subrange(0, l as int));
                assert(self.automation@.subrange(0, l + 1).last() == self.automation@[l as int]);
            }
            let lane: AutomationLane = self.automation[l];
            if lane.connection.0 != removed {
                let source: usize = if lane.connection.0 > removed {
                    lane.connection.0 - 1
                } else {
                    lane.connection.0
                };
                kept.push(AutomationLane { connection: (source, lane.connection.1), range: lane.range });
            }
            l += 1;
        }
        assert(self.automation@.subrange(0, self.automation@.len() as int) =~= self.automation@);
        self.automation = kept;
    }
}

impl Module {
    /// Lets go of everything the module at place `removed`, which leaves the
    /// graph, fed into this one.
    fn forget(&mut self, removed: usize)
        requires
            old(self)@.inputs.len() == old(self)@.default_inputs.len(),
        ensures
            final(self)@ == old(self)@.without(removed),
    {
        let mut i: usize = 0;
        while i < self.inputs.len()
            invariant
                i <= self.inputs.len(),
                self.inputs@.len() == old(self).inputs@.len(),
                self.inputs@.len() == self.default_inputs@.len(),
                self.template == old(self).template,
                self.controls == old(self).controls,
                self.complex_controls == old(self).complex_controls,
                self.default_inputs == old(self).default_inputs,
                self.pos == old(self).pos,
                forall|j: int|
                    0 <= j < i ==> self.inputs@[j] == input_without(
                        old(self).inputs@[j],
                        old(self).default_inputs@[j],
                        removed,
                    ),
                forall|j: int| i <= j < self.inputs@.len() ==> self.inputs@[j] == old(self).inputs@[j],
            decreases self.inputs.len() - i,
        {
            match self.inputs[i] {
                InputConnection::Wire(source, output) => {
                    if source == removed {
                        self.inputs[i] = InputConnection::Default(self.default_inputs[i]);
                    } else if source > removed {
                        self.inputs[i] = InputConnection::Wire(source - 1, output);
                    }
                },
                InputConnection::Default(_) => {},
            }
            i += 1;
        }
        let mut c: usize = 0;
        while c < self.controls.len()
            invariant
                c <= self.controls.len(),
                self.controls@.len() == old(self).controls@.len(),
                self.template == old(self).template,
                self.complex_controls == old(self).complex_controls,
                self.default_inputs == old(self).default_inputs,
                self.pos == old(self).pos,
                self.inputs@ =~= old(self)@.without(removed).inputs,
                forall|j: int| 0 <= j < c ==> (#[trigger] self.controls@[j])@ == old(self).controls@[j]@.without(removed),
                forall|j: int| c <= j < self.controls@.len() ==> self.controls@[j] == old(self).controls@[j],
            decreases self.controls.len() - c,
        {
            self.controls[c].forget(removed);
            c += 1;
        }
        assert(self@.controls =~= old(self)@.without(removed).controls);
    }
}

impl ModuleGraph {
    /// Takes the module at `place` out of the graph and hands it back. Inputs
    /// that were wired to it go back to their defaults, lanes that it fed are
    /// dropped, and the modules above it move down by one place.
    pub fn remove_module(&mut self, place: usize) -> (removed: Module)
        requires
            well_formed(old(self)@),
            place < old(self)@.len(),
        ensures
            removed@ == old(self)@[place as int],
            final(self)@ == without_module(old(self)@, place),
            well_formed(final(self)@),
    {
        let removed: Module = self.modules.remove(place);
        let ghost rest = self.modules@;
        let mut m: usize = 0;
        while m < self.modules.len()
            invariant
                m <= self.modules.len(),
                self.modules@.len() == rest.len(),
                rest == old(self).modules@.remove(place as int),
                place < old(self).modules@.len(),
                well_formed(old(self)@),
                forall|j: int| 0 <= j < m ==> (#[trigger] self.modules@[j])@ == rest[j]@.without(place),
                forall|j: int| m <= j < self.modules@.len() ==> self.modules@[j] == rest[j],
            decreases self.modules.len() - m,
        {
            proof {
                let from = if m < place {
                    m as int
                } else {
                    m + 1
                };
                assert(rest[m as int] == old(self).modules@[from]);
                assert(module_ok(old(self)@, old(self)@[from]));
            }
            self.modules[m].forget(place);
            m += 1;
        }
        proof {
            lemma_without_module(old(self)@, place);
            assert forall|j: int| 0 <= j < self@.len() implies self@[j] == without_module(old(self)@, place)[j] by {
                let from = if j < place {
                    j
                } else {
                    j + 1
                };
                assert(rest[j] == old(self).modules@[from]);
            }
            assert(self@ =~= without_module(old(self)@, place));
        }
        removed
    }

    /// Whether the module at `place` has its template's shape and is fed only
    /// by outputs that exist.
    fn module_is_ok(&self, place: usize) -> (ok: bool)
        requires
            place < self@.len(),
        ensures
            ok == module_ok(self@, self@[place as int]),
    {
        let module: &Module = &self.modules[place];
        let ghost mv = self@[place as int];
        assert(mv == module@);
        if module.inputs.len() != module.template.inputs.len() || module.default_inputs.len()
            != module.template.inputs.len() {
            return false;
        }
        let mut i: usize = 0;
        while i < module.inputs.len()
            invariant
                i <= module.inputs.len(),
                place < self@.len(),
                mv == self@[place as int],
                mv == module@,
                forall|j: int| 0 <= j < i ==> input_ok(self@, #[trigger] mv.inputs[j]),
            decreases module.inputs.len() - i,
        {
            match module.inputs[i] {
                InputConnection::Wire(source, output) => {
                    if source >= self.modules.len() {
                        assert(!input_ok(self@, mv.inputs[i as int]));
                        return false;
                    }
                    if output >= self.modules[source].template.outputs.len() {
                        assert(!input_ok(self@, mv.inputs[i as int]));
                        return false;
                    }
                },
                InputConnection::Default(_) => {},
            }
            i += 1;
        }
        let mut c: usize = 0;
        while c < module.controls.len()
            invariant
                c <= module.controls.len(),
                place < self@.len(),
                mv == self@[place as int],
                mv == module@,
                forall|j: int| 0 <= j < c ==> (#[trigger] mv.controls[j]).valid(),
                forall|j: int, l: int|
                    0 <= j < c && 0 <= l < mv.controls[j].automation.len() ==> lane_ok(
                        self@,
                        #[trigger] mv.controls[j].automation[l],
                    ),
            decreases module.controls.len() - c,
        {
            let control: &Control = &module.controls[c];
            assert(control@ == mv.controls[c as int]);
            if !control.is_valid() {
                return false;
            }
            let mut l: usize = 0;
            while l < control.automation.len()
                invariant
                    l <= control.automation.len(),
                    c < module.controls.len(),
                    place < self@.len(),
                    mv == self@[place as int],
                    mv == module@,
                    control@ == mv.controls[c as int],
                    forall|k: int| 0 <= k < l ==> lane_ok(self@, #[trigger] mv.controls[c as int].automation[k]),
                decreases control.automation.len() - l,
            {
                let lane: AutomationLane = control.automation[l];
                assert(lane == mv.controls[c as int].automation[l as int]);
                if lane.connection.0 >= self.modules.len() {
                    assert(!lane_ok(self@, mv.controls[c as int].automation[l as int]));
                    return false;
                }
                if lane.connection.1 >= self.modules[lane.connection.0].template.outputs.len() {
                    assert(!lane_ok(self@, mv.controls[c as int].automation[l as int]));
                    return false;
                }
                l += 1;
            }
            c += 1;
        }
        true
    }

    /// Whether every module has its template's shape and no wire or lane
    /// dangles.
    pub fn is_well_formed(&self) -> (ok: bool)
        ensures
            ok == well_formed(self@),
    {
        let mut m: usize = 0;
        while m < self.modules.len()
            invariant
                m <= self.modules.len(),
                forall|j: int| 0 <= j < m ==> module_ok(self@, #[trigger] self@[j]),
            decreases self.modules.len() - m,
        {
            if !self.module_is_ok(m) {
                return false;
            }
            m += 1;
        }
        true
    }
}

} // verus!
