//! From a module's descriptor to its prototype: the controls, the widgets,
//! the jacks, and the template that holds them together.
//!
//! A descriptor is checked from top to bottom and the first thing wrong with
//! it is what is reported. For each kind of entry there is what is wrong with
//! it first, if anything is, and what it describes if nothing is.

use crate::engine::parts::{
    ComplexControl,
    ComplexControlView,
    Control,
    ControlView,
    IOJack,
    IOJackView,
    JackType,
    Module,
    ModuleTemplate,
};
use crate::gui::module_widgets::{WidgetOutline, WidgetOutlineView};
use crate::registry::yaml::{count_named, DescriptorError, Fault, Problem, YamlNode};
use crate::registry::{find_key, has_key, index_of_key};
use crate::scalar::Scalar;
use crate::engine::data_routing::clipped;
use crate::engine::parts::{complex_control_views, control_views, InputConnection};
use crate::text::{ends_with, integer_text, is_suffix, part, same_text, signed_decimal};
use vstd::string::*;
use std::rc::Rc;
use vstd::prelude::*;

verus! {

/// The first of two faults, in the order they are looked for.
pub open spec fn first_of(a: Option<Fault>, b: Option<Fault>) -> Option<Fault> {
    if a is Some {
        a
    } else {
        b
    }
}

/// What is wrong with the child called `name` that is to hold a text.
pub open spec fn text_fault(node: YamlNode, name: Seq<char>) -> Option<Fault> {
    if node.has_unique(name) {
        None
    } else {
        Some(node.child_fault(name))
    }
}

/// What is wrong with the child called `name` that is to hold a whole number.
pub open spec fn int_fault(node: YamlNode, name: Seq<char>) -> Option<Fault> {
    if !node.has_unique(name) {
        Some(node.child_fault(name))
    } else if node.child(name).integer() is None {
        Some(
            Fault {
                problem: Problem::NotAnInteger,
                at: node.child(name).full_name@,
                what: node.child(name).value@,
            },
        )
    } else {
        None
    }
}

/// What is wrong with the child called `name` that is to hold a number.
pub open spec fn number_fault(node: YamlNode, name: Seq<char>) -> Option<Fault> {
    if !node.has_unique(name) {
        Some(node.child_fault(name))
    } else if node.child(name).number is None {
        Some(
            Fault {
                problem: Problem::NotANumber,
                at: node.child(name).full_name@,
                what: node.child(name).value@,
            },
        )
    } else {
        None
    }
}

fn child_text<'a>(node: &'a YamlNode, name: &str) -> (read: Result<&'a String, DescriptorError>)
    ensures
        match read {
            Ok(text) => text_fault(*node, name@) is None && text@ == node.child(name@).value@,
            Err(error) => text_fault(*node, name@) == Some(error@),
        },
{
    match node.unique_child(name) {
        Ok(child) => Ok(&child.value),
        Err(error) => Err(error),
    }
}

fn child_i32(node: &YamlNode, name: &str) -> (read: Result<i32, DescriptorError>)
    ensures
        match read {
            Ok(v) => int_fault(*node, name@) is None && node.child(name@).integer() == Some(v),
            Err(error) => int_fault(*node, name@) == Some(error@),
        },
{
    match node.unique_child(name) {
        Ok(child) => child.i32(),
        Err(error) => Err(error),
    }
}

fn child_scalar(node: &YamlNode, name: &str) -> (read: Result<Scalar, DescriptorError>)
    ensures
        match read {
            Ok(v) => number_fault(*node, name@) is None && node.child(name@).number == Some(v),
            Err(error) => number_fault(*node, name@) == Some(error@),
        },
{
    match node.unique_child(name) {
        Ok(child) => child.scalar(),
        Err(error) => Err(error),
    }
}

/// What is wrong first with the descriptor of a control: its range and its
/// default have to be numbers, and the default has to lie in the range.
pub open spec fn control_fault(yaml: YamlNode) -> Option<Fault> {
    first_of(
        number_fault(yaml, "min"@),
        first_of(
            number_fault(yaml, "max"@),
            first_of(
                number_fault(yaml, "default"@),
                if yaml.child("default"@).number->0.within(
                    yaml.child("min"@).number->0,
                    yaml.child("max"@).number->0,
                ) {
                    None
                } else {
                    Some(
                        Fault {
                            problem: Problem::DefaultOutOfRange,
                            at: yaml.full_name@,
                            what: yaml.child("default"@).value@,
                        },
                    )
                },
            ),
        ),
    )
}

/// The control a descriptor describes: it is called what the entry is called
/// and starts at its default, with no automation. The suffix is optional.
pub open spec fn control_of(yaml: YamlNode) -> ControlView {
    ControlView {
        code_name: yaml.name@,
        range: (yaml.child("min"@).number->0, yaml.child("max"@).number->0),
        value: yaml.child("default"@).number->0,
        default: yaml.child("default"@).number->0,
        suffix: if yaml.has_unique("suffix"@) {
            yaml.child("suffix"@).value@
        } else {
            Seq::empty()
        },
        automation: Seq::empty(),
    }
}

/// Makes the control a descriptor describes.
pub fn create_control_from_yaml(yaml: &YamlNode) -> (made: Result<Control, DescriptorError>)
    ensures
        match made {
            Ok(control) => control_fault(*yaml) is None && control@ == control_of(*yaml) && control@.valid(),
            Err(error) => control_fault(*yaml) == Some(error@),
        },
{
    let min: Scalar = match child_scalar(yaml, "min") {
        Ok(v) => v,
        Err(error) => {
            return Err(error);
        },
    };
    let max: Scalar = match child_scalar(yaml, "max") {
        Ok(v) => v,
        Err(error) => {
            return Err(error);
        },
    };
    let default: Scalar = match child_scalar(yaml, "default") {
        Ok(v) => v,
        Err(error) => {
            return Err(error);
        },
    };
    if !default.is_within(min, max) {
        let what: &String = match child_text(yaml, "default") {
            Ok(text) => text,
            Err(error) => {
                return Err(error);
            },
        };
        return Err(DescriptorError::create(Problem::DefaultOutOfRange, yaml.full_name.as_str(), what.as_str()));
    }
    let suffix: String = match yaml.unique_child("suffix") {
        Ok(node) => node.value.clone(),
        Err(_) => String::new(),
    };
    Ok(Control::create(yaml.name.clone(), min, max, default, suffix))
}

/// Where the first control called `name` stands.
pub open spec fn is_control_at(controls: Seq<ControlView>, name: Seq<char>, at: int) -> bool {
    &&& 0 <= at < controls.len()
    &&& controls[at].code_name == name
    &&& forall|j: int| 0 <= j < at ==> (#[trigger] controls[j]).code_name != name
}

/// Some control is called `name`.
pub open spec fn has_control(controls: Seq<ControlView>, name: Seq<char>) -> bool {
    exists|at: int| is_control_at(controls, name, at)
}

/// Where the first control called `name` stands.
pub open spec fn control_index(controls: Seq<ControlView>, name: Seq<char>) -> int {
    choose|at: int| is_control_at(controls, name, at)
}

/// Where the first complex control called `name` stands.
pub open spec fn is_complex_control_at(controls: Seq<ComplexControlView>, name: Seq<char>, at: int) -> bool {
    &&& 0 <= at < controls.len()
    &&& controls[at].code_name == name
    &&& forall|j: int| 0 <= j < at ==> (#[trigger] controls[j]).code_name != name
}

/// Some complex control is called `name`.
pub open spec fn has_complex_control(controls: Seq<ComplexControlView>, name: Seq<char>) -> bool {
    exists|at: int| is_complex_control_at(controls, name, at)
}

/// Where the first complex control called `name` stands.
pub open spec fn complex_control_index(controls: Seq<ComplexControlView>, name: Seq<char>) -> int {
    choose|at: int| is_complex_control_at(controls, name, at)
}

fn find_control_index(controls: &Vec<Control>, name: &str) -> (found: Option<usize>)
    ensures
        found is Some <==> has_control(crate::engine::parts::control_views(controls@), name@),
        found matches Some(at) ==> at == control_index(crate::engine::parts::control_views(controls@), name@),
{
    let ghost views = crate::engine::parts::control_views(controls@);
    let mut at: usize = 0;
    while at < controls.len()
        invariant
            at <= controls.len(),
            views == crate::engine::parts::control_views(controls@),
            forall|j: int| 0 <= j < at ==> (#[trigger] views[j]).code_name != name@,
        decreases controls.len() - at,
    {
        if same_text(controls[at].code_name.as_str(), name) {
            proof {
                assert(is_control_at(views, name@, at as int));
                let w = choose|w: int| is_control_at(views, name@, w);
                assert(w == at);
            }
            return Some(at);
        }
        at += 1;
    }
    assert(!has_control(views, name@)) by {
        if has_control(views, name@) {
            let w = choose|w: int| is_control_at(views, name@, w);
            assert(views[w].code_name == name@);
        }
    }
    None
}

fn find_complex_control_index(controls: &Vec<ComplexControl>, name: &str) -> (found: Option<usize>)
    ensures
        found is Some <==> has_complex_control(crate::engine::parts::complex_control_views(controls@), name@),
        found matches Some(at) ==> at == complex_control_index(
            crate::engine::parts::complex_control_views(controls@),
            name@,
        ),
{
    let ghost views = crate::engine::parts::complex_control_views(controls@);
    let mut at: usize = 0;
    while at < controls.len()
        invariant
            at <= controls.len(),
            views == crate::engine::parts::complex_control_views(controls@),
            forall|j: int| 0 <= j < at ==> (#[trigger] views[j]).code_name != name@,
        decreases controls.len() - at,
    {
        if same_text(controls[at].code_name.as_str(), name) {
            proof {
                assert(is_complex_control_at(views, name@, at as int));
                let w = choose|w: int| is_complex_control_at(views, name@, w);
                assert(w == at);
            }
            return Some(at);
        }
        at += 1;
    }
    assert(!has_complex_control(views, name@)) by {
        if has_complex_control(views, name@) {
            let w = choose|w: int| is_complex_control_at(views, name@, w);
            assert(views[w].code_name == name@);
        }
    }
    None
}

/// The descriptor is that of a knob.
pub open spec fn is_knob(yaml: YamlNode) -> bool {
    yaml.name@ == "knob"@
}

/// The descriptor is that of an envelope graph.
pub open spec fn is_envelope_graph(yaml: YamlNode) -> bool {
    yaml.name@ == "envelope_graph"@
}

/// The descriptor is that of a waveform graph.
pub open spec fn is_waveform_graph(yaml: YamlNode) -> bool {
    yaml.name@ == "waveform_graph"@
}

/// The descriptor is that of a box that holds a whole number.
pub open spec fn is_int_box(yaml: YamlNode) -> bool {
    yaml.name@ == "int_box"@
}

/// What is wrong first with the descriptor of a knob, after its position.
pub open spec fn knob_fault(yaml: YamlNode, controls: Seq<ControlView>) -> Option<Fault> {
    first_of(
        text_fault(yaml, "control"@),
        first_of(
            if has_control(controls, yaml.child("control"@).value@) {
                None
            } else {
                Some(
                    Fault {
                        problem: Problem::NoSuchControl,
                        at: yaml.full_name@,
                        what: yaml.child("control"@).value@,
                    },
                )
            },
            first_of(text_fault(yaml, "label"@), text_fault(yaml, "tooltip"@)),
        ),
    )
}

/// What is wrong first with the descriptor of a graph, after its position.
pub open spec fn graph_fault(yaml: YamlNode) -> Option<Fault> {
    first_of(int_fault(yaml, "w"@), first_of(int_fault(yaml, "h"@), text_fault(yaml, "feedback_name"@)))
}

/// The number a box starts at: its default if it names one, else its
/// minimum.
pub open spec fn int_box_default(yaml: YamlNode) -> i32 {
    if yaml.has_unique("default"@) {
        yaml.child("default"@).integer()->0
    } else {
        yaml.child("min"@).integer()->0
    }
}

/// What is wrong first with the descriptor of a box that holds a whole
/// number, after its position.
pub open spec fn int_box_fault(yaml: YamlNode, complex_controls: Seq<ComplexControlView>) -> Option<Fault> {
    first_of(
        text_fault(yaml, "control"@),
        first_of(
            if has_complex_control(complex_controls, yaml.child("control"@).value@) {
                None
            } else {
                Some(
                    Fault {
                        problem: Problem::NoSuchComplexControl,
                        at: yaml.full_name@,
                        what: yaml.child("control"@).value@,
                    },
                )
            },
            first_of(
                int_fault(yaml, "min"@),
                first_of(
                    int_fault(yaml, "max"@),
                    first_of(
                        if yaml.has_unique("default"@) {
                            int_fault(yaml, "default"@)
                        } else {
                            None
                        },
                        first_of(
                            text_fault(yaml, "label"@),
                            first_of(
                                text_fault(yaml, "tooltip"@),
                                if complex_controls[complex_control_index(
                                    complex_controls,
                                    yaml.child("control"@).value@,
                                )].value.len() == 0 {
                                    None
                                } else {
                                    Some(
                                        Fault {
                                            problem: Problem::ComplexControlTaken,
                                            at: yaml.full_name@,
                                            what: yaml.child("control"@).value@,
                                        },
                                    )
                                },
                            ),
                        ),
                    ),
                ),
            ),
        ),
    )
}

/// What is wrong first with the descriptor of a widget.
#[verifier::opaque]
pub open spec fn widget_fault(
    yaml: YamlNode,
    controls: Seq<ControlView>,
    complex_controls: Seq<ComplexControlView>,
) -> Option<Fault> {
    first_of(
        int_fault(yaml, "x"@),
        first_of(
            int_fault(yaml, "y"@),
            if is_knob(yaml) {
                knob_fault(yaml, controls)
            } else if is_envelope_graph(yaml) || is_waveform_graph(yaml) {
                graph_fault(yaml)
            } else if is_int_box(yaml) {
                int_box_fault(yaml, complex_controls)
            } else {
                Some(Fault { problem: Problem::InvalidWidgetType, at: yaml.full_name@, what: yaml.name@ })
            },
        ),
    )
}

/// The widget a descriptor describes.
#[verifier::opaque]
pub open spec fn widget_of(
    yaml: YamlNode,
    controls: Seq<ControlView>,
    complex_controls: Seq<ComplexControlView>,
) -> WidgetOutlineView {
    let grid_pos = (yaml.child("x"@).integer()->0, yaml.child("y"@).integer()->0);
    let grid_size = (yaml.child("w"@).integer()->0, yaml.child("h"@).integer()->0);
    if is_knob(yaml) {
        WidgetOutlineView::Knob {
            tooltip: yaml.child("tooltip"@).value@,
            control_index: control_index(controls, yaml.child("control"@).value@) as usize,
            grid_pos,
            label: yaml.child("label"@).value@,
        }
    } else if is_envelope_graph(yaml) {
        WidgetOutlineView::EnvelopeGraph { grid_pos, grid_size, feedback_name: yaml.child("feedback_name"@).value@ }
    } else if is_waveform_graph(yaml) {
        WidgetOutlineView::WaveformGraph { grid_pos, grid_size, feedback_name: yaml.child("feedback_name"@).value@ }
    } else {
        WidgetOutlineView::IntBox {
            tooltip: yaml.child("tooltip"@).value@,
            ccontrol_index: complex_control_index(complex_controls, yaml.child("control"@).value@) as usize,
            grid_pos,
            range: (yaml.child("min"@).integer()->0, yaml.child("max"@).integer()->0),
            label: yaml.child("label"@).value@,
        }
    }
}

/// The complex controls after a widget was made: a box that holds a whole
/// number gives the complex control it drives its default and its value.
#[verifier::opaque]
pub open spec fn complex_controls_after(
    yaml: YamlNode,
    controls: Seq<ControlView>,
    complex_controls: Seq<ComplexControlView>,
) -> Seq<ComplexControlView> {
    if widget_fault(yaml, controls, complex_controls) is None && is_int_box(yaml) && !is_knob(yaml)
        && !is_envelope_graph(yaml) && !is_waveform_graph(yaml) {
        let at = complex_control_index(complex_controls, yaml.child("control"@).value@);
        complex_controls.update(
            at,
            ComplexControlView {
                value: signed_decimal(int_box_default(yaml) as int),
                default: signed_decimal(int_box_default(yaml) as int),
                ..complex_controls[at]
            },
        )
    } else {
        complex_controls
    }
}

/// Makes the widget a descriptor describes. A box that holds a whole number
/// also gives the complex control it drives its default. If anything is
/// wrong, the complex controls are left as they were.
pub fn create_widget_outline_from_yaml(
    yaml: &YamlNode,
    controls: &Vec<Control>,
    complex_controls: &mut Vec<ComplexControl>,
) -> (made: Result<WidgetOutline, DescriptorError>)
    ensures
        match made {
            Ok(outline) => {
                &&& widget_fault(
                    *yaml,
                    crate::engine::parts::control_views(controls@),
                    crate::engine::parts::complex_control_views(old(complex_controls)@),
                ) is None
                &&& outline@ == widget_of(
                    *yaml,
                    crate::engine::parts::control_views(controls@),
                    crate::engine::parts::complex_control_views(old(complex_controls)@),
                )
            },
            Err(error) => widget_fault(
                *yaml,
                crate::engine::parts::control_views(controls@),
                crate::engine::parts::complex_control_views(old(complex_controls)@),
            ) == Some(error@),
        },
        crate::engine::parts::complex_control_views(final(complex_controls)@) == complex_controls_after(
            *yaml,
            crate::engine::parts::control_views(controls@),
            crate::engine::parts::complex_control_views(old(complex_controls)@),
        ),
{
    let ghost control_views = crate::engine::parts::control_views(controls@);
    let ghost complex_views = crate::engine::parts::complex_control_views(complex_controls@);
    proof {
        reveal(widget_fault);
        reveal(widget_of);
        reveal(complex_controls_after);
        reveal_strlit("knob");
        reveal_strlit("envelope_graph");
        reveal_strlit("waveform_graph");
        reveal_strlit("int_box");
    }
    let x: i32 = match child_i32(yaml, "x") {
        Ok(v) => v,
        Err(error) => {
            return Err(error);
        },
    };
    let y: i32 = match child_i32(yaml, "y") {
        Ok(v) => v,
        Err(error) => {
            return Err(error);
        },
    };
    let grid_pos: (i32, i32) = (x, y);
    if same_text(yaml.name.as_str(), "knob") {
        let control_name: &String = match child_text(yaml, "control") {
            Ok(text) => text,
            Err(error) => {
                return Err(error);
            },
        };
        let control_index: usize = match find_control_index(controls, control_name.as_str()) {
            Some(at) => at,
            None => {
                return Err(
                    DescriptorError::create(Problem::NoSuchControl, yaml.full_name.as_str(), control_name.as_str()),
                );
            },
        };
        let label: String = match child_text(yaml, "label") {
            Ok(text) => text.clone(),
            Err(error) => {
                return Err(error);
            },
        };
        let tooltip: String = match child_text(yaml, "tooltip") {
            Ok(text) => text.clone(),
            Err(error) => {
                return Err(error);
            },
        };
        Ok(WidgetOutline::Knob { tooltip, control_index, grid_pos, label })
    } else if same_text(yaml.name.as_str(), "envelope_graph") {
        let w: i32 = match child_i32(yaml, "w") {
            Ok(v) => v,
            Err(error) => {
                return Err(error);
            },
        };
        let h: i32 = match child_i32(yaml, "h") {
            Ok(v) => v,
            Err(error) => {
                return Err(error);
            },
        };
        let feedback_name: String = match child_text(yaml, "feedback_name") {
            Ok(text) => text.clone(),
            Err(error) => {
                return Err(error);
            },
        };
        Ok(WidgetOutline::EnvelopeGraph { grid_pos, grid_size: (w, h), feedback_name })
    } else if same_text(yaml.name.as_str(), "waveform_graph") {
        let w: i32 = match child_i32(yaml, "w") {
            Ok(v) => v,
            Err(error) => {
                return Err(error);
            },
        };
        let h: i32 = match child_i32(yaml, "h") {
            Ok(v) => v,
            Err(error) => {
                return Err(error);
            },
        };
        let feedback_name: String = match child_text(yaml, "feedback_name") {
            Ok(text) => text.clone(),
            Err(error) => {
                return Err(error);
            },
        };
        Ok(WidgetOutline::WaveformGraph { grid_pos, grid_size: (w, h), feedback_name })
    } else if same_text(yaml.name.as_str(), "int_box") {
        let ccontrol_name: &String = match child_text(yaml, "control") {
            Ok(text) => text,
            Err(error) => {
                return Err(error);
            },
        };
        let ccontrol_index: usize = match find_complex_control_index(complex_controls, ccontrol_name.as_str()) {
            Some(at) => at,
            None => {
                return Err(
                    DescriptorError::create(
                        Problem::NoSuchComplexControl,
                        yaml.full_name.as_str(),
                        ccontrol_name.as_str(),
                    ),
                );
            },
        };
        let min: i32 = match child_i32(yaml, "min") {
            Ok(v) => v,
            Err(error) => {
                return Err(error);
            },
        };
        let max: i32 = match child_i32(yaml, "max") {
            Ok(v) => v,
            Err(error) => {
                return Err(error);
            },
        };
        let default: i32 = match yaml.unique_child("default") {
            Ok(child) => match child.i32() {
                Ok(v) => v,
                Err(error) => {
                    return Err(error);
                },
            },
            Err(_) => min,
        };
        let label: String = match child_text(yaml, "label") {
            Ok(text) => text.clone(),
            Err(error) => {
                return Err(error);
            },
        };
        let tooltip: String = match child_text(yaml, "tooltip") {
            Ok(text) => text.clone(),
            Err(error) => {
                return Err(error);
            },
        };
        proof {
            assert(is_complex_control_at(
                complex_views,
                ccontrol_name@,
                complex_control_index(complex_views, ccontrol_name@),
            ));
            assert(complex_views[ccontrol_index as int] == complex_controls@[ccontrol_index as int]@);
        }
        if complex_controls[ccontrol_index].value.as_str().unicode_len() != 0 {
            return Err(
                DescriptorError::create(
                    Problem::ComplexControlTaken,
                    yaml.full_name.as_str(),
                    ccontrol_name.as_str(),
                ),
            );
        }
        complex_controls[ccontrol_index].default = integer_text(default);
        complex_controls[ccontrol_index].value = integer_text(default);
        assert(crate::engine::parts::complex_control_views(complex_controls@) =~= complex_controls_after(
            *yaml,
            control_views,
            complex_views,
        ));
        Ok(WidgetOutline::IntBox { tooltip, ccontrol_index, grid_pos, range: (min, max), label })
    } else {
        Err(DescriptorError::create(Problem::InvalidWidgetType, yaml.full_name.as_str(), yaml.name.as_str()))
    }
}

/// The jacks of a sequence, each as a value.
pub open spec fn jack_views(jacks: Seq<IOJack>) -> Seq<IOJackView> {
    Seq::new(jacks.len(), |i: int| jacks[i]@)
}

/// The widget outlines of a sequence, each as a value.
pub open spec fn outline_views(outlines: Seq<WidgetOutline>) -> Seq<WidgetOutlineView> {
    Seq::new(outlines.len(), |i: int| outlines[i]@)
}

/// The place of the icon filed under `name`, if there is one.
pub open spec fn icon_of(icons: Seq<(String, usize)>, name: Seq<char>) -> Option<usize> {
    if has_key(icons, name) {
        Some(icons[index_of_key(icons, name)].1)
    } else {
        None
    }
}

/// Name of the icon that stands for a jack type.
pub open spec fn type_icon_name(typ: JackType) -> Seq<char> {
    match typ {
        JackType::Pitch => "base:pitch"@,
        JackType::Waveform => "base:waveform"@,
        JackType::Audio => "base:audio"@,
        JackType::Trigger => "base:trigger"@,
    }
}

/// The type a jack's descriptor names.
pub open spec fn jack_type_of(yaml: YamlNode) -> JackType {
    JackType::named(yaml.child("type"@).value@)->0
}

/// What is wrong first with the descriptor of a jack. Only an input can
/// name a default.
pub open spec fn jack_fault(yaml: YamlNode, icons: Seq<(String, usize)>, is_input: bool) -> Option<Fault> {
    first_of(
        text_fault(yaml, "type"@),
        first_of(
            if JackType::named(yaml.child("type"@).value@) is None {
                Some(
                    Fault {
                        problem: Problem::InvalidJackType,
                        at: yaml.full_name@,
                        what: yaml.child("type"@).value@,
                    },
                )
            } else {
                None
            },
            first_of(
                if icon_of(icons, type_icon_name(jack_type_of(yaml))) is None {
                    Some(
                        Fault {
                            problem: Problem::MissingTypeIcon,
                            at: yaml.full_name@,
                            what: type_icon_name(jack_type_of(yaml)),
                        },
                    )
                } else {
                    None
                },
                first_of(
                    if yaml.has_unique("icon"@) && icon_of(icons, yaml.child("icon"@).value@) is None {
                        Some(
                            Fault {
                                problem: Problem::InvalidIconName,
                                at: yaml.full_name@,
                                what: yaml.child("icon"@).value@,
                            },
                        )
                    } else {
                        None
                    },
                    first_of(
                        text_fault(yaml, "label"@),
                        first_of(
                            text_fault(yaml, "tooltip"@),
                            if is_input && yaml.has_unique("default"@) {
                                int_fault(yaml, "default"@)
                            } else {
                                None
                            },
                        ),
                    ),
                ),
            ),
        ),
    )
}

/// The jack a descriptor describes.
pub open spec fn jack_of(yaml: YamlNode, icons: Seq<(String, usize)>) -> IOJackView {
    IOJackView {
        typ: jack_type_of(yaml),
        icon_index: icon_of(icons, type_icon_name(jack_type_of(yaml)))->0,
        custom_icon_index: if yaml.has_unique("icon"@) {
            Some(icon_of(icons, yaml.child("icon"@).value@)->0)
        } else {
            None
        },
        code_name: yaml.name@,
        label: yaml.child("label"@).value@,
        tooltip: yaml.child("tooltip"@).value@,
    }
}

/// The built-in source an input starts on: the one its descriptor names if
/// its type has that many, else the first.
pub open spec fn default_input_of(yaml: YamlNode) -> usize {
    if yaml.has_unique("default"@) {
        let v = yaml.child("default"@).integer()->0;
        if 0 <= v < jack_type_of(yaml).num_defaults() {
            v as usize
        } else {
            0
        }
    } else {
        0
    }
}

fn lookup(icons: &Vec<(String, usize)>, name: &str) -> (icon: Option<usize>)
    ensures
        icon == icon_of(icons@, name@),
{
    match find_key(icons, name) {
        Some(at) => Some(icons[at].1),
        None => None,
    }
}

/// Makes the jack a descriptor describes, and finds the built-in source it
/// starts on.
pub fn create_jack_from_yaml(yaml: &YamlNode, icon_indexes: &Vec<(String, usize)>, is_input: bool) -> (made:
    Result<(IOJack, usize), DescriptorError>)
    ensures
        match made {
            Ok((jack, default)) => {
                &&& jack_fault(*yaml, icon_indexes@, is_input) is None
                &&& jack@ == jack_of(*yaml, icon_indexes@)
                &&& is_input ==> default == default_input_of(*yaml)
            },
            Err(error) => jack_fault(*yaml, icon_indexes@, is_input) == Some(error@),
        },
{
    let kind_name: &String = match child_text(yaml, "type") {
        Ok(text) => text,
        Err(error) => {
            return Err(error);
        },
    };
    let typ: JackType = match JackType::from_str(kind_name.as_str()) {
        Ok(typ) => typ,
        Err(_) => {
            return Err(
                DescriptorError::create(Problem::InvalidJackType, yaml.full_name.as_str(), kind_name.as_str()),
            );
        },
    };
    let icon: usize = match lookup(icon_indexes, typ.icon_name()) {
        Some(icon) => icon,
        None => {
            return Err(DescriptorError::create(Problem::MissingTypeIcon, yaml.full_name.as_str(), typ.icon_name()));
        },
    };
    let custom_icon: Option<usize> = match yaml.unique_child("icon") {
        Ok(node) => match lookup(icon_indexes, node.value.as_str()) {
            Some(icon) => Some(icon),
            None => {
                return Err(
                    DescriptorError::create(Problem::InvalidIconName, yaml.full_name.as_str(), node.value.as_str()),
                );
            },
        },
        Err(_) => None,
    };
    let label: String = match child_text(yaml, "label") {
        Ok(text) => text.clone(),
        Err(error) => {
            return Err(error);
        },
    };
    let tooltip: String = match child_text(yaml, "tooltip") {
        Ok(text) => text.clone(),
        Err(error) => {
            return Err(error);
        },
    };
    let default: usize = if is_input {
        match yaml.unique_child("default") {
            Ok(node) => match node.i32() {
                Ok(v) => {
                    if v >= 0 && (v as usize) < typ.get_num_defaults() {
                        v as usize
                    } else {
                        0
                    }
                },
                Err(error) => {
                    return Err(error);
                },
            },
            Err(_) => 0,
        }
    } else {
        0
    };
    Ok((IOJack::create(typ, icon, custom_icon, yaml.name.clone(), label, tooltip), default))
}

/// What is wrong with entry `at` of a list of controls: it has the name of an
/// entry before it, or its descriptor is at fault.
pub open spec fn control_entry_fault(entries: Seq<YamlNode>, at: int) -> Option<Fault> {
    if count_named(entries.subrange(0, at), entries[at].name@) > 0 {
        Some(Fault { problem: Problem::DuplicateControl, at: entries[at].full_name@, what: entries[at].name@ })
    } else {
        control_fault(entries[at])
    }
}

/// What is wrong first with the first `n` entries of a list of controls.
pub open spec fn controls_fault(entries: Seq<YamlNode>, n: nat) -> Option<Fault>
    decreases n,
{
    if n == 0 {
        None
    } else {
        first_of(controls_fault(entries, (n - 1) as nat), control_entry_fault(entries, n - 1))
    }
}

/// The controls a list of descriptors describes.
pub open spec fn controls_of(entries: Seq<YamlNode>) -> Seq<ControlView> {
    Seq::new(entries.len(), |i: int| control_of(entries[i]))
}

/// The complex controls a list of descriptors describes, before any widget
/// has given them a value.
pub open spec fn complex_controls_of(entries: Seq<YamlNode>) -> Seq<ComplexControlView> {
    Seq::new(
        entries.len(),
        |i: int| ComplexControlView { code_name: entries[i].name@, value: Seq::empty(), default: Seq::empty() },
    )
}

/// The complex controls after the first `n` widgets of a list were made.
pub open spec fn complex_controls_upto(
    widgets: Seq<YamlNode>,
    controls: Seq<ControlView>,
    complex_controls: Seq<ComplexControlView>,
    n: nat,
) -> Seq<ComplexControlView>
    decreases n,
{
    if n == 0 {
        complex_controls
    } else {
        complex_controls_after(
            widgets[n - 1],
            controls,
            complex_controls_upto(widgets, controls, complex_controls, (n - 1) as nat),
        )
    }
}

/// What is wrong first with the first `n` widgets of a list.
pub open spec fn widgets_fault(
    widgets: Seq<YamlNode>,
    controls: Seq<ControlView>,
    complex_controls: Seq<ComplexControlView>,
    n: nat,
) -> Option<Fault>
    decreases n,
{
    if n == 0 {
        None
    } else {
        first_of(
            widgets_fault(widgets, controls, complex_controls, (n - 1) as nat),
            widget_fault(
                widgets[n - 1],
                controls,
                complex_controls_upto(widgets, controls, complex_controls, (n - 1) as nat),
            ),
        )
    }
}

/// The widgets a list of descriptors describes.
pub open spec fn widgets_of(
    widgets: Seq<YamlNode>,
    controls: Seq<ControlView>,
    complex_controls: Seq<ComplexControlView>,
) -> Seq<WidgetOutlineView> {
    Seq::new(
        widgets.len(),
        |i: int|
            widget_of(widgets[i], controls, complex_controls_upto(widgets, controls, complex_controls, i as nat)),
    )
}

/// What is wrong first with the first `n` jacks of a list.
pub open spec fn jacks_fault(entries: Seq<YamlNode>, icons: Seq<(String, usize)>, is_input: bool, n: nat) -> Option<
    Fault,
>
    decreases n,
{
    if n == 0 {
        None
    } else {
        first_of(jacks_fault(entries, icons, is_input, (n - 1) as nat), jack_fault(entries[n - 1], icons, is_input))
    }
}

/// The jacks a list of descriptors describes.
pub open spec fn jacks_of(entries: Seq<YamlNode>, icons: Seq<(String, usize)>) -> Seq<IOJackView> {
    Seq::new(entries.len(), |i: int| jack_of(entries[i], icons))
}

/// The built-in sources the inputs of a list of descriptors start on.
pub open spec fn default_inputs_of(entries: Seq<YamlNode>) -> Seq<usize> {
    Seq::new(entries.len(), |i: int| default_input_of(entries[i]))
}

/// Complex control `at` is the first that no widget has given a value.
pub open spec fn is_first_unset(complex_controls: Seq<ComplexControlView>, at: int) -> bool {
    &&& 0 <= at < complex_controls.len()
    &&& complex_controls[at].value.len() == 0
    &&& forall|j: int| 0 <= j < at ==> (#[trigger] complex_controls[j]).value.len() != 0
}

/// What is wrong if a complex control has no widget.
pub open spec fn unset_fault(complex_controls: Seq<ComplexControlView>, at: Seq<char>) -> Option<Fault> {
    if exists|c: int| is_first_unset(complex_controls, c) {
        Some(
            Fault {
                problem: Problem::NoWidgetForComplexControl,
                at,
                what: complex_controls[choose|c: int| is_first_unset(complex_controls, c)].code_name,
            },
        )
    } else {
        None
    }
}

/// Number of feedback values that the first `n` widgets of a list are drawn
/// from.
pub open spec fn feedback_len_upto(widgets: Seq<WidgetOutlineView>, n: nat) -> nat
    decreases n,
{
    if n == 0 {
        0
    } else {
        feedback_len_upto(widgets, (n - 1) as nat) + widgets[n - 1].feedback_len()
    }
}

/// What a module's descriptor file is called.
pub open spec fn descriptor_ending() -> Seq<char> {
    ".module.yaml"@
}

/// What a module's code file is called.
pub open spec fn code_ending() -> Seq<char> {
    ".module.ns"@
}

/// The name of the code that belongs to a descriptor: the descriptor's name
/// with the ending of a code file in place of that of a descriptor file.
pub open spec fn code_resource_of(name: Seq<char>) -> Seq<char> {
    if is_suffix(name, descriptor_ending()) {
        name.subrange(0, name.len() - descriptor_ending().len()) + code_ending()
    } else {
        name
    }
}

/// The name of the code that belongs to the descriptor called `name`.
pub fn code_resource_name(name: &str) -> (code: String)
    ensures
        code@ == code_resource_of(name@),
{
    if ends_with(name, ".module.yaml") {
        let keep: usize = name.unicode_len() - ".module.yaml".unicode_len();
        let mut code: String = part(name, 0, keep);
        code.append(".module.ns");
        code
    } else {
        name.to_owned()
    }
}

/// The descriptors of a module's controls.
pub open spec fn control_entries(yaml: YamlNode) -> Seq<YamlNode> {
    yaml.child("controls"@).children@
}

/// The descriptors of a module's complex controls; none if it lists none.
pub open spec fn complex_control_entries(yaml: YamlNode) -> Seq<YamlNode> {
    if yaml.has_unique("complex_controls"@) {
        yaml.child("complex_controls"@).children@
    } else {
        Seq::empty()
    }
}

/// The descriptors of a module's widgets.
pub open spec fn widget_entries(yaml: YamlNode) -> Seq<YamlNode> {
    yaml.child("gui"@).child("widgets"@).children@
}

/// The descriptors of a module's inputs.
pub open spec fn input_entries(yaml: YamlNode) -> Seq<YamlNode> {
    yaml.child("inputs"@).children@
}

/// The descriptors of a module's outputs.
pub open spec fn output_entries(yaml: YamlNode) -> Seq<YamlNode> {
    yaml.child("outputs"@).children@
}

/// The complex controls of a module once all its widgets are made.
pub open spec fn complex_controls_made(yaml: YamlNode) -> Seq<ComplexControlView> {
    complex_controls_upto(
        widget_entries(yaml),
        controls_of(control_entries(yaml)),
        complex_controls_of(complex_control_entries(yaml)),
        widget_entries(yaml).len(),
    )
}

/// What is wrong first with the descriptor of a module.
pub open spec fn prototype_fault(yaml: YamlNode, icons: Seq<(String, usize)>) -> Option<Fault> {
    let gui = yaml.child("gui"@);
    first_of(
        text_fault(yaml, "controls"@),
        first_of(
            controls_fault(control_entries(yaml), control_entries(yaml).len()),
            first_of(
                text_fault(yaml, "gui"@),
                first_of(
                    text_fault(gui, "widgets"@),
                    first_of(
                        text_fault(gui, "label"@),
                        first_of(
                            text_fault(gui, "category"@),
                            first_of(
                                text_fault(gui, "tooltip"@),
                                first_of(
                                    int_fault(gui, "width"@),
                                    first_of(
                                        int_fault(gui, "height"@),
                                        first_of(
                                            widgets_fault(
                                                widget_entries(yaml),
                                                controls_of(control_entries(yaml)),
                                                complex_controls_of(complex_control_entries(yaml)),
                                                widget_entries(yaml).len(),
                                            ),
                                            first_of(
                                                unset_fault(complex_controls_made(yaml), yaml.full_name@),
                                                first_of(
                                                    text_fault(yaml, "inputs"@),
                                                    first_of(
                                                        jacks_fault(
                                                            input_entries(yaml),
                                                            icons,
                                                            true,
                                                            input_entries(yaml).len(),
                                                        ),
                                                        first_of(
                                                            text_fault(yaml, "outputs"@),
                                                            jacks_fault(
                                                                output_entries(yaml),
                                                                icons,
                                                                false,
                                                                output_entries(yaml).len(),
                                                            ),
                                                        ),
                                                    ),
                                                ),
                                            ),
                                        ),
                                    ),
                                ),
                            ),
                        ),
                    ),
                ),
            ),
        ),
    )
}

/// The module is the prototype that a descriptor describes.
pub open spec fn describes(
    module: Module,
    yaml: YamlNode,
    icons: Seq<(String, usize)>,
    resource_name: Seq<char>,
) -> bool {
    let gui = yaml.child("gui"@);
    let widgets = widgets_of(
        widget_entries(yaml),
        controls_of(control_entries(yaml)),
        complex_controls_of(complex_control_entries(yaml)),
    );
    &&& module.template.resource_name@ == resource_name
    &&& module.template.label@ == gui.child("label"@).value@
    &&& module.template.category@ == gui.child("category"@).value@
    &&& module.template.tooltip@ == gui.child("tooltip"@).value@
    &&& module.template.code_resource@ == code_resource_of(yaml.name@)
    &&& module.template.size == (gui.child("width"@).integer()->0, gui.child("height"@).integer()->0)
    &&& outline_views(module.template.widget_outlines@) == widgets
    &&& jack_views(module.template.inputs@) == jacks_of(input_entries(yaml), icons)
    &&& jack_views(module.template.outputs@) == jacks_of(output_entries(yaml), icons)
    &&& module.template.feedback_data_len == clipped(feedback_len_upto(widgets, widgets.len()))
    &&& module@.controls == controls_of(control_entries(yaml))
    &&& module@.complex_controls == complex_controls_made(yaml)
    &&& module@.default_inputs == default_inputs_of(input_entries(yaml))
    &&& module@.inputs == Seq::new(
        input_entries(yaml).len(),
        |i: int| InputConnection::Default(default_input_of(input_entries(yaml)[i])),
    )
    &&& module@.pos == (0i32, 0i32)
}

proof fn lemma_controls_fault_stays(entries: Seq<YamlNode>, n: nat, m: nat)
    requires
        n <= m,
        controls_fault(entries, n) is Some,
    ensures
        controls_fault(entries, m) == controls_fault(entries, n),
    decreases m,
{
    if n < m {
        lemma_controls_fault_stays(entries, n, (m - 1) as nat);
    }
}

proof fn lemma_widgets_fault_stays(
    widgets: Seq<YamlNode>,
    controls: Seq<ControlView>,
    complex_controls: Seq<ComplexControlView>,
    n: nat,
    m: nat,
)
    requires
        n <= m,
        widgets_fault(widgets, controls, complex_controls, n) is Some,
    ensures
        widgets_fault(widgets, controls, complex_controls, m) == widgets_fault(
            widgets,
            controls,
            complex_controls,
            n,
        ),
    decreases m,
{
    if n < m {
        lemma_widgets_fault_stays(widgets, controls, complex_controls, n, (m - 1) as nat);
    }
}

proof fn lemma_jacks_fault_stays(entries: Seq<YamlNode>, icons: Seq<(String, usize)>, is_input: bool, n: nat, m: nat)
    requires
        n <= m,
        jacks_fault(entries, icons, is_input, n) is Some,
    ensures
        jacks_fault(entries, icons, is_input, m) == jacks_fault(entries, icons, is_input, n),
    decreases m,
{
    if n < m {
        lemma_jacks_fault_stays(entries, icons, is_input, n, (m - 1) as nat);
    }
}

/// Makes the controls a list of descriptors describes.
fn create_controls(entries: &Vec<YamlNode>) -> (made: Result<Vec<Control>, DescriptorError>)
    ensures
        match made {
            Ok(controls) => {
                &&& controls_fault(entries@, entries@.len()) is None
                &&& control_views(controls@) == controls_of(entries@)
                &&& forall|c: int| 0 <= c < controls@.len() ==> (#[trigger] controls@[c])@.valid()
            },
            Err(error) => controls_fault(entries@, entries@.len()) == Some(error@),
        },
{
    let mut controls: Vec<Control> = Vec::new();
    let mut i: usize = 0;
    while i < entries.len()
        invariant
            i <= entries.len(),
            controls@.len() == i,
            controls_fault(entries@, i as nat) is None,
            forall|c: int| 0 <= c < i ==> (#[trigger] controls@[c])@ == control_of(entries@[c]),
            forall|c: int| 0 <= c < i ==> (#[trigger] controls@[c])@.valid(),
        decreases entries.len() - i,
    {
        let entry: &YamlNode = &entries[i];
        let mut seen: bool = false;
        let mut j: usize = 0;
        assert(entries@.subrange(0, i as int).subrange(0, 0) =~= Seq::<YamlNode>::empty());
        while j < i
            invariant
                j <= i < entries.len(),
                entry == entries@[i as int],
                seen == (count_named(entries@.subrange(0, i as int).subrange(0, j as int), entry.name@) > 0),
            decreases i - j,
        {
            proof {
                let before = entries@.subrange(0, i as int);
                let upto = before.subrange(0, j + 1);
                assert(upto.drop_last() =~= before.subrange(0, j as int));
                assert(upto.last() == entries@[j as int]);
            }
            if same_text(entries[j].name.as_str(), entry.name.as_str()) {
                seen = true;
            }
            j += 1;
        }
        assert(entries@.subrange(0, i as int).subrange(0, i as int) =~= entries@.subrange(0, i as int));
        if seen {
            let error: DescriptorError = DescriptorError::create(
                Problem::DuplicateControl,
                entry.full_name.as_str(),
                entry.name.as_str(),
            );
            proof {
                assert(controls_fault(entries@, (i + 1) as nat) == Some(error@));
                lemma_controls_fault_stays(entries@, (i + 1) as nat, entries@.len());
            }
            return Err(error);
        }
        match create_control_from_yaml(entry) {
            Ok(control) => {
                controls.push(control);
            },
            Err(error) => {
                proof {
                    assert(controls_fault(entries@, (i + 1) as nat) == Some(error@));
                    lemma_controls_fault_stays(entries@, (i + 1) as nat, entries@.len());
                }
                return Err(error);
            },
        }
        i += 1;
    }
    assert(control_views(controls@) =~= controls_of(entries@));
    Ok(controls)
}

/// Makes the jacks a list of descriptors describes, and finds the built-in
/// sources they start on.
fn create_jacks(entries: &Vec<YamlNode>, icon_indexes: &Vec<(String, usize)>, is_input: bool) -> (made: Result<
    (Vec<IOJack>, Vec<usize>),
    DescriptorError,
>)
    ensures
        match made {
            Ok((jacks, defaults)) => {
                &&& jacks_fault(entries@, icon_indexes@, is_input, entries@.len()) is None
                &&& jack_views(jacks@) == jacks_of(entries@, icon_indexes@)
                &&& defaults@.len() == entries@.len()
                &&& is_input ==> defaults@ == default_inputs_of(entries@)
            },
            Err(error) => jacks_fault(entries@, icon_indexes@, is_input, entries@.len()) == Some(error@),
        },
{
    let mut jacks: Vec<IOJack> = Vec::new();
    let mut defaults: Vec<usize> = Vec::new();
    let mut i: usize = 0;
    while i < entries.len()
        invariant
            i <= entries.len(),
            jacks@.len() == i,
            defaults@.len() == i,
            jacks_fault(entries@, icon_indexes@, is_input, i as nat) is None,
            forall|j: int| 0 <= j < i ==> (#[trigger] jacks@[j])@ == jack_of(entries@[j], icon_indexes@),
            is_input ==> forall|j: int| 0 <= j < i ==> defaults@[j] == default_input_of(entries@[j]),
        decreases entries.len() - i,
    {
        match create_jack_from_yaml(&entries[i], icon_indexes, is_input) {
            Ok((jack, default)) => {
                jacks.push(jack);
                defaults.push(default);
            },
            Err(error) => {
                proof {
                    assert(jacks_fault(entries@, icon_indexes@, is_input, (i + 1) as nat) == Some(error@));
                    lemma_jacks_fault_stays(entries@, icon_indexes@, is_input, (i + 1) as nat, entries@.len());
                }
                return Err(error);
            },
        }
        i += 1;
    }
    assert(jack_views(jacks@) =~= jacks_of(entries@, icon_indexes@));
    if is_input {
        assert(defaults@ =~= default_inputs_of(entries@));
    }
    Ok((jacks, defaults))
}

/// Makes the widgets a list of descriptors describes, giving the complex
/// controls that boxes drive their defaults on the way.
fn create_widgets(entries: &Vec<YamlNode>, controls: &Vec<Control>, complex_controls: &mut Vec<ComplexControl>) -> (made:
    Result<Vec<WidgetOutline>, DescriptorError>)
    ensures
        match made {
            Ok(outlines) => {
                &&& widgets_fault(
                    entries@,
                    control_views(controls@),
                    complex_control_views(old(complex_controls)@),
                    entries@.len(),
                ) is None
                &&& outline_views(outlines@) == widgets_of(
                    entries@,
                    control_views(controls@),
                    complex_control_views(old(complex_controls)@),
                )
                &&& complex_control_views(final(complex_controls)@) == complex_controls_upto(
                    entries@,
                    control_views(controls@),
                    complex_control_views(old(complex_controls)@),
                    entries@.len(),
                )
            },
            Err(error) => widgets_fault(
                entries@,
                control_views(controls@),
                complex_control_views(old(complex_controls)@),
                entries@.len(),
            ) == Some(error@),
        },
{
    let ghost cv = control_views(controls@);
    let ghost c0 = complex_control_views(complex_controls@);
    let mut outlines: Vec<WidgetOutline> = Vec::new();
    let mut i: usize = 0;
    while i < entries.len()
        invariant
            i <= entries.len(),
            cv == control_views(controls@),
            c0 == complex_control_views(old(complex_controls)@),
            outlines@.len() == i,
            widgets_fault(entries@, cv, c0, i as nat) is None,
            complex_control_views(complex_controls@) == complex_controls_upto(entries@, cv, c0, i as nat),
            forall|j: int|
                0 <= j < i ==> (#[trigger] outlines@[j])@ == widget_of(
                    entries@[j],
                    cv,
                    complex_controls_upto(entries@, cv, c0, j as nat),
                ),
        decreases entries.len() - i,
    {
        match create_widget_outline_from_yaml(&entries[i], controls, complex_controls) {
            Ok(outline) => {
                outlines.push(outline);
            },
            Err(error) => {
                proof {
                    assert(widgets_fault(entries@, cv, c0, (i + 1) as nat) == Some(error@));
                    lemma_widgets_fault_stays(entries@, cv, c0, (i + 1) as nat, entries@.len());
                }
                return Err(error);
            },
        }
        i += 1;
    }
    assert(outline_views(outlines@) =~= widgets_of(entries@, cv, c0));
    Ok(outlines)
}

/// Makes a complex control without a value for each entry of a list.
fn blank_complex_controls(entries: &Vec<YamlNode>) -> (made: Vec<ComplexControl>)
    ensures
        complex_control_views(made@) == complex_controls_of(entries@),
{
    let mut made: Vec<ComplexControl> = Vec::new();
    let mut i: usize = 0;
    while i < entries.len()
        invariant
            i <= entries.len(),
            made@.len() == i,
            forall|j: int|
                0 <= j < i ==> (#[trigger] made@[j])@ == (ComplexControlView {
                    code_name: entries@[j].name@,
                    value: Seq::empty(),
                    default: Seq::empty(),
                }),
        decreases entries.len() - i,
    {
        made.push(
            ComplexControl { code_name: entries[i].name.clone(), value: String::new(), default: String::new() },
        );
        i += 1;
    }
    assert(complex_control_views(made@) =~= complex_controls_of(entries@));
    made
}

/// Finds the first complex control that no widget has given a value.
fn find_unset(complex_controls: &Vec<ComplexControl>) -> (found: Option<usize>)
    ensures
        match found {
            Some(c) => is_first_unset(complex_control_views(complex_controls@), c as int) && c == (choose|w: int|
                is_first_unset(complex_control_views(complex_controls@), w)),
            None => !exists|w: int| is_first_unset(complex_control_views(complex_controls@), w),
        },
{
    let ghost made = complex_control_views(complex_controls@);
    let mut c: usize = 0;
    while c < complex_controls.len()
        invariant
            c <= complex_controls.len(),
            made == complex_control_views(complex_controls@),
            forall|j: int| 0 <= j < c ==> (#[trigger] made[j]).value.len() != 0,
        decreases complex_controls.len() - c,
    {
        assert(made[c as int] == complex_controls@[c as int]@);
        if complex_controls[c].value.as_str().unicode_len() == 0 {
            proof {
                assert(is_first_unset(made, c as int));
                let w = choose|w: int| is_first_unset(made, w);
                assert(w == c);
            }
            return Some(c);
        }
        c += 1;
    }
    assert(!exists|w: int| is_first_unset(made, w)) by {
        if exists|w: int| is_first_unset(made, w) {
            let w = choose|w: int| is_first_unset(made, w);
            assert(made[w].value.len() != 0);
        }
    }
    None
}

/// Number of feedback values that the widgets of a list are drawn from, or
/// the largest number there is if there are more.
fn total_feedback(widgets: &Vec<WidgetOutline>) -> (total: usize)
    ensures
        total == clipped(feedback_len_upto(outline_views(widgets@), widgets@.len())),
{
    let ghost widget_views = outline_views(widgets@);
    let mut total: usize = 0;
    let mut w: usize = 0;
    while w < widgets.len()
        invariant
            w <= widgets.len(),
            widget_views == outline_views(widgets@),
            total == clipped(feedback_len_upto(widget_views, w as nat)),
        decreases widgets.len() - w,
    {
        assert(widget_views[w as int] == widgets@[w as int]@);
        total = total.saturating_add(widgets[w].get_feedback_data_requirement().size());
        w += 1;
    }
    total
}

/// Makes the prototype of a module from its descriptor: its controls, its
/// complex controls with the defaults their widgets give them, its widgets,
/// and its jacks. `icon_indexes` files the places of the icons under their
/// names; `resource_name` is what the prototype will be filed under.
pub fn create_module_prototype_from_yaml(
    icon_indexes: &Vec<(String, usize)>,
    resource_name: String,
    yaml: &YamlNode,
) -> (made: Result<Module, DescriptorError>)
    ensures
        match made {
            Ok(module) => {
                &&& prototype_fault(*yaml, icon_indexes@) is None
                &&& describes(module, *yaml, icon_indexes@, resource_name@)
                &&& module@.shaped()
                &&& module@.fresh() == module@
            },
            Err(error) => prototype_fault(*yaml, icon_indexes@) == Some(error@),
        },
{
    let controls_description: &YamlNode = match yaml.unique_child("controls") {
        Ok(node) => node,
        Err(error) => {
            return Err(error);
        },
    };
    let controls: Vec<Control> = match create_controls(&controls_description.children) {
        Ok(controls) => controls,
        Err(error) => {
            return Err(error);
        },
    };
    let mut complex_controls: Vec<ComplexControl> = match yaml.unique_child("complex_controls") {
        Ok(child) => blank_complex_controls(&child.children),
        Err(_) => Vec::new(),
    };
    assert(complex_control_views(complex_controls@) =~= complex_controls_of(complex_control_entries(*yaml)));
    let gui_description: &YamlNode = match yaml.unique_child("gui") {
        Ok(node) => node,
        Err(error) => {
            return Err(error);
        },
    };
    let widgets_description: &YamlNode = match gui_description.unique_child("widgets") {
        Ok(node) => node,
        Err(error) => {
            return Err(error);
        },
    };
    let label: String = match child_text(gui_description, "label") {
        Ok(text) => text.clone(),
        Err(error) => {
            return Err(error);
        },
    };
    let category: String = match child_text(gui_description, "category") {
        Ok(text) => text.clone(),
        Err(error) => {
            return Err(error);
        },
    };
    let tooltip: String = match child_text(gui_description, "tooltip") {
        Ok(text) => text.clone(),
        Err(error) => {
            return Err(error);
        },
    };
    let width: i32 = match child_i32(gui_description, "width") {
        Ok(v) => v,
        Err(error) => {
            return Err(error);
        },
    };
    let height: i32 = match child_i32(gui_description, "height") {
        Ok(v) => v,
        Err(error) => {
            return Err(error);
        },
    };
    let widgets: Vec<WidgetOutline> = match create_widgets(
        &widgets_description.children,
        &controls,
        &mut complex_controls,
    ) {
        Ok(widgets) => widgets,
        Err(error) => {
            return Err(error);
        },
    };
    match find_unset(&complex_controls) {
        Some(c) => {
            return Err(
                DescriptorError::create(
                    Problem::NoWidgetForComplexControl,
                    yaml.full_name.as_str(),
                    complex_controls[c].code_name.as_str(),
                ),
            );
        },
        None => {},
    }
    let inputs_description: &YamlNode = match yaml.unique_child("inputs") {
        Ok(node) => node,
        Err(error) => {
            return Err(error);
        },
    };
    let (inputs, default_inputs) = match create_jacks(&inputs_description.children, icon_indexes, true) {
        Ok(made) => made,
        Err(error) => {
            return Err(error);
        },
    };
    let outputs_description: &YamlNode = match yaml.unique_child("outputs") {
        Ok(node) => node,
        Err(error) => {
            return Err(error);
        },
    };
    let (outputs, _) = match create_jacks(&outputs_description.children, icon_indexes, false) {
        Ok(made) => made,
        Err(error) => {
            return Err(error);
        },
    };
    let feedback_data_len: usize = total_feedback(&widgets);
    let template: ModuleTemplate = ModuleTemplate {
        resource_name,
        label,
        category,
        tooltip,
        code_resource: code_resource_name(yaml.name.as_str()),
        size: (width, height),
        widget_outlines: widgets,
        inputs,
        outputs,
        feedback_data_len,
    };
    let module: Module = Module::create(Rc::new(template), controls, complex_controls, default_inputs);
    proof {
        assert(jack_views(module.template.inputs@).len() == module.template.inputs@.len());
        assert(module@.shaped());
        assert(module@.fresh().controls =~= module@.controls) by {
            assert forall|k: int| 0 <= k < module@.controls.len() implies module@.controls[k].reset()
                == module@.controls[k] by {
                assert(module@.controls[k] == control_of(control_entries(*yaml)[k]));
                assert(module@.controls[k].automation =~= Seq::<crate::engine::parts::AutomationLane>::empty());
            }
        }
        lemma_complex_controls_settled(
            widget_entries(*yaml),
            controls_of(control_entries(*yaml)),
            complex_controls_of(complex_control_entries(*yaml)),
            widget_entries(*yaml).len(),
        );
        assert(module@.fresh().complex_controls =~= module@.complex_controls);
        assert(module@.fresh().inputs =~= module@.inputs);
        assert(module@.inputs =~= Seq::new(
            input_entries(*yaml).len(),
            |i: int| InputConnection::Default(default_input_of(input_entries(*yaml)[i])),
        ));
    }
    Ok(module)
}

/// Widgets give complex controls the same text as value and as default, so
/// after any number of widgets every complex control is at its default.
proof fn lemma_complex_controls_settled(
    widgets: Seq<YamlNode>,
    controls: Seq<ControlView>,
    complex_controls: Seq<ComplexControlView>,
    n: nat,
)
    requires
        forall|c: int| 0 <= c < complex_controls.len() ==> (#[trigger] complex_controls[c]).value == complex_controls[c].default,
    ensures
        complex_controls_upto(widgets, controls, complex_controls, n).len() == complex_controls.len(),
        forall|c: int|
            0 <= c < complex_controls.len() ==> (#[trigger] complex_controls_upto(
                widgets,
                controls,
                complex_controls,
                n,
            )[c]).value == complex_controls_upto(widgets, controls, complex_controls, n)[c].default,
    decreases n,
{
    if n > 0 {
        reveal(complex_controls_after);
        reveal(widget_fault);
        lemma_complex_controls_settled(widgets, controls, complex_controls, (n - 1) as nat);
        let before = complex_controls_upto(widgets, controls, complex_controls, (n - 1) as nat);
        let yaml = widgets[n - 1];
        let after = complex_controls_after(yaml, controls, before);
        if widget_fault(yaml, controls, before) is None && is_int_box(yaml) && !is_knob(yaml) && !is_envelope_graph(
            yaml,
        ) && !is_waveform_graph(yaml) {
            let at = complex_control_index(before, yaml.child("control"@).value@);
            assert(has_complex_control(before, yaml.child("control"@).value@));
            assert(is_complex_control_at(before, yaml.child("control"@).value@, at));
            assert forall|c: int| 0 <= c < complex_controls.len() implies (#[trigger] after[c]).value
                == after[c].default by {
                if c != at {
                    assert(after[c] == before[c]);
                }
            }
        }
    }
}

} // verus!
