use audiobench::gui::constants::{
    coord, fatcoord, fatgrid, grid, hex_color, COLOR_AUTOMATION, COLOR_BG, COLOR_KNOB,
    FATGRID_1, FATGRID_2, GRID_2, KNOB_AUTOMATION_SPACE, MODULE_IO_WIDTH,
};
use audiobench::gui::module_widgets::value_sequence::{
    parse_sequence_length, sequenced_value_span, ValueSequenceLength, VALUE_LENGTH,
};
use audiobench::gui::module_widgets::{
    is_inside, widget_from_outline, DropTarget, EditorZone, EnvelopeGraph, FeedbackDataRequirement,
    Knob, KnobEditor, MouseAction, MouseMods, Widget, WidgetOutline,
};

const LEFT: MouseMods = MouseMods {
    right_click: false,
    shift: false,
};
const RIGHT: MouseMods = MouseMods {
    right_click: true,
    shift: false,
};

#[test]
fn grid_arithmetic() {
    assert_eq!(grid(1), 20);
    assert_eq!(grid(2), 48);
    assert_eq!(grid(4), 104);
    assert_eq!(grid(0), -8);
    assert_eq!(fatgrid(1), 36);
    assert_eq!(fatgrid(2), 64);
    assert_eq!(coord(0), 8);
    assert_eq!(coord(1), 36);
    assert_eq!(coord(-1), -20);
    assert_eq!(fatcoord(0), 0);
    assert_eq!(fatcoord(3), 84);
    assert_eq!(GRID_2, grid(2));
    assert_eq!(FATGRID_1, fatgrid(1));
    assert_eq!(FATGRID_2, fatgrid(2));
    assert_eq!(KNOB_AUTOMATION_SPACE, 17);
    assert_eq!(MODULE_IO_WIDTH, 28);
    assert_eq!(grid(76_695_844), 2_147_483_624);
}

#[test]
fn colours_from_hex() {
    assert_eq!(hex_color(0xFF00FF), (0xFF, 0x00, 0xFF));
    assert_eq!(hex_color(0x121520), COLOR_BG);
    assert_eq!(hex_color(0xFF0022), COLOR_KNOB);
    assert_eq!(hex_color(0xC7D5E8), COLOR_AUTOMATION);
    assert_eq!(hex_color(0xAB_123456), (0x12, 0x34, 0x56));
}

#[test]
fn feedback_requirements() {
    let knob = WidgetOutline::Knob {
        tooltip: "t".to_owned(),
        control_index: 3,
        grid_pos: (0, 0),
        label: "l".to_owned(),
    };
    match knob.get_feedback_data_requirement() {
        FeedbackDataRequirement::Control { control_index } => assert_eq!(control_index, 3),
        _ => panic!("a knob shows its control"),
    }
    assert_eq!(knob.get_feedback_data_requirement().size(), 1);
    let envelope = WidgetOutline::EnvelopeGraph {
        grid_pos: (0, 0),
        grid_size: (4, 2),
        feedback_name: "env".to_owned(),
    };
    match envelope.get_feedback_data_requirement() {
        FeedbackDataRequirement::Custom { code_name, size } => {
            assert_eq!(code_name, "env");
            assert_eq!(size, 6);
        }
        _ => panic!("a graph shows custom data"),
    }
    let waveform = WidgetOutline::WaveformGraph {
        grid_pos: (0, 0),
        grid_size: (4, 2),
        feedback_name: "wave".to_owned(),
    };
    assert_eq!(waveform.get_feedback_data_requirement().size(), 60);
    let int_box = WidgetOutline::IntBox {
        tooltip: String::new(),
        ccontrol_index: 0,
        grid_pos: (0, 0),
        range: (1, 8),
        label: String::new(),
    };
    assert!(matches!(
        int_box.get_feedback_data_requirement(),
        FeedbackDataRequirement::Nothing
    ));
    assert_eq!(FeedbackDataRequirement::Nothing.size(), 0);
    assert_eq!(
        FeedbackDataRequirement::Custom {
            code_name: String::new(),
            size: 11
        }
        .size(),
        11
    );
}

#[test]
fn widgets_are_laid_out_on_the_grid() {
    let knob = WidgetOutline::Knob {
        tooltip: "t".to_owned(),
        control_index: 1,
        grid_pos: (2, 1),
        label: "Gain".to_owned(),
    };
    match widget_from_outline(4, &knob) {
        (Widget::Knob(knob), feedback) => {
            assert_eq!(knob.control, (4, 1));
            assert_eq!(knob.pos, (28 + 20 + 64, 36));
            assert_eq!(knob.label, "Gain");
            assert_eq!(feedback, 1);
        }
        _ => panic!("expected a knob"),
    }
    let envelope = WidgetOutline::EnvelopeGraph {
        grid_pos: (0, 0),
        grid_size: (4, 2),
        feedback_name: "env".to_owned(),
    };
    match widget_from_outline(0, &envelope) {
        (Widget::EnvelopeGraph(graph), feedback) => {
            assert_eq!(graph.pos, (56, 8));
            assert_eq!(graph.size, (104, 48));
            assert_eq!(feedback, 6);
        }
        _ => panic!("expected an envelope graph"),
    }
    let int_box = WidgetOutline::IntBox {
        tooltip: "steps".to_owned(),
        ccontrol_index: 2,
        grid_pos: (1, 0),
        range: (1, 99),
        label: "Steps".to_owned(),
    };
    match widget_from_outline(7, &int_box) {
        (Widget::IntBox(made), feedback) => {
            assert_eq!(made.ccontrol, (7, 2));
            assert_eq!(made.range, (1, 99));
            assert_eq!(made.pos, (84, 8));
            assert_eq!(feedback, 0);
        }
        _ => panic!("expected an integer box"),
    }
}

#[test]
fn knob_takes_the_mouse() {
    let knob = Knob::create((2, 0), (100, 50), "Cutoff".to_owned());
    assert!(is_inside((100, 50), (100, 50), (48, 20)));
    assert!(is_inside((148, 70), (100, 50), (48, 20)));
    assert!(!is_inside((149, 70), (100, 50), (48, 20)));
    assert!(!is_inside((99, 60), (100, 50), (48, 20)));
    assert!(matches!(
        knob.respond_to_mouse_press((120, 60), &LEFT, (0, 0), 0),
        MouseAction::ManipulateControl((2, 0))
    ));
    assert!(matches!(
        knob.respond_to_mouse_press((120, 71), &LEFT, (0, 0), 0),
        MouseAction::Nothing
    ));
    assert!(matches!(
        knob.respond_to_mouse_press((120, 71), &RIGHT, (0, 0), 0),
        MouseAction::Nothing
    ));
    match knob.respond_to_mouse_press((120, 60), &RIGHT, (1000, 2000), 3) {
        MouseAction::OpenMenu(editor) => {
            assert_eq!(editor.control, (2, 0));
            assert_eq!(editor.label, "Cutoff");
            assert_eq!(editor.size, (244, 158));
            assert_eq!(editor.pos, (1124 - 122, 2074 - 79));
        }
        _ => panic!("a right click opens the menu"),
    }
    assert_eq!(
        knob.get_drop_target_at((120, 60)),
        DropTarget::Control((2, 0))
    );
    assert_eq!(knob.get_drop_target_at((0, 0)), DropTarget::Nothing);
    let copy = knob.clone();
    assert_eq!(copy.pos, knob.pos);
    let graph = EnvelopeGraph::create((0, 0), (10, 10));
    assert!(matches!(
        graph.respond_to_mouse_press((5, 5), &LEFT, (0, 0)),
        MouseAction::Nothing
    ));
    assert_eq!(graph.get_drop_target_at((5, 5)), DropTarget::Nothing);
}

#[test]
fn knob_editor_zones() {
    let few = KnobEditor::create((0, 0), 0, (500, 500), "K".to_owned());
    assert_eq!(few.size, (208, 140));
    assert_eq!(few.pos, (396, 430));
    let editor = KnobEditor::create((0, 0), 3, (500, 500), "K".to_owned());
    assert_eq!(editor.size, (244, 158));
    assert_eq!(editor.pos, (378, 421));
    assert_eq!(editor.offset_from_center((500, 500)), (0, -43));
    assert_eq!(editor.offset_from_center((378, 421)), (-122, -122));
    let inside = (500, 500);
    let z = |radius: i32, upper: bool, lanes: usize| {
        editor.respond_to_mouse_press(inside, radius, upper, lanes)
    };
    assert_eq!(z(10, true, 3), Some(EditorZone::Inert));
    assert_eq!(z(39, true, 3), Some(EditorZone::Inert));
    assert_eq!(z(40, true, 3), Some(EditorZone::Knob));
    assert_eq!(z(59, true, 3), Some(EditorZone::Knob));
    assert_eq!(z(60, true, 3), Some(EditorZone::Lane(2)));
    assert_eq!(z(77, true, 3), Some(EditorZone::Lane(2)));
    assert_eq!(z(78, true, 3), Some(EditorZone::Lane(1)));
    assert_eq!(z(96, true, 3), Some(EditorZone::Lane(0)));
    assert_eq!(z(114, true, 3), Some(EditorZone::Inert));
    assert_eq!(z(60, true, 0), Some(EditorZone::Inert));
    assert_eq!(z(50, false, 3), Some(EditorZone::Inert));
    assert_eq!(editor.respond_to_mouse_press((0, 0), 50, true, 3), None);
    assert_eq!(
        editor.respond_to_mouse_press((378 + 244, 421 + 158), 50, true, 3),
        Some(EditorZone::Knob)
    );
    assert_eq!(
        editor.respond_to_mouse_press((378 + 245, 421), 50, true, 3),
        None
    );
}

#[test]
fn sequences_are_measured_and_resized() {
    let four = "[ 1.00000, 1.00000,-1.00000,-1.00000,]";
    assert_eq!(VALUE_LENGTH, 9);
    assert_eq!(parse_sequence_length(four), 4);
    assert_eq!(parse_sequence_length("[]"), 0);
    assert_eq!(parse_sequence_length("[ 0.50000,]"), 1);
    assert_eq!(sequenced_value_span(0), (1, 10));
    assert_eq!(sequenced_value_span(3), (28, 37));
    let span = sequenced_value_span(2);
    assert_eq!(&four[span.0..span.1 - 1], "-1.00000");

    let defaults = ValueSequenceLength::get_defaults(5);
    assert_eq!(defaults, vec![(5, four.to_owned())]);

    assert_eq!(ValueSequenceLength::resize(four, 4), four);
    assert_eq!(
        ValueSequenceLength::resize(four, 2),
        "[ 1.00000, 1.00000,]"
    );
    assert_eq!(ValueSequenceLength::resize(four, 1), "[ 1.00000,]");
    assert_eq!(
        ValueSequenceLength::resize(four, 6),
        "[ 1.00000, 1.00000,-1.00000,-1.00000, 0.00000, 0.00000,]"
    );
    assert_eq!(ValueSequenceLength::resize("[]", 1), "[ 0.00000,]");
    let length_box =
        ValueSequenceLength::create((3, 4), (1, 2), "Length".to_owned(), "tip".to_owned());
    assert_eq!(length_box.get_base().range, (1, 99));
    assert_eq!(length_box.get_base().label, "Length");
    assert_eq!(length_box.sequence_control, (1, 2));
    assert_eq!(length_box.get_current_value(four), 4);
}
