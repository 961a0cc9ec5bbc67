use audiobench::engine::base::Engine;
use audiobench::engine::parts::{InputConnection, JackType, ModuleGraph};
use audiobench::gui::module_widgets::WidgetOutline;
use audiobench::registry::library_preload::{
    parse_library_info, preload_library, preload_zipped_library, read_library_info,
    LibraryContentProvider, PreloadError, Version, ZippedLibraryContentProvider,
};
use audiobench::registry::prototype::{
    code_resource_name, create_control_from_yaml, create_jack_from_yaml,
    create_module_prototype_from_yaml, create_widget_outline_from_yaml,
};
use audiobench::registry::save_data::Patch;
use audiobench::registry::yaml::{Problem, YamlNode};
use audiobench::registry::yaml_text::{parse_yaml, read_entries, TextError, TextProblem};
use audiobench::registry::{classify, qualify, FileKind, LibraryError, Registry};
use audiobench::scalar::Scalar;
use std::io::{Cursor, Write};

fn scalar(value: f32) -> Scalar {
    Scalar::from_bits(value.to_bits())
}

fn read_number(value: &String) -> Option<Scalar> {
    value.parse::<f32>().ok().map(|v| scalar(v))
}

fn tree(text: &str) -> YamlNode {
    parse_yaml(text, "test", &read_number).unwrap()
}

fn icons() -> Vec<(String, usize)> {
    vec![
        ("base:pitch".to_owned(), 0),
        ("base:waveform".to_owned(), 1),
        ("base:audio".to_owned(), 2),
        ("base:trigger".to_owned(), 3),
        ("Factory:saw".to_owned(), 4),
    ]
}

const OSCILLATOR: &str = "\
controls:
  pitch:
    min: -10
    max: 10
    default: 0.5
    suffix: oct
  level:
    min: 0
    max: 1
    default: 1
complex_controls:
  voices:
gui:
  label: Oscillator
  category: Sources
  tooltip: Makes a tone
  width: 4
  height: 2
  widgets:
    knob:
      x: 0
      y: 0
      control: pitch
      label: Pitch
      tooltip: How high
    knob:
      x: 2
      y: 0
      control: level
      label: Level
      tooltip: How loud
    int_box:
      x: 0
      y: 1
      control: voices
      min: 1
      max: 8
      default: 3
      label: Voices
      tooltip: How many
    waveform_graph:
      x: 2
      y: 1
      w: 2
      h: 1
      feedback_name: shape
inputs:
  fm:
    type: pitch
    label: FM
    tooltip: Moves the pitch
  shape:
    type: waveform
    label: Shape
    tooltip: The wave
    default: 2
    icon: Factory:saw
outputs:
  audio:
    type: audio
    label: Out
    tooltip: The tone
";

fn problem_of(text: &str) -> (Problem, String, String) {
    let error = create_module_prototype_from_yaml(&icons(), "id".to_owned(), &tree(text))
        .err()
        .unwrap();
    (error.problem, error.at, error.what)
}

#[test]
fn prototype_is_made_from_its_descriptor() {
    let yaml = parse_yaml(OSCILLATOR, "Factory:osc.module.yaml", &read_number).unwrap();
    let module =
        create_module_prototype_from_yaml(&icons(), "Factory:osc".to_owned(), &yaml).unwrap();
    let template = &module.template;
    assert_eq!(template.resource_name, "Factory:osc");
    assert_eq!(template.label, "Oscillator");
    assert_eq!(template.category, "Sources");
    assert_eq!(template.tooltip, "Makes a tone");
    assert_eq!(template.code_resource, "Factory:osc.module.ns");
    assert_eq!(template.size, (4, 2));
    assert_eq!(template.feedback_data_len, 1 + 1 + 0 + 60);
    assert_eq!(template.widget_outlines.len(), 4);
    match &template.widget_outlines[1] {
        WidgetOutline::Knob {
            tooltip,
            control_index,
            grid_pos,
            label,
        } => {
            assert_eq!(tooltip, "How loud");
            assert_eq!(*control_index, 1);
            assert_eq!(*grid_pos, (2, 0));
            assert_eq!(label, "Level");
        }
        other => panic!("unexpected {:?}", other),
    }
    match &template.widget_outlines[2] {
        WidgetOutline::IntBox {
            ccontrol_index,
            range,
            ..
        } => {
            assert_eq!(*ccontrol_index, 0);
            assert_eq!(*range, (1, 8));
        }
        other => panic!("unexpected {:?}", other),
    }
    match &template.widget_outlines[3] {
        WidgetOutline::WaveformGraph {
            grid_size,
            feedback_name,
            ..
        } => {
            assert_eq!(*grid_size, (2, 1));
            assert_eq!(feedback_name, "shape");
        }
        other => panic!("unexpected {:?}", other),
    }
    assert_eq!(template.inputs.len(), 2);
    assert_eq!(template.inputs[0].typ, JackType::Pitch);
    assert_eq!(template.inputs[0].icon_index, 0);
    assert_eq!(template.inputs[0].custom_icon_index, None);
    assert_eq!(template.inputs[0].code_name, "fm");
    assert_eq!(template.inputs[1].typ, JackType::Waveform);
    assert_eq!(template.inputs[1].icon_index, 1);
    assert_eq!(template.inputs[1].custom_icon_index, Some(4));
    assert_eq!(template.inputs[1].label, "Shape");
    assert_eq!(template.outputs.len(), 1);
    assert_eq!(template.outputs[0].tooltip, "The tone");

    assert_eq!(module.controls.len(), 2);
    assert_eq!(module.controls[0].code_name, "pitch");
    assert_eq!(module.controls[0].range, (scalar(-10.0), scalar(10.0)));
    assert_eq!(module.controls[0].value, scalar(0.5));
    assert_eq!(module.controls[0].default, scalar(0.5));
    assert_eq!(module.controls[0].suffix, "oct");
    assert_eq!(module.controls[1].suffix, "");
    assert_eq!(module.complex_controls.len(), 1);
    assert_eq!(module.complex_controls[0].code_name, "voices");
    assert_eq!(module.complex_controls[0].value, "3");
    assert_eq!(module.complex_controls[0].default, "3");
    assert_eq!(module.default_inputs, vec![0, 2]);
    assert_eq!(
        module.inputs,
        vec![InputConnection::Default(0), InputConnection::Default(2)]
    );
    assert_eq!(module.pos, (0, 0));
}

#[test]
fn first_fault_of_a_descriptor_is_reported() {
    let (problem, at, what) = problem_of(&OSCILLATOR.replace("controls:\n", "knobs:\n"));
    assert_eq!(problem, Problem::MissingChild);
    assert_eq!(at, "test");
    assert_eq!(what, "controls");

    let (problem, at, _) = problem_of(&OSCILLATOR.replace("    max: 10\n", ""));
    assert_eq!(problem, Problem::MissingChild);
    assert_eq!(at, "test.controls.pitch");

    let (problem, at, what) = problem_of(&OSCILLATOR.replace("min: -10", "min: low"));
    assert_eq!(problem, Problem::NotANumber);
    assert_eq!(at, "test.controls.pitch.min");
    assert_eq!(what, "low");

    let (problem, _, what) = problem_of(&OSCILLATOR.replace("default: 0.5", "default: 10.5"));
    assert_eq!(problem, Problem::DefaultOutOfRange);
    assert_eq!(what, "10.5");

    let (problem, at, what) = problem_of(&OSCILLATOR.replace("  level:\n", "  pitch:\n"));
    assert_eq!(problem, Problem::DuplicateControl);
    assert_eq!(at, "test.controls.pitch");
    assert_eq!(what, "pitch");

    let (problem, at, what) = problem_of(&OSCILLATOR.replace("control: level", "control: gain"));
    assert_eq!(problem, Problem::NoSuchControl);
    assert_eq!(at, "test.gui.widgets.knob");
    assert_eq!(what, "gain");

    let (problem, _, what) =
        problem_of(&OSCILLATOR.replace("control: voices", "control: pitch"));
    assert_eq!(problem, Problem::NoSuchComplexControl);
    assert_eq!(what, "pitch");

    let (problem, _, what) = problem_of(&OSCILLATOR.replace("    int_box:", "    slider:"));
    assert_eq!(problem, Problem::InvalidWidgetType);
    assert_eq!(what, "slider");

    let (problem, at, what) = problem_of(&OSCILLATOR.replace("      y: 1\n      w", "      y: one\n      w"));
    assert_eq!(problem, Problem::NotAnInteger);
    assert_eq!(at, "test.gui.widgets.waveform_graph.y");
    assert_eq!(what, "one");

    let twice = OSCILLATOR.replace(
        "    waveform_graph:\n",
        "    int_box:\n      x: 0\n      y: 1\n      control: voices\n      min: 1\n      max: 8\n      label: V\n      tooltip: t\n    waveform_graph:\n",
    );
    let (problem, _, what) = problem_of(&twice);
    assert_eq!(problem, Problem::ComplexControlTaken);
    assert_eq!(what, "voices");

    let unset = OSCILLATOR.replace("  voices:\n", "  voices:\n  spread:\n");
    let (problem, at, what) = problem_of(&unset);
    assert_eq!(problem, Problem::NoWidgetForComplexControl);
    assert_eq!(at, "test");
    assert_eq!(what, "spread");

    let (problem, _, what) = problem_of(&OSCILLATOR.replace("type: waveform", "type: wave"));
    assert_eq!(problem, Problem::InvalidJackType);
    assert_eq!(what, "wave");

    let (problem, _, what) = problem_of(&OSCILLATOR.replace("icon: Factory:saw", "icon: Factory:sine"));
    assert_eq!(problem, Problem::InvalidIconName);
    assert_eq!(what, "Factory:sine");

    let (problem, _, what) = problem_of(&OSCILLATOR.replace("tooltip: The tone\n", "tooltip: The tone\n    tooltip: Again\n"));
    assert_eq!(problem, Problem::DuplicateChild);
    assert_eq!(what, "tooltip");

    let mut few = icons();
    few.remove(2);
    let error = create_module_prototype_from_yaml(&few, "id".to_owned(), &tree(OSCILLATOR))
        .err()
        .unwrap();
    assert_eq!(error.problem, Problem::MissingTypeIcon);
    assert_eq!(error.at, "test.outputs.audio");
    assert_eq!(error.what, "base:audio");
}

#[test]
fn single_entries_are_read() {
    let control = create_control_from_yaml(&tree("gain:\n  min: 0\n  max: 2\n  default: 1\n").children[0])
        .unwrap();
    assert_eq!(control.code_name, "gain");
    assert_eq!(control.value, scalar(1.0));
    assert!(control.is_valid());
    assert!(control.automation.is_empty());

    let input = tree("in:\n  type: trigger\n  label: L\n  tooltip: T\n  default: 1\n");
    let (jack, default) = create_jack_from_yaml(&input.children[0], &icons(), true).unwrap();
    assert_eq!(jack.typ, JackType::Trigger);
    assert_eq!(jack.icon_index, 3);
    assert_eq!(default, 1);
    let too_far = tree("in:\n  type: trigger\n  label: L\n  tooltip: T\n  default: 2\n");
    assert_eq!(
        create_jack_from_yaml(&too_far.children[0], &icons(), true)
            .unwrap()
            .1,
        0
    );
    let below = tree("in:\n  type: trigger\n  label: L\n  tooltip: T\n  default: -1\n");
    assert_eq!(
        create_jack_from_yaml(&below.children[0], &icons(), true)
            .unwrap()
            .1,
        0
    );
    let bad = tree("in:\n  type: trigger\n  label: L\n  tooltip: T\n  default: x\n");
    assert_eq!(
        create_jack_from_yaml(&bad.children[0], &icons(), true)
            .err()
            .unwrap()
            .problem,
        Problem::NotAnInteger
    );
    assert!(create_jack_from_yaml(&bad.children[0], &icons(), false).is_ok());

    let graph = tree("envelope_graph:\n  x: 1\n  y: 2\n  w: 3\n  h: 4\n  feedback_name: env\n");
    let mut complex = Vec::new();
    match create_widget_outline_from_yaml(&graph.children[0], &Vec::new(), &mut complex).unwrap() {
        WidgetOutline::EnvelopeGraph {
            grid_pos,
            grid_size,
            feedback_name,
        } => {
            assert_eq!(grid_pos, (1, 2));
            assert_eq!(grid_size, (3, 4));
            assert_eq!(feedback_name, "env");
        }
        other => panic!("unexpected {:?}", other),
    }
    assert_eq!(code_resource_name("lib:a/b.module.yaml"), "lib:a/b.module.ns");
    assert_eq!(code_resource_name("lib:a/b.yaml"), "lib:a/b.yaml");
    let node = &graph.children[0];
    assert_eq!(node.unique_child("w").unwrap().i32().unwrap(), 3);
    assert_eq!(node.unique_child("w").unwrap().scalar().unwrap(), scalar(3.0));
    assert_eq!(
        node.unique_child("feedback_name")
            .unwrap()
            .scalar()
            .err()
            .unwrap()
            .problem,
        Problem::NotANumber
    );
    assert_eq!(
        node.unique_child("z").err().unwrap().problem,
        Problem::MissingChild
    );
}

fn archive(files: &[(&str, &[u8])]) -> Vec<u8> {
    let mut writer = zip::ZipWriter::new(Cursor::new(Vec::new()));
    for (name, data) in files {
        if name.ends_with('/') {
            writer
                .add_directory(*name, zip::write::FileOptions::default())
                .unwrap();
        } else {
            let method = if data.len() > 20 {
                zip::CompressionMethod::Deflated
            } else {
                zip::CompressionMethod::Stored
            };
            writer
                .start_file(
                    *name,
                    zip::write::FileOptions::default().compression_method(method),
                )
                .unwrap();
            writer.write_all(data).unwrap();
        }
    }
    writer.finish().unwrap().into_inner()
}

fn base_icons() -> Vec<(&'static str, &'static [u8])> {
    vec![
        ("icons/", b"".as_slice()),
        ("icons/pitch.icon.svg", b"<svg>pitch</svg>".as_slice()),
        ("icons/waveform.icon.svg", b"<svg>waveform</svg>".as_slice()),
        ("icons/audio.icon.svg", b"<svg>audio</svg>".as_slice()),
        ("icons/trigger.icon.svg", b"<svg>trigger</svg>".as_slice()),
    ]
}

#[test]
fn files_are_told_apart_by_name() {
    assert_eq!(classify("icons/"), FileKind::Directory);
    assert_eq!(classify("icons/a.icon.svg"), FileKind::Icon);
    assert_eq!(classify("modules/osc.module.yaml"), FileKind::Module);
    assert_eq!(classify("modules/osc.module.ns"), FileKind::Script);
    assert_eq!(classify("README.md"), FileKind::Document);
    assert_eq!(classify("patches/default.abpatch"), FileKind::Patch);
    assert_eq!(classify("picture.png"), FileKind::Other);
    assert_eq!(classify("library_info.yaml"), FileKind::Other);
    assert_eq!(
        Registry::strip_path_and_extension("icons/deep/saw.icon.svg", ".icon.svg"),
        "saw"
    );
    assert_eq!(
        Registry::strip_path_and_extension("saw.icon.svg", ".icon.svg"),
        "saw"
    );
    assert_eq!(
        Registry::strip_path_and_extension("a.b/c.d.module.yaml", ".module.yaml"),
        "c.d"
    );
    assert_eq!(qualify("Factory", "saw"), "Factory:saw");
}

#[test]
fn library_is_loaded_from_an_archive() {
    let mut patch = Patch::writable();
    patch.set_name("Init".to_owned());
    let patch_bytes = patch.serialize();
    let mut files = base_icons();
    files.push(("modules/osc.module.yaml", OSCILLATOR.as_bytes()));
    files.push(("modules/osc.module.ns", b"code of the oscillator, long enough to pack"));
    files.push(("icons/saw.icon.svg", b"<svg>saw</svg>"));
    files.push(("README.md", b"read me"));
    files.push(("patches/default.abpatch", &patch_bytes));
    let bytes = archive(&files);

    let mut registry = Registry::new();
    assert!(registry
        .load_library("base", archive(&base_icons()), &read_number)
        .is_ok());
    assert_eq!(registry.get_num_icons(), 4);
    assert_eq!(registry.lookup_icon("base:audio"), Some(2));

    registry
        .load_library("Factory", bytes, &read_number)
        .unwrap();
    assert_eq!(registry.get_num_icons(), 9);
    assert_eq!(registry.lookup_icon("Factory:saw"), Some(8));
    assert_eq!(registry.lookup_icon("Factory:audio"), Some(6));
    assert_eq!(registry.lookup_icon("base:audio"), Some(2));
    assert_eq!(registry.lookup_icon("Factory:sine"), None);
    assert_eq!(registry.borrow_icon_data(8), b"<svg>saw</svg>");
    assert_eq!(registry.borrow_icon_data(0), b"<svg>pitch</svg>");

    let module = registry.borrow_module("Factory:osc").unwrap();
    assert_eq!(module.template.resource_name, "Factory:osc");
    assert_eq!(
        module.template.code_resource,
        "Factory:modules/osc.module.ns"
    );
    assert_eq!(module.template.inputs[1].custom_icon_index, Some(8));
    assert!(registry.borrow_module("Factory:modules/osc").is_none());
    assert_eq!(registry.iterate_over_modules().len(), 1);
    assert_eq!(
        registry.borrow_scripts(),
        &vec![(
            "Factory:modules/osc.module.ns".to_owned(),
            "code of the oscillator, long enough to pack".to_owned()
        )]
    );
    assert_eq!(
        registry.get_patch_by_name("Factory:patches/default.abpatch"),
        Some(0)
    );
    assert_eq!(registry.borrow_patch(0).borrow_name(), "Init");
    assert!(!registry.borrow_patch(0).is_writable());

    let mut graph = ModuleGraph::new();
    graph.add_module(module.instantiate());
    let mut snapshot = Patch::writable();
    snapshot.save_note_graph(&graph);
    registry.patches[0].note_graph = snapshot.note_graph;
    let (engine, _) = Engine::new(registry).unwrap();
    assert_eq!(engine.borrow_module_graph_ref().len(), 1);
}

#[test]
fn library_faults_are_reported() {
    let mut registry = Registry::new();
    match registry.load_library("x", b"this is no archive".to_vec(), &read_number) {
        Err(LibraryError::NotAnArchive { reason }) => assert_eq!(reason, "invalid Zip archive"),
        other => panic!("unexpected {:?}", other),
    }
    assert_eq!(registry.get_num_icons(), 0);

    match registry.load_library(
        "x",
        archive(&[("a.icon.svg", b"i".as_slice()), ("picture.png", b"p".as_slice())]),
        &read_number,
    ) {
        Err(LibraryError::UnrecognizedFile { name }) => assert_eq!(name, "x:picture.png"),
        other => panic!("unexpected {:?}", other),
    }
    assert_eq!(registry.lookup_icon("x:a"), Some(0));

    match registry.load_library(
        "x",
        archive(&[("s.ns", b"\xFF\xFE".as_slice())]),
        &read_number,
    ) {
        Err(LibraryError::NotUtf8 { name, reason }) => {
            assert_eq!(name, "x:s.ns");
            assert!(reason.contains("invalid utf-8"));
        }
        other => panic!("unexpected {:?}", other),
    }
    match registry.load_library(
        "x",
        archive(&[("m.module.yaml", b"no colon here".as_slice())]),
        &read_number,
    ) {
        Err(LibraryError::Unparsable { name, fault: error }) => {
            assert_eq!(name, "x:m.module.yaml");
            assert_eq!(
                error,
                TextError {
                    problem: TextProblem::NoColon,
                    at: 0
                }
            );
        }
        other => panic!("unexpected {:?}", other),
    }
    match registry.load_library(
        "x",
        archive(&[("m.module.yaml", OSCILLATOR.as_bytes())]),
        &read_number,
    ) {
        Err(LibraryError::Descriptor { name, error }) => {
            assert_eq!(name, "x:m.module.yaml");
            assert_eq!(error.problem, Problem::MissingTypeIcon);
        }
        other => panic!("unexpected {:?}", other),
    }
    match registry.load_library(
        "x",
        archive(&[("p.abpatch", b"junk".as_slice())]),
        &read_number,
    ) {
        Err(LibraryError::BadPatch { name }) => assert_eq!(name, "x:p.abpatch"),
        other => panic!("unexpected {:?}", other),
    }
    let mut damaged = archive(&[(
        "s.ns",
        b"a script that is long enough to be packed, packed, packed, packed".as_slice(),
    )]);
    let at = damaged.len() / 4;
    damaged[at] ^= 0x55;
    damaged[at + 1] ^= 0x55;
    match registry.load_library("x", damaged, &read_number) {
        Err(LibraryError::UnreadableEntry { index }) => assert_eq!(index, 0),
        other => panic!("unexpected {:?}", other),
    }
}

#[test]
fn later_icon_of_the_same_name_wins() {
    let mut registry = Registry::new();
    registry
        .load_library(
            "L",
            archive(&[
                ("a/x.icon.svg", b"first".as_slice()),
                ("b/x.icon.svg", b"second".as_slice()),
            ]),
            &read_number,
        )
        .unwrap();
    assert_eq!(registry.get_num_icons(), 2);
    assert_eq!(registry.lookup_icon("L:x"), Some(1));
    assert_eq!(registry.borrow_icon_data(1), b"second");
    assert_eq!(registry.icon_indexes.len(), 1);
}

#[test]
fn versions_are_read() {
    assert_eq!(Version::parse("1.2.3"), Some(Version::new(1, 2, 3)));
    assert_eq!(Version::parse("0.0.0"), Some(Version::new(0, 0, 0)));
    assert_eq!(
        Version::parse("65535.10.007"),
        Some(Version::new(65535, 10, 7))
    );
    assert_eq!(Version::parse("65536.0.0"), None);
    assert_eq!(Version::parse("1.2"), None);
    assert_eq!(Version::parse("1.2.3.4"), None);
    assert_eq!(Version::parse("1..3"), None);
    assert_eq!(Version::parse(".1.2"), None);
    assert_eq!(Version::parse("1.2."), None);
    assert_eq!(Version::parse("a.b.c"), None);
    assert_eq!(Version::parse(""), None);
    assert_eq!(Version::parse("1.2.-3"), None);
}

const INFO: &str = "\
internal_name: Extras
pretty_name: Extra Modules
description: More of everything
version: 1.4.0
dependencies:
  Factory: 0.9.2
  Other: 2.0.1
";

#[test]
fn library_info_is_read() {
    let info = parse_library_info(&tree(INFO)).unwrap();
    assert_eq!(info.internal_name, "Extras");
    assert_eq!(info.pretty_name, "Extra Modules");
    assert_eq!(info.description, "More of everything");
    assert_eq!(info.version, Version::new(1, 4, 0));
    assert_eq!(
        info.dependencies,
        vec![
            ("Factory".to_owned(), Version::new(0, 9, 2)),
            ("Other".to_owned(), Version::new(2, 0, 1))
        ]
    );
    let alone = parse_library_info(&tree(&INFO.replace("  Factory: 0.9.2\n", "")))
        .err()
        .unwrap();
    assert_eq!(alone.problem, Problem::MissingFactoryDependency);
    assert_eq!(alone.what, "Extras");
    let factory = INFO
        .replace("internal_name: Extras", "internal_name: Factory")
        .replace("dependencies:\n  Factory: 0.9.2\n  Other: 2.0.1\n", "");
    assert!(parse_library_info(&tree(&factory))
        .unwrap()
        .dependencies
        .is_empty());
    let user = INFO
        .replace("internal_name: Extras", "internal_name: User")
        .replace("  Factory: 0.9.2\n", "");
    assert_eq!(parse_library_info(&tree(&user)).unwrap().dependencies.len(), 1);
    let bad = parse_library_info(&tree(&INFO.replace("version: 1.4.0", "version: new")))
        .err()
        .unwrap();
    assert_eq!(bad.problem, Problem::NotAVersion);
    assert_eq!(bad.at, "test.version");
    let bad = parse_library_info(&tree(&INFO.replace("Other: 2.0.1", "Other: 2")))
        .err()
        .unwrap();
    assert_eq!(bad.problem, Problem::NotAVersion);
    assert_eq!(bad.at, "test.dependencies.Other");
    let bad = parse_library_info(&tree(&INFO.replace("pretty_name", "name")))
        .err()
        .unwrap();
    assert_eq!(bad.problem, Problem::MissingChild);
    assert_eq!(bad.what, "pretty_name");
}

#[test]
fn zipped_library_is_preloaded() {
    let bytes = archive(&[
        ("modules/", b"".as_slice()),
        ("modules/a.module.ns", b"code".as_slice()),
        ("library_info.yaml", INFO.as_bytes()),
        ("README.md", b"hello".as_slice()),
    ]);
    let mut provider = ZippedLibraryContentProvider::new(bytes.clone()).unwrap();
    assert_eq!(provider.non_directory_files, vec![1, 2, 3]);
    assert_eq!(provider.get_num_files(), 3);
    assert_eq!(
        provider.get_file_name(0).as_deref(),
        Some("modules/a.module.ns")
    );
    assert_eq!(provider.get_file_name(2).as_deref(), Some("README.md"));
    assert_eq!(provider.get_file_name(3), None);
    assert_eq!(provider.get_full_path(1), None);
    assert_eq!(provider.read_file_contents(0).unwrap(), b"code");
    assert_eq!(provider.read_file_contents(2).unwrap(), b"hello");
    assert!(provider.read_file_contents(3).is_err());

    let library = preload_library(provider, &read_number).unwrap();
    assert_eq!(library.info.internal_name, "Extras");
    assert_eq!(library.info.version, Version::new(1, 4, 0));
    assert_eq!(library.content.get_num_files(), 3);
    let again = preload_zipped_library(
        ZippedLibraryContentProvider::new(bytes).unwrap(),
        &read_number,
    )
    .unwrap();
    assert_eq!(again.info.pretty_name, "Extra Modules");
    assert_eq!(again.info.dependencies.len(), 2);
    assert!(matches!(
        preload_zipped_library(
            ZippedLibraryContentProvider::new(archive(&[("a.md", b"x".as_slice())])).unwrap(),
            &read_number
        ),
        Err(PreloadError::MissingLibraryInfo)
    ));
    assert!(matches!(
        read_library_info(vec![0xC0], &read_number),
        Err(PreloadError::NotUtf8(reason)) if reason.contains("invalid utf-8")
    ));
    assert_eq!(
        read_library_info(INFO.as_bytes().to_vec(), &read_number)
            .unwrap()
            .description,
        "More of everything"
    );

    let without = ZippedLibraryContentProvider::new(archive(&[("README.md", b"x".as_slice())]))
        .unwrap();
    assert!(matches!(
        preload_library(without, &read_number),
        Err(PreloadError::MissingLibraryInfo)
    ));
    let invalid = ZippedLibraryContentProvider::new(archive(&[(
        "library_info.yaml",
        b"internal_name: X\n".as_slice(),
    )]))
    .unwrap();
    match preload_library(invalid, &read_number) {
        Err(PreloadError::Invalid(error)) => assert_eq!(error.problem, Problem::MissingChild),
        _ => panic!("the description is at fault"),
    }
    let unparsable = ZippedLibraryContentProvider::new(archive(&[(
        "library_info.yaml",
        b"nothing".as_slice(),
    )]))
    .unwrap();
    assert!(matches!(
        preload_library(unparsable, &read_number),
        Err(PreloadError::Unparsable(TextError {
            problem: TextProblem::NoColon,
            at: 0
        }))
    ));
    assert!(matches!(
        ZippedLibraryContentProvider::new(b"junk".to_vec()),
        Err(LibraryError::NotAnArchive { .. })
    ));
}

#[test]
fn descriptor_text_becomes_a_tree() {
    let text = "# a comment\nfirst: 1.5\n\n  inner:   spaced out  \r\n    deep : x:y\n  other:\nsecond:second\n   \n";
    let root = parse_yaml(text, "file.yaml", &read_number).unwrap();
    assert_eq!(root.name, "file.yaml");
    assert_eq!(root.full_name, "file.yaml");
    assert_eq!(root.value, "");
    assert_eq!(root.number, None);
    assert_eq!(root.children.len(), 2);
    let first = &root.children[0];
    assert_eq!(first.name, "first");
    assert_eq!(first.value, "1.5");
    assert_eq!(first.number, Some(scalar(1.5)));
    assert_eq!(first.full_name, "file.yaml.first");
    assert_eq!(first.children.len(), 2);
    let inner = &first.children[0];
    assert_eq!(inner.name, "inner");
    assert_eq!(inner.value, "spaced out");
    assert_eq!(inner.number, None);
    assert_eq!(inner.children.len(), 1);
    assert_eq!(inner.children[0].name, "deep");
    assert_eq!(inner.children[0].value, "x:y");
    assert_eq!(inner.children[0].full_name, "file.yaml.first.inner.deep");
    assert_eq!(first.children[1].name, "other");
    assert_eq!(first.children[1].value, "");
    assert!(first.children[1].children.is_empty());
    let second = &root.children[1];
    assert_eq!(second.name, "second");
    assert_eq!(second.value, "second");
    assert!(second.children.is_empty());

    let empty = parse_yaml("", "e", &read_number).unwrap();
    assert!(empty.children.is_empty());
    let unicode = parse_yaml("größe: 3 µm\n  tiefe: ∞", "u", &read_number).unwrap();
    assert_eq!(unicode.children[0].name, "größe");
    assert_eq!(unicode.children[0].value, "3 µm");
    assert_eq!(unicode.children[0].children[0].value, "∞");
}

#[test]
fn descriptor_text_faults_are_found() {
    let fault = |text: &str| parse_yaml(text, "f", &read_number).err().unwrap();
    assert_eq!(
        fault("a: 1\nno colon\nb: 2"),
        TextError {
            problem: TextProblem::NoColon,
            at: 5
        }
    );
    assert_eq!(
        fault("a: 1\n b: 2"),
        TextError {
            problem: TextProblem::OddIndent,
            at: 5
        }
    );
    assert_eq!(
        fault("a: 1\n    b: 2"),
        TextError {
            problem: TextProblem::TooDeep,
            at: 5
        }
    );
    assert_eq!(
        fault("  a: 1"),
        TextError {
            problem: TextProblem::TooDeep,
            at: 0
        }
    );
    assert_eq!(
        fault("ä: 1\n  b: 2\n      c: 3\nd"),
        TextError {
            problem: TextProblem::NoColon,
            at: 23
        }
    );
    assert_eq!(
        fault("ä: 1\n  b: 2\n      c: 3\nd:"),
        TextError {
            problem: TextProblem::TooDeep,
            at: 12
        }
    );
    let entries = read_entries("a: 1\n  b : 2 \n#c: 3\n\t\n    d:e:f").unwrap();
    assert_eq!(entries.len(), 3);
    assert_eq!(
        (entries[1].at, entries[1].indent, entries[1].key.as_str(), entries[1].value.as_str()),
        (5, 2, "b", "2")
    );
    assert_eq!(
        (entries[2].at, entries[2].indent, entries[2].key.as_str(), entries[2].value.as_str()),
        (22, 4, "d", "e:f")
    );
}

#[test]
fn entries_that_do_not_open_or_read_are_reported() {
    let mut closed = archive(&[
        ("a.md", b"first".as_slice()),
        ("b.md", b"second".as_slice()),
    ]);
    closed[0] ^= 0xFF;
    match ZippedLibraryContentProvider::new(closed.clone()) {
        Err(LibraryError::UnreadableEntry { index }) => assert_eq!(index, 0),
        _ => panic!("the first entry does not open"),
    }
    let mut registry = Registry::new();
    match registry.load_library("x", closed, &read_number) {
        Err(LibraryError::UnreadableEntry { index }) => assert_eq!(index, 0),
        other => panic!("unexpected {:?}", other),
    }

    let long_info = format!("{}# {}\n", INFO, "padding ".repeat(40));
    let mut damaged = archive(&[("library_info.yaml", long_info.as_bytes())]);
    let at = damaged.len() / 4;
    damaged[at] ^= 0x55;
    damaged[at + 1] ^= 0x55;
    let provider = ZippedLibraryContentProvider::new(damaged).unwrap();
    match preload_library(provider, &read_number) {
        Err(PreloadError::Unreadable(LibraryError::UnreadableEntry { index })) => {
            assert_eq!(index, 0)
        }
        _ => panic!("the description does not read"),
    }
}

#[test]
fn stem_is_found_in_any_path() {
    assert_eq!(
        Registry::strip_path_and_extension("modules/osc", ".module.yaml"),
        "osc"
    );
    assert_eq!(
        Registry::strip_path_and_extension("a/b.icon.svg.icon.svg", ".icon.svg"),
        "b.icon.svg"
    );
    assert_eq!(
        Registry::strip_path_and_extension("a/b.icon.svg.bak", ".icon.svg"),
        "b"
    );
    assert_eq!(
        Registry::strip_path_and_extension("a.icon.svg/b", ".icon.svg"),
        ""
    );
    assert_eq!(Registry::strip_path_and_extension("a/b/", ""), "");
    assert_eq!(Registry::strip_path_and_extension("", ".x"), "");
    assert_eq!(Registry::strip_path_and_extension("é/ü.x", ".x"), "ü");
}

fn far_archive() -> Vec<u8> {
    let mut bytes: Vec<u8> = vec![0];
    bytes.extend_from_slice(&[0x50, 0x4B, 0x01, 0x02]);
    bytes.extend_from_slice(&[20, 0, 20, 0, 0, 0, 0, 0, 0, 0, 0, 0]);
    bytes.extend_from_slice(&[0; 12]);
    bytes.extend_from_slice(&[0, 0, 12, 0, 0, 0]);
    bytes.extend_from_slice(&[0; 8]);
    bytes.extend_from_slice(&[0xFF; 4]);
    bytes.extend_from_slice(&[1, 0, 8, 0]);
    bytes.extend_from_slice(&[0xFF; 8]);
    bytes.extend_from_slice(&[0x50, 0x4B, 0x05, 0x06, 0, 0, 0, 0, 1, 0, 1, 0]);
    bytes.extend_from_slice(&[58, 0, 0, 0, 0, 0, 0, 0, 0, 0]);
    bytes
}

#[test]
fn archive_with_a_far_entry_is_refused() {
    let bytes = far_archive();
    assert_eq!(bytes.len(), 81);
    assert!(!audiobench::registry::archive::is_near(&bytes));
    let mut registry = Registry::new();
    assert!(matches!(
        registry.load_library("x", bytes.clone(), &read_number),
        Err(LibraryError::UnsupportedArchive)
    ));
    assert_eq!(registry.get_num_icons(), 0);
    assert!(matches!(
        ZippedLibraryContentProvider::new(bytes),
        Err(LibraryError::UnsupportedArchive)
    ));

    let ordinary = archive(&[("s.ns", b"code")]);
    assert!(audiobench::registry::archive::is_near(&ordinary));
    let mut marked = vec![0x50, 0x4B, 0x01, 0x02];
    marked.extend_from_slice(&[0; 38]);
    marked.extend_from_slice(&[0xFF, 0xFF, 0xFF]);
    assert!(audiobench::registry::archive::is_near(&marked));
    marked.push(0xFE);
    assert!(audiobench::registry::archive::is_near(&marked));
    let last = marked.len() - 1;
    marked[last] = 0xFF;
    assert!(!audiobench::registry::archive::is_near(&marked));
}

#[test]
fn what_came_before_a_fault_stays_filed() {
    let mut registry = Registry::new();
    match registry.load_library(
        "x",
        archive(&[
            ("a.ns", b"first"),
            ("docs/", b""),
            ("b.ns", b"second"),
            ("picture.png", b"?"),
            ("c.ns", b"third"),
        ]),
        &read_number,
    ) {
        Err(LibraryError::UnrecognizedFile { name }) => assert_eq!(name, "x:picture.png"),
        other => panic!("{:?}", other),
    }
    assert_eq!(
        registry.borrow_scripts(),
        &vec![
            ("x:a.ns".to_owned(), "first".to_owned()),
            ("x:b.ns".to_owned(), "second".to_owned()),
        ]
    );
}

#[test]
fn patches_are_filed_in_the_order_of_the_archive() {
    let mut first = Patch::writable();
    first.set_name("One".to_owned());
    let first_bytes = first.serialize();
    let mut second = Patch::writable();
    second.set_name("Two".to_owned());
    let second_bytes = second.serialize();
    let mut registry = Registry::new();
    registry
        .load_library(
            "x",
            archive(&[
                ("p/one.abpatch", &first_bytes),
                ("README.md", b"read me"),
                ("p/two.abpatch", &second_bytes),
            ]),
            &read_number,
        )
        .unwrap();
    assert_eq!(registry.get_patch_by_name("x:p/one.abpatch"), Some(0));
    assert_eq!(registry.get_patch_by_name("x:p/two.abpatch"), Some(1));
    assert_eq!(registry.get_patch_by_name("x:README.md"), None);
    assert_eq!(registry.borrow_patch(0).borrow_name(), "One");
    assert_eq!(registry.borrow_patch(1).borrow_name(), "Two");
    assert!(!registry.borrow_patch(1).is_writable());
}

struct Shelf {
    files: Vec<(String, Option<Vec<u8>>)>,
}

impl LibraryContentProvider for Shelf {
    fn get_num_files(&self) -> usize {
        self.files.len()
    }

    fn get_file_name(&mut self, index: usize) -> Option<String> {
        self.files.get(index).map(|file| file.0.clone())
    }

    fn get_full_path(&mut self, index: usize) -> Option<String> {
        self.files.get(index).map(|file| format!("/shelf/{}", file.0))
    }

    fn read_file_contents(&mut self, index: usize) -> Result<Vec<u8>, LibraryError> {
        match self.files.get(index) {
            Some((_, Some(data))) => Ok(data.clone()),
            _ => Err(LibraryError::UnreadableEntry { index }),
        }
    }
}

#[test]
fn library_of_a_host_provider_is_preloaded() {
    let shelf = Shelf {
        files: vec![
            ("README.md".to_owned(), Some(b"read me".to_vec())),
            ("library_info.yaml".to_owned(), Some(INFO.as_bytes().to_vec())),
            ("library_info.yaml".to_owned(), Some(b"never read".to_vec())),
        ],
    };
    let mut library = preload_library(shelf, &read_number).unwrap();
    assert_eq!(library.info.internal_name, "Extras");
    assert_eq!(library.info.pretty_name, "Extra Modules");
    assert_eq!(library.info.version, Version::new(1, 4, 0));
    assert_eq!(
        library.info.dependencies,
        vec![
            ("Factory".to_owned(), Version::new(0, 9, 2)),
            ("Other".to_owned(), Version::new(2, 0, 1)),
        ]
    );
    assert_eq!(library.content.get_num_files(), 3);
    assert_eq!(
        library.content.get_full_path(0),
        Some("/shelf/README.md".to_owned())
    );

    let locked = Shelf {
        files: vec![("library_info.yaml".to_owned(), None)],
    };
    match preload_library(locked, &read_number) {
        Err(PreloadError::Unreadable(LibraryError::UnreadableEntry { index })) => {
            assert_eq!(index, 0)
        }
        other => panic!("{:?}", other.err()),
    }
    let bare = Shelf { files: Vec::new() };
    assert!(matches!(
        preload_library(bare, &read_number),
        Err(PreloadError::MissingLibraryInfo)
    ));
}

#[test]
fn later_file_of_a_name_replaces_the_earlier() {
    let mut registry = Registry::new();
    registry
        .load_library(
            "x",
            archive(&[
                ("a.ns", b"first"),
                ("b.ns", b"other"),
                ("a.ns", b"second"),
            ]),
            &read_number,
        )
        .unwrap();
    assert_eq!(
        registry.borrow_scripts(),
        &vec![
            ("x:a.ns".to_owned(), "second".to_owned()),
            ("x:b.ns".to_owned(), "other".to_owned()),
        ]
    );
}
