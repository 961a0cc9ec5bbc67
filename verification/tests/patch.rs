use audiobench::engine::base::{Engine, LoadError, StartError};
use audiobench::engine::julia_thread::{CrossThreadData, InFlight, Request, Status};
use audiobench::engine::parts::{
    AutomationLane, ComplexControl, Control, IOJack, InputConnection, JackType, Module,
    ModuleGraph, ModuleTemplate,
};
use audiobench::registry::save_data::{Patch, PatchError, SavedModule};
use audiobench::registry::{put_key, Registry};
use audiobench::scalar::Scalar;
use std::rc::Rc;

fn scalar(value: f32) -> Scalar {
    Scalar::from_bits(value.to_bits())
}

fn jack(name: &str) -> IOJack {
    IOJack::create(
        JackType::Audio,
        0,
        None,
        name.to_owned(),
        name.to_owned(),
        String::new(),
    )
}

fn prototype(name: &str, inputs: usize, outputs: usize) -> Module {
    let template = Rc::new(ModuleTemplate {
        resource_name: name.to_owned(),
        label: name.to_owned(),
        category: "test".to_owned(),
        tooltip: String::new(),
        code_resource: format!("{}.ns", name),
        size: (2, 2),
        widget_outlines: Vec::new(),
        inputs: (0..inputs).map(|_| jack("in")).collect(),
        outputs: (0..outputs).map(|_| jack("out")).collect(),
        feedback_data_len: 2,
    });
    let control = Control::create(
        "level".to_owned(),
        scalar(0.0),
        scalar(10.0),
        scalar(1.0),
        "dB".to_owned(),
    );
    let complex = ComplexControl {
        code_name: "steps".to_owned(),
        value: "4".to_owned(),
        default: "4".to_owned(),
    };
    Module::create(template, vec![control], vec![complex], vec![0; inputs])
}

fn registry() -> Registry {
    let mut registry = Registry::new();
    put_key(
        &mut registry.modules,
        "Factory:osc".to_owned(),
        prototype("Factory:osc", 0, 1),
    );
    put_key(
        &mut registry.modules,
        "Factory:filter".to_owned(),
        prototype("Factory:filter", 1, 1),
    );
    put_key(
        &mut registry.modules,
        "Factory:out".to_owned(),
        prototype("Factory:out", 1, 0),
    );
    registry
}

fn demo_graph(registry: &Registry) -> ModuleGraph {
    let mut graph = ModuleGraph::new();
    let osc = graph.add_module(registry.borrow_module("Factory:osc").unwrap().instantiate());
    let filter = graph.add_module(
        registry
            .borrow_module("Factory:filter")
            .unwrap()
            .instantiate(),
    );
    let out = graph.add_module(registry.borrow_module("Factory:out").unwrap().instantiate());
    graph.add_connection(osc, 0, filter, 0);
    graph.add_connection(filter, 0, out, 0);
    graph.set_control_value(filter, 0, scalar(7.5));
    graph.add_automation(
        filter,
        0,
        AutomationLane {
            connection: (osc, 0),
            range: (scalar(2.0), scalar(3.0)),
        },
    );
    graph.modules[osc].complex_controls[0].value = "16".to_owned();
    graph.modules[out].pos = (-40, 12);
    graph
}

fn same_graph(a: &ModuleGraph, b: &ModuleGraph) {
    assert_eq!(a.len(), b.len());
    for (x, y) in a.modules.iter().zip(b.modules.iter()) {
        assert!(Rc::ptr_eq(&x.template, &y.template));
        assert_eq!(x.inputs, y.inputs);
        assert_eq!(x.default_inputs, y.default_inputs);
        assert_eq!(x.pos, y.pos);
        assert_eq!(x.controls.len(), y.controls.len());
        for (c, d) in x.controls.iter().zip(y.controls.iter()) {
            assert_eq!(c.code_name, d.code_name);
            assert_eq!(c.range, d.range);
            assert_eq!(c.value, d.value);
            assert_eq!(c.default, d.default);
            assert_eq!(c.suffix, d.suffix);
            assert_eq!(c.automation.len(), d.automation.len());
            for (l, m) in c.automation.iter().zip(d.automation.iter()) {
                assert_eq!(l.connection, m.connection);
                assert_eq!(l.range, m.range);
            }
        }
        assert_eq!(x.complex_controls.len(), y.complex_controls.len());
        for (c, d) in x.complex_controls.iter().zip(y.complex_controls.iter()) {
            assert_eq!(c.code_name, d.code_name);
            assert_eq!(c.value, d.value);
            assert_eq!(c.default, d.default);
        }
    }
}

fn default_patch_registry() -> Registry {
    let mut registry = registry();
    let graph = demo_graph(&registry);
    let mut patch = Patch::writable();
    patch.set_name("Default".to_owned());
    patch.save_note_graph(&graph);
    patch.writable = false;
    registry.patches.push(patch);
    put_key(
        &mut registry.patch_paths,
        "Factory:patches/default.abpatch".to_owned(),
        0,
    );
    registry
}

#[test]
fn save_then_restore_gives_the_graph_back() {
    let registry = registry();
    let graph = demo_graph(&registry);
    let mut patch = Patch::writable();
    patch.save_note_graph(&graph);
    let mut restored = ModuleGraph::new();
    patch.restore_note_graph(&mut restored, &registry).unwrap();
    same_graph(&graph, &restored);
    assert!(restored.is_well_formed());
}

#[test]
fn serialize_then_load_then_restore_gives_the_graph_back() {
    let registry = registry();
    let graph = demo_graph(&registry);
    let mut patch = Patch::writable();
    patch.set_name("Größe 7".to_owned());
    patch.save_note_graph(&graph);
    let bytes = patch.serialize();
    let mut loaded = Patch::writable();
    loaded.load_from_serialized_data(&bytes).unwrap();
    assert_eq!(loaded.borrow_name(), "Größe 7");
    assert_eq!(loaded.serialize(), bytes);
    let mut restored = ModuleGraph::new();
    loaded.restore_note_graph(&mut restored, &registry).unwrap();
    same_graph(&graph, &restored);
}

#[test]
fn serialized_form_is_as_described() {
    let mut patch = Patch::writable();
    patch.set_name("ab".to_owned());
    patch.note_graph.push(SavedModule {
        resource_name: "m".to_owned(),
        pos: (-1, 2),
        controls: Vec::new(),
        complex_controls: vec!["x".to_owned()],
        inputs: vec![InputConnection::Default(5), InputConnection::Wire(3, 4)],
    });
    let mut expected: Vec<u8> = Vec::new();
    let word = |x: u64| x.to_le_bytes().to_vec();
    expected.extend(word(2));
    expected.extend(b"ab");
    expected.extend(word(1));
    expected.extend(word(1));
    expected.extend(b"m");
    expected.extend(word(0x7FFF_FFFF));
    expected.extend(word(0x8000_0002));
    expected.extend(word(0));
    expected.extend(word(1));
    expected.extend(word(1));
    expected.extend(b"x");
    expected.extend(word(2));
    expected.extend(word(0));
    expected.extend(word(5));
    expected.extend(word(1));
    expected.extend(word(3));
    expected.extend(word(4));
    assert_eq!(patch.serialize(), expected);
}

#[test]
fn bytes_that_are_no_patch_are_refused() {
    let mut patch = Patch::writable();
    patch.set_name("kept".to_owned());
    assert!(matches!(
        patch.load_from_serialized_data(&[1, 2, 3]),
        Err(PatchError::Malformed)
    ));
    assert_eq!(patch.borrow_name(), "kept");
    let mut bytes = Patch::writable().serialize();
    bytes.push(0);
    assert!(matches!(
        patch.load_from_serialized_data(&bytes),
        Err(PatchError::Malformed)
    ));
    let mut bad_text: Vec<u8> = 1u64.to_le_bytes().to_vec();
    bad_text.push(0xFF);
    bad_text.extend(0u64.to_le_bytes());
    assert!(matches!(
        patch.load_from_serialized_data(&bad_text),
        Err(PatchError::Malformed)
    ));
    assert_eq!(patch.borrow_name(), "kept");
}

#[test]
fn unknown_template_is_reported_and_graph_is_kept() {
    let registry = registry();
    let graph = demo_graph(&registry);
    let mut patch = Patch::writable();
    patch.save_note_graph(&graph);
    patch.note_graph[1].resource_name = "Factory:missing".to_owned();
    patch.note_graph[2].resource_name = "Factory:gone".to_owned();
    let mut target = demo_graph(&registry);
    target.set_control_value(0, 0, scalar(9.0));
    let error = patch.restore_note_graph(&mut target, &registry).unwrap_err();
    match error {
        PatchError::UnresolvedTemplate { resource_name } => {
            assert_eq!(resource_name, "Factory:missing")
        }
        other => panic!("unexpected {:?}", other),
    }
    assert_eq!(target.len(), 3);
    assert_eq!(target.modules[0].controls[0].value, scalar(9.0));
}

#[test]
fn snapshot_that_does_not_fit_is_malformed() {
    let registry = registry();
    let graph = demo_graph(&registry);
    let mut target = ModuleGraph::new();

    let mut patch = Patch::writable();
    patch.save_note_graph(&graph);
    patch.note_graph[0].controls.pop();
    assert!(matches!(
        patch.restore_note_graph(&mut target, &registry),
        Err(PatchError::Malformed)
    ));

    let mut patch = Patch::writable();
    patch.save_note_graph(&graph);
    patch.note_graph[1].inputs[0] = InputConnection::Wire(9, 0);
    assert!(matches!(
        patch.restore_note_graph(&mut target, &registry),
        Err(PatchError::Malformed)
    ));

    let mut patch = Patch::writable();
    patch.save_note_graph(&graph);
    patch.note_graph[1].controls[0].value = scalar(11.0);
    assert!(matches!(
        patch.restore_note_graph(&mut target, &registry),
        Err(PatchError::Malformed)
    ));
    assert_eq!(target.len(), 0);
}

#[test]
fn engine_starts_on_the_default_patch() {
    let registry = default_patch_registry();
    let expected = demo_graph(&registry);
    let (engine, startup) = Engine::new(registry).unwrap();
    same_graph(&expected, engine.borrow_module_graph_ref());
    assert_eq!(engine.current_patch, 0);
    assert_eq!(engine.borrow_current_patch().borrow_name(), "Default");
    assert_eq!(startup.ctd.julia_thread_status, Status::Busy);
    assert_eq!(startup.ctd.global_params.channels, 2);
    assert_eq!(startup.ctd.global_params.buffer_length, 512);
    assert_eq!(startup.ctd.global_params.sample_rate, 44100);
    assert!(startup.ctd.critical_error.is_none());
    assert_eq!(startup.worker.in_flight, InFlight::Startup);
    assert_eq!(startup.worker.code.order, vec![0, 1, 2]);
    assert_eq!(engine.dyn_data_collector.controls, vec![(0, 0), (1, 0), (2, 0)]);
    assert!(engine.is_julia_thread_busy(&startup.ctd));
    assert_eq!(engine.clone_critical_error(&startup.ctd), None);
}

#[test]
fn engine_needs_a_default_patch() {
    assert!(matches!(
        Engine::new(registry()),
        Err(StartError::MissingDefaultPatch)
    ));
    let mut broken = default_patch_registry();
    broken.patches[0].note_graph[0].resource_name = "nope".to_owned();
    assert!(matches!(
        Engine::new(broken),
        Err(StartError::DefaultPatchFailed(
            PatchError::UnresolvedTemplate { .. }
        ))
    ));
    let mut looped = default_patch_registry();
    looped.patches[0].note_graph[1].inputs[0] = InputConnection::Wire(1, 0);
    match Engine::new(looped) {
        Err(StartError::DefaultPatchCyclic(error)) => assert_eq!(error.ring, vec![1]),
        _ => panic!("a feedback loop was expected"),
    }
}

#[test]
fn factory_patch_cannot_be_written() {
    let (mut engine, _) = Engine::new(default_patch_registry()).unwrap();
    engine.module_graph.set_control_value(0, 0, scalar(3.0));
    assert!(engine.save_current_patch().is_err());
    assert!(engine.rename_current_patch("Mine".to_owned()).is_err());
    assert!(engine.serialize_current_patch().is_err());
    let patch = engine.borrow_current_patch();
    assert_eq!(patch.borrow_name(), "Default");
    assert_eq!(patch.note_graph[0].controls[0].value, scalar(1.0));
}

#[test]
fn saving_under_a_new_name_keeps_the_old_patch() {
    let (mut engine, _) = Engine::new(default_patch_registry()).unwrap();
    engine.module_graph.set_control_value(0, 0, scalar(3.0));
    let place = engine.save_current_patch_with_new_name();
    assert_eq!(place, 1);
    assert_eq!(engine.current_patch, 1);
    let copy = engine.borrow_current_patch();
    assert!(copy.is_writable());
    assert_eq!(copy.borrow_name(), "Default 2");
    assert_eq!(copy.note_graph[0].controls[0].value, scalar(3.0));
    let first = engine.borrow_registry().borrow_patch(0);
    assert!(!first.is_writable());
    assert_eq!(first.borrow_name(), "Default");
    assert_eq!(first.note_graph[0].controls[0].value, scalar(1.0));

    engine.module_graph.set_control_value(0, 0, scalar(4.0));
    assert!(engine.save_current_patch().is_ok());
    assert!(engine.rename_current_patch("Mine 9".to_owned()).is_ok());
    assert_eq!(engine.borrow_current_patch().borrow_name(), "Mine 9");
    assert_eq!(
        engine.borrow_current_patch().note_graph[0].controls[0].value,
        scalar(4.0)
    );
    assert_eq!(engine.save_current_patch_with_new_name(), 2);
    assert_eq!(engine.borrow_current_patch().borrow_name(), "Mine 10");
}

#[test]
fn patch_travels_through_the_clipboard() {
    let (mut engine, startup) = Engine::new(default_patch_registry()).unwrap();
    let mut ctd = startup.ctd;
    engine.save_current_patch_with_new_name();
    engine.module_graph.set_control_value(1, 0, scalar(2.5));
    engine.module_graph.remove_connection(2, 0);
    let bytes = engine.serialize_current_patch().unwrap();
    let expected = demo_graph(engine.borrow_registry());

    engine.load_patch(&mut ctd, 0).unwrap();
    same_graph(&expected, engine.borrow_module_graph_ref());
    assert_eq!(engine.current_patch, 0);

    let (place, request) = engine.new_patch_from_clipboard(&mut ctd, &bytes).unwrap();
    assert_eq!(place, 2);
    assert_eq!(engine.current_patch, 2);
    assert_eq!(engine.borrow_current_patch().borrow_name(), "Default 2 (pasted)");
    assert!(engine.borrow_current_patch().is_writable());
    assert_eq!(
        engine.borrow_module_graph_ref().modules[1].controls[0].value,
        scalar(2.5)
    );
    assert_eq!(
        engine.borrow_module_graph_ref().modules[2].inputs[0],
        InputConnection::Default(0)
    );
    match request {
        Request::LoadArtifact { code, data_format } => {
            assert_eq!(code.order.len(), 3);
            assert_eq!(data_format.dyn_data_len, 3);
        }
        _ => panic!("expected new code for the worker"),
    }
}

#[test]
fn failed_load_leaves_the_engine_as_it_was() {
    let (mut engine, startup) = Engine::new(default_patch_registry()).unwrap();
    let mut ctd = startup.ctd;
    engine.module_graph.set_control_value(0, 0, scalar(6.0));
    assert!(matches!(
        engine.new_patch_from_clipboard(&mut ctd, b"not a patch"),
        Err(LoadError::Patch(PatchError::Malformed))
    ));
    assert_eq!(engine.borrow_registry().patches.len(), 1);

    let mut unknown = Patch::writable();
    unknown.note_graph.push(SavedModule {
        resource_name: "Other:thing".to_owned(),
        pos: (0, 0),
        controls: Vec::new(),
        complex_controls: Vec::new(),
        inputs: Vec::new(),
    });
    assert!(matches!(
        engine.new_patch_from_clipboard(&mut ctd, &unknown.serialize()),
        Err(LoadError::Patch(PatchError::UnresolvedTemplate { .. }))
    ));

    let mut looped = Patch::writable();
    looped.save_note_graph(engine.borrow_module_graph_ref());
    looped.note_graph[1].inputs[0] = InputConnection::Wire(1, 0);
    engine.registry.patches.push(looped);
    match engine.load_patch(&mut ctd, 1) {
        Err(LoadError::Cyclic(error)) => assert_eq!(error.ring, vec![1]),
        _ => panic!("a feedback loop was expected"),
    }
    assert_eq!(engine.current_patch, 0);
    assert_eq!(
        engine.borrow_module_graph_ref().modules[0].controls[0].value,
        scalar(6.0)
    );
    assert_eq!(
        engine.borrow_module_graph_ref().modules[1].inputs[0],
        InputConnection::Wire(0, 0)
    );
}

#[test]
fn recompile_replaces_decoders_or_nothing() {
    let (mut engine, startup) = Engine::new(default_patch_registry()).unwrap();
    let mut ctd: CrossThreadData = startup.ctd;
    let registry_len = engine.borrow_registry().modules.len();
    assert_eq!(registry_len, 3);
    let extra = engine
        .borrow_registry()
        .borrow_module("Factory:filter")
        .unwrap()
        .instantiate();
    let place = engine.module_graph.add_module(extra);
    assert_eq!(engine.dyn_data_collector.controls.len(), 3);
    assert_eq!(ctd.perf_counter.generate_code, 0);
    let request = engine.recompile(&mut ctd).unwrap();
    assert_eq!(ctd.perf_counter.generate_code, 1);
    assert_eq!(
        engine.dyn_data_collector.controls,
        vec![(0, 0), (1, 0), (2, 0), (3, 0)]
    );
    assert_eq!(engine.feedback_displayer.segments.len(), 4);
    assert!(matches!(request, Request::LoadArtifact { .. }));

    engine.module_graph.add_connection(place, 0, place, 0);
    engine.module_graph.remove_module(0);
    let error = engine.recompile(&mut ctd).unwrap_err();
    assert_eq!(error.ring, vec![2]);
    assert_eq!(ctd.perf_counter.generate_code, 2);
    assert_eq!(engine.dyn_data_collector.controls.len(), 4);
    assert_eq!(engine.feedback_displayer.segments.len(), 4);
    assert_eq!(engine.reload_dyn_data(&mut ctd), None);
    engine.module_graph.remove_connection(2, 0);
    assert!(engine.recompile(&mut ctd).is_ok());
    assert_eq!(
        engine.reload_dyn_data(&mut ctd),
        Some(vec![scalar(7.5), scalar(1.0), scalar(1.0)])
    );
    let feedback: Vec<Scalar> = (0..6).map(|i| scalar(i as f32)).collect();
    assert_eq!(
        engine.display_new_feedback_data(Some(&feedback), 1),
        Some(vec![scalar(2.0), scalar(3.0)])
    );
    assert_eq!(engine.display_new_feedback_data(None, 1), None);
}

#[test]
fn saved_patch_loads_back_into_the_engine() {
    let (mut engine, startup) = Engine::new(default_patch_registry()).unwrap();
    let mut ctd = startup.ctd;
    engine.save_current_patch_with_new_name();
    engine.module_graph.set_control_value(1, 0, scalar(3.25));
    engine.module_graph.remove_automation(1, 0, 0);
    engine.module_graph.remove_connection(2, 0);
    engine.module_graph.modules[0].complex_controls[0].value = "5".to_owned();
    engine.module_graph.modules[0].pos = (7, -9);
    let bytes = engine.serialize_current_patch().unwrap();

    let mut expected = demo_graph(engine.borrow_registry());
    expected.set_control_value(1, 0, scalar(3.25));
    expected.remove_automation(1, 0, 0);
    expected.remove_connection(2, 0);
    expected.modules[0].complex_controls[0].value = "5".to_owned();
    expected.modules[0].pos = (7, -9);
    same_graph(&expected, engine.borrow_module_graph_ref());

    let place = engine.registry.create_new_user_patch();
    engine.registry.patches[place]
        .load_from_serialized_data(&bytes)
        .unwrap();
    engine.load_patch(&mut ctd, 0).unwrap();
    same_graph(
        &demo_graph(engine.borrow_registry()),
        engine.borrow_module_graph_ref(),
    );
    engine.load_patch(&mut ctd, place).unwrap();
    assert_eq!(engine.current_patch, place);
    same_graph(&expected, engine.borrow_module_graph_ref());
    assert_eq!(engine.borrow_module_graph_ref().modules[1].controls[0].automation.len(), 0);
    assert_eq!(
        engine.borrow_module_graph_ref().modules[2].inputs[0],
        InputConnection::Default(0)
    );
}

#[test]
fn loading_counts_what_it_compiled() {
    let (mut engine, startup) = Engine::new(default_patch_registry()).unwrap();
    let mut ctd = startup.ctd;
    let counts = |ctd: &CrossThreadData| {
        (
            ctd.perf_counter.generate_code,
            ctd.perf_counter.collect_control_data,
            ctd.perf_counter.render,
        )
    };
    assert_eq!(counts(&ctd), (0, 0, 0));
    engine.load_patch(&mut ctd, 0).unwrap();
    assert_eq!(counts(&ctd), (1, 1, 0));

    assert!(engine
        .new_patch_from_clipboard(&mut ctd, b"not a patch")
        .is_err());
    assert_eq!(counts(&ctd), (1, 1, 0));

    let mut unknown = Patch::writable();
    unknown.note_graph.push(SavedModule {
        resource_name: "Other:thing".to_owned(),
        pos: (0, 0),
        controls: Vec::new(),
        complex_controls: Vec::new(),
        inputs: Vec::new(),
    });
    engine.registry.patches.push(unknown);
    assert!(engine.load_patch(&mut ctd, 1).is_err());
    assert_eq!(counts(&ctd), (1, 1, 0));

    let mut looped = Patch::writable();
    looped.save_note_graph(engine.borrow_module_graph_ref());
    looped.note_graph[1].inputs[0] = InputConnection::Wire(1, 0);
    let looped_bytes = looped.serialize();
    assert!(matches!(
        engine.new_patch_from_clipboard(&mut ctd, &looped_bytes),
        Err(LoadError::Cyclic(_))
    ));
    assert_eq!(counts(&ctd), (2, 1, 0));

    let bytes = engine.borrow_current_patch().serialize();
    engine.new_patch_from_clipboard(&mut ctd, &bytes).unwrap();
    assert_eq!(counts(&ctd), (3, 2, 0));
    engine.recompile(&mut ctd).unwrap();
    assert_eq!(counts(&ctd), (4, 3, 0));
    engine.module_graph.add_connection(1, 0, 1, 0);
    assert!(engine.recompile(&mut ctd).is_err());
    assert_eq!(counts(&ctd), (5, 3, 0));
}

#[test]
fn registry_is_tested_for_order() {
    let mut registry = default_patch_registry();
    assert!(registry.is_wf());
    assert!(Registry::new().is_wf());

    registry.patch_paths[0].1 = 1;
    assert!(!registry.is_wf());
    registry.patch_paths[0].1 = 0;
    assert!(registry.is_wf());

    registry
        .icon_indexes
        .push(("Factory:saw".to_owned(), 0));
    assert!(!registry.is_wf());
    registry.icons.push(Vec::new());
    assert!(registry.is_wf());
    registry
        .icon_indexes
        .push(("Factory:saw".to_owned(), 0));
    assert!(!registry.is_wf());
    registry.icon_indexes.pop();

    registry.modules[1].0 = "Factory:osc".to_owned();
    assert!(!registry.is_wf());
    registry.modules[1].0 = "Factory:sieve".to_owned();
    assert!(!registry.is_wf());
    registry.modules[1].0 = "Factory:filter".to_owned();
    assert!(registry.is_wf());

    registry.modules[1].1.controls[0].value = scalar(2.0);
    assert!(!registry.modules[1].1.is_fresh());
    assert!(registry.modules[1].1.is_shaped());
    assert!(!registry.is_wf());
    registry.modules[1].1.controls[0].value = scalar(1.0);
    assert!(registry.is_wf());

    registry.modules[1].1.inputs[0] = InputConnection::Wire(0, 0);
    assert!(!registry.modules[1].1.is_fresh());
    registry.modules[1].1.inputs[0] = InputConnection::Default(0);
    registry.modules[1].1.complex_controls[0].value = "5".to_owned();
    assert!(!registry.modules[1].1.is_fresh());
    registry.modules[1].1.complex_controls[0].value = "4".to_owned();
    registry.modules[1].1.pos = (0, 1);
    assert!(!registry.modules[1].1.is_fresh());
    registry.modules[1].1.pos = (0, 0);
    assert!(registry.modules[1].1.is_fresh());

    registry.modules[1].1.inputs.push(InputConnection::Default(0));
    assert!(!registry.modules[1].1.is_shaped());
    assert!(!registry.is_wf());
    registry.modules[1].1.inputs.pop();
    registry.modules[1].1.controls[0].default = scalar(11.0);
    registry.modules[1].1.controls[0].value = scalar(11.0);
    assert!(registry.modules[1].1.is_fresh());
    assert!(!registry.modules[1].1.is_shaped());
    assert!(!registry.is_wf());
}
