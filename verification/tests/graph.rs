use audiobench::engine::codegen::compile;
use audiobench::engine::data_routing::{ControlDynDataCollector, FeedbackDisplayer};
use audiobench::engine::data_transfer::GlobalParameters;
use audiobench::engine::parts::{
    AutomationLane, Control, IOJack, InputConnection, JackType, Module, ModuleGraph,
    ModuleTemplate,
};
use audiobench::engine::schedule::schedule;
use audiobench::scalar::Scalar;
use std::rc::Rc;

fn scalar(value: f32) -> Scalar {
    Scalar::from_bits(value.to_bits())
}

fn jack(name: &str) -> IOJack {
    IOJack::create(
        JackType::Audio,
        0,
        None,
        name.to_owned(),
        name.to_owned(),
        String::new(),
    )
}

fn template(name: &str, inputs: usize, outputs: usize, feedback: usize) -> Rc<ModuleTemplate> {
    Rc::new(ModuleTemplate {
        resource_name: name.to_owned(),
        label: name.to_owned(),
        category: "test".to_owned(),
        tooltip: String::new(),
        code_resource: format!("{}.ns", name),
        size: (2, 2),
        widget_outlines: Vec::new(),
        inputs: (0..inputs).map(|_| jack("in")).collect(),
        outputs: (0..outputs).map(|_| jack("out")).collect(),
        feedback_data_len: feedback,
    })
}

fn module_with(name: &str, inputs: usize, outputs: usize, controls: usize) -> Module {
    let controls = (0..controls)
        .map(|c| {
            Control::create(
                format!("c{}", c),
                scalar(-1.0),
                scalar(1.0),
                scalar(0.0),
                String::new(),
            )
        })
        .collect();
    Module::create(
        template(name, inputs, outputs, 3),
        controls,
        Vec::new(),
        vec![0; inputs],
    )
}

fn module(name: &str, inputs: usize, outputs: usize) -> Module {
    module_with(name, inputs, outputs, 1)
}

fn params() -> GlobalParameters {
    GlobalParameters {
        channels: 2,
        buffer_length: 512,
        sample_rate: 44100,
    }
}

fn comes_before(order: &[usize], first: usize, second: usize) -> bool {
    let a = order.iter().position(|m| *m == first).unwrap();
    let b = order.iter().position(|m| *m == second).unwrap();
    a < b
}

#[test]
fn chain_of_two_is_acyclic() {
    let mut graph = ModuleGraph::new();
    let a = graph.add_module(module("a", 0, 1));
    let b = graph.add_module(module("b", 1, 1));
    graph.add_connection(a, 0, b, 0);
    let order = graph.validate_acyclic().unwrap();
    assert_eq!(order, vec![a, b]);
}

#[test]
fn feedback_between_two_is_found() {
    let mut graph = ModuleGraph::new();
    let a = graph.add_module(module("a", 1, 1));
    let b = graph.add_module(module("b", 1, 1));
    graph.add_connection(a, 0, b, 0);
    assert!(graph.validate_acyclic().is_ok());
    graph.add_connection(b, 0, a, 0);
    let error = graph.validate_acyclic().unwrap_err();
    assert_eq!(error.ring, vec![a, b]);
    assert_eq!(graph.modules[a].inputs[0], InputConnection::Wire(b, 0));
    assert_eq!(graph.modules[b].inputs[0], InputConnection::Wire(a, 0));
}

#[test]
fn module_wired_to_itself_is_a_ring_of_one() {
    let mut graph = ModuleGraph::new();
    let a = graph.add_module(module("a", 1, 1));
    graph.add_connection(a, 0, a, 0);
    let error = graph.validate_acyclic().unwrap_err();
    assert_eq!(error.ring, vec![a]);
}

#[test]
fn empty_graph_is_acyclic() {
    let graph = ModuleGraph::new();
    assert_eq!(graph.validate_acyclic().unwrap(), Vec::<usize>::new());
    assert!(graph.is_well_formed());
}

#[test]
fn order_puts_sources_first() {
    let mut graph = ModuleGraph::new();
    let mixer = graph.add_module(module("mixer", 2, 1));
    let osc = graph.add_module(module("osc", 0, 1));
    let env = graph.add_module(module("env", 0, 1));
    let out = graph.add_module(module("out", 1, 0));
    graph.add_connection(osc, 0, mixer, 0);
    graph.add_connection(env, 0, mixer, 1);
    graph.add_connection(mixer, 0, out, 0);
    let order = graph.validate_acyclic().unwrap();
    assert_eq!(order.len(), 4);
    assert!(comes_before(&order, osc, mixer));
    assert!(comes_before(&order, env, mixer));
    assert!(comes_before(&order, mixer, out));
    assert_eq!(order, vec![osc, env, mixer, out]);
}

#[test]
fn automation_counts_as_reading() {
    let mut graph = ModuleGraph::new();
    let a = graph.add_module(module("a", 1, 1));
    let b = graph.add_module(module("b", 1, 1));
    graph.add_connection(a, 0, b, 0);
    let lane = AutomationLane {
        connection: (b, 0),
        range: (scalar(-0.5), scalar(0.5)),
    };
    graph.add_automation(a, 0, lane);
    assert_eq!(graph.dependencies(), vec![vec![b], vec![a]]);
    let error = graph.validate_acyclic().unwrap_err();
    assert_eq!(error.ring, vec![a, b]);
    graph.remove_automation(a, 0, 0);
    assert!(graph.validate_acyclic().is_ok());
}

#[test]
fn longer_ring_is_reported_whole() {
    let mut graph = ModuleGraph::new();
    let a = graph.add_module(module("a", 1, 1));
    let b = graph.add_module(module("b", 1, 1));
    let c = graph.add_module(module("c", 1, 1));
    let d = graph.add_module(module("d", 1, 1));
    graph.add_connection(a, 0, b, 0);
    graph.add_connection(b, 0, c, 0);
    graph.add_connection(c, 0, d, 0);
    graph.add_connection(d, 0, b, 0);
    let error = graph.validate_acyclic().unwrap_err();
    assert_eq!(error.ring, vec![b, d, c]);
}

#[test]
fn schedule_on_plain_lists() {
    assert_eq!(
        schedule(&vec![vec![1, 2], vec![2], vec![]]),
        Ok(vec![2, 1, 0])
    );
    assert_eq!(
        schedule(&vec![vec![1], vec![2], vec![0]]),
        Err(vec![0, 1, 2])
    );
    assert_eq!(schedule(&vec![vec![], vec![1]]), Err(vec![1]));
}

#[test]
fn remove_connection_goes_back_to_default() {
    let mut graph = ModuleGraph::new();
    let a = graph.add_module(module("a", 0, 1));
    let mut consumer = module("b", 2, 1);
    consumer.default_inputs = vec![3, 1];
    consumer.inputs = vec![InputConnection::Default(3), InputConnection::Default(1)];
    let b = graph.add_module(consumer);
    graph.add_connection(a, 0, b, 1);
    assert_eq!(graph.modules[b].inputs[1], InputConnection::Wire(a, 0));
    graph.remove_connection(b, 1);
    assert_eq!(graph.modules[b].inputs[1], InputConnection::Default(1));
    assert_eq!(graph.modules[b].inputs[0], InputConnection::Default(3));
}

#[test]
fn removing_a_module_detaches_and_renumbers() {
    let mut graph = ModuleGraph::new();
    let a = graph.add_module(module("a", 0, 1));
    let b = graph.add_module(module("b", 1, 1));
    let c = graph.add_module(module("c", 2, 1));
    graph.add_connection(a, 0, c, 0);
    graph.add_connection(b, 0, c, 1);
    graph.add_automation(
        c,
        0,
        AutomationLane {
            connection: (a, 0),
            range: (scalar(0.0), scalar(1.0)),
        },
    );
    graph.add_automation(
        c,
        0,
        AutomationLane {
            connection: (b, 0),
            range: (scalar(-1.0), scalar(0.0)),
        },
    );
    let removed = graph.remove_module(a);
    assert_eq!(removed.template.resource_name, "a");
    assert_eq!(graph.len(), 2);
    assert_eq!(graph.modules[0].template.resource_name, "b");
    assert_eq!(graph.modules[1].template.resource_name, "c");
    assert_eq!(graph.modules[1].inputs[0], InputConnection::Default(0));
    assert_eq!(graph.modules[1].inputs[1], InputConnection::Wire(0, 0));
    let lanes = &graph.modules[1].controls[0].automation;
    assert_eq!(lanes.len(), 1);
    assert_eq!(lanes[0].connection, (0, 0));
    assert_eq!(lanes[0].range.0, scalar(-1.0));
    assert!(graph.is_well_formed());
}

#[test]
fn well_formedness_is_checked() {
    let mut graph = ModuleGraph::new();
    graph.add_module(module("a", 1, 1));
    assert!(graph.is_well_formed());
    graph.modules[0].inputs[0] = InputConnection::Wire(5, 0);
    assert!(!graph.is_well_formed());
    graph.modules[0].inputs[0] = InputConnection::Wire(0, 1);
    assert!(!graph.is_well_formed());
    graph.modules[0].inputs[0] = InputConnection::Wire(0, 0);
    assert!(graph.is_well_formed());
    graph.modules[0].controls[0].value = scalar(2.0);
    assert!(!graph.is_well_formed());
}

#[test]
fn set_control_value_changes_only_that_control() {
    let mut graph = ModuleGraph::new();
    let a = graph.add_module(module_with("a", 0, 1, 2));
    graph.set_control_value(a, 1, scalar(0.25));
    assert_eq!(graph.modules[a].controls[1].value, scalar(0.25));
    assert_eq!(graph.modules[a].controls[0].value, scalar(0.0));
}

#[test]
fn compile_succeeds_on_acyclic_graph_and_lists_controls_in_graph_order() {
    let mut graph = ModuleGraph::new();
    let out = graph.add_module(module_with("out", 1, 0, 2));
    let osc = graph.add_module(module_with("osc", 0, 1, 3));
    let none = graph.add_module(module_with("plain", 0, 1, 0));
    graph.add_connection(osc, 0, out, 0);
    let artifact = compile(&graph, &params()).unwrap();
    assert_eq!(artifact.code.order, vec![osc, out, none]);
    assert_eq!(
        artifact.code.resources,
        vec!["osc.ns".to_owned(), "out.ns".to_owned(), "plain.ns".to_owned()]
    );
    assert_eq!(
        artifact.dyn_data_collector.controls,
        vec![(out, 0), (out, 1), (osc, 0), (osc, 1), (osc, 2)]
    );
    assert_eq!(artifact.data_format.dyn_data_len, 5);
    assert_eq!(artifact.data_format.feedback_data_len, 9);
    assert_eq!(artifact.data_format.global_params, params());
    assert_eq!(
        artifact.feedback_displayer.segments,
        vec![(0, 3), (3, 3), (6, 3)]
    );
}

#[test]
fn compile_lists_controls_the_same_way_whatever_the_wiring() {
    let mut graph = ModuleGraph::new();
    let a = graph.add_module(module_with("a", 1, 1, 2));
    let b = graph.add_module(module_with("b", 1, 1, 1));
    let before = compile(&graph, &params()).unwrap().dyn_data_collector.controls;
    graph.add_connection(b, 0, a, 0);
    let after = compile(&graph, &params()).unwrap();
    assert_eq!(after.code.order, vec![b, a]);
    assert_eq!(after.dyn_data_collector.controls, before);
    let again = compile(&graph, &params()).unwrap();
    assert_eq!(again.dyn_data_collector.controls, before);
    assert_eq!(again.code.order, after.code.order);
}

#[test]
fn compile_fails_on_cycle_and_leaves_the_graph_alone() {
    let mut graph = ModuleGraph::new();
    let a = graph.add_module(module("a", 1, 1));
    let b = graph.add_module(module("b", 1, 1));
    graph.add_connection(a, 0, b, 0);
    graph.add_connection(b, 0, a, 0);
    let error = compile(&graph, &params()).unwrap_err();
    assert_eq!(error.ring, vec![a, b]);
    assert_eq!(graph.len(), 2);
    assert_eq!(graph.modules[a].inputs, vec![InputConnection::Wire(b, 0)]);
    assert_eq!(graph.modules[b].inputs, vec![InputConnection::Wire(a, 0)]);
    assert!(graph.is_well_formed());
}

#[test]
fn collector_reads_current_values() {
    let mut graph = ModuleGraph::new();
    let a = graph.add_module(module_with("a", 0, 1, 2));
    let b = graph.add_module(module_with("b", 0, 1, 1));
    graph.set_control_value(a, 1, scalar(0.5));
    graph.set_control_value(b, 0, scalar(-0.75));
    let collector = ControlDynDataCollector::create(&graph);
    assert_eq!(
        collector.collect_data(&graph),
        Some(vec![scalar(0.0), scalar(0.5), scalar(-0.75)])
    );
    graph.remove_module(b);
    assert_eq!(collector.collect_data(&graph), None);
}

#[test]
fn feedback_is_handed_out_by_module() {
    let mut graph = ModuleGraph::new();
    graph.add_module(module("a", 0, 1));
    graph.add_module(module("b", 0, 1));
    let (displayer, total) = FeedbackDisplayer::create(&graph);
    assert_eq!(total, 6);
    let data: Vec<Scalar> = (0..6).map(|i| scalar(i as f32)).collect();
    assert_eq!(
        displayer.display_feedback(&data, 1),
        Some(vec![scalar(3.0), scalar(4.0), scalar(5.0)])
    );
    assert_eq!(displayer.display_feedback(&data, 2), None);
    let short: Vec<Scalar> = (0..4).map(|i| scalar(i as f32)).collect();
    assert_eq!(displayer.display_feedback(&short, 1), None);
    assert_eq!(
        displayer.display_feedback(&short, 0),
        Some(vec![scalar(0.0), scalar(1.0), scalar(2.0)])
    );
}

#[test]
fn instantiate_gives_a_module_at_its_defaults() {
    let mut prototype = module_with("a", 2, 1, 1);
    prototype.default_inputs = vec![1, 0];
    prototype.inputs = vec![InputConnection::Wire(0, 0), InputConnection::Default(0)];
    prototype.controls[0].value = scalar(0.5);
    prototype.controls[0].automation.push(AutomationLane {
        connection: (0, 0),
        range: (scalar(0.0), scalar(1.0)),
    });
    prototype.pos = (7, 9);
    let fresh = prototype.instantiate();
    assert_eq!(
        fresh.inputs,
        vec![InputConnection::Default(1), InputConnection::Default(0)]
    );
    assert_eq!(fresh.controls[0].value, scalar(0.0));
    assert!(fresh.controls[0].automation.is_empty());
    assert_eq!(fresh.pos, (0, 0));
    assert!(Rc::ptr_eq(&fresh.template, &prototype.template));
}

#[test]
fn jack_types_by_name() {
    assert_eq!(JackType::from_str("pitch"), Ok(JackType::Pitch));
    assert_eq!(JackType::from_str("waveform"), Ok(JackType::Waveform));
    assert_eq!(JackType::from_str("audio"), Ok(JackType::Audio));
    assert_eq!(JackType::from_str("trigger"), Ok(JackType::Trigger));
    assert_eq!(JackType::from_str("Audio"), Err(()));
    assert_eq!(JackType::Trigger.icon_name(), "base:trigger");
    assert_eq!(JackType::Waveform.get_num_defaults(), 4);
    let mut custom = jack("x");
    assert_eq!(custom.get_icon_index(), 0);
    custom.custom_icon_index = Some(4);
    assert_eq!(custom.get_icon_index(), 4);
}
