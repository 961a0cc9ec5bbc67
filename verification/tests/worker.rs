use audiobench::engine::base::{AudioThreadEngine, Engine};
use audiobench::engine::codegen::GeneratedCode;
use audiobench::engine::data_transfer::{DataFormat, GlobalData, GlobalParameters};
use audiobench::engine::julia_thread::{
    AudioResponse, CrossThreadData, InFlight, Job, Outcome, Request, SimplePerfCounter, Status,
    Voice, Worker, WorkerUnavailableError,
};
use audiobench::engine::parts::{Control, IOJack, JackType, Module, ModuleGraph, ModuleTemplate};
use audiobench::registry::save_data::Patch;
use audiobench::registry::{put_key, Registry};
use audiobench::scalar::Scalar;
use std::rc::Rc;

fn scalar(value: f32) -> Scalar {
    Scalar::from_bits(value.to_bits())
}

fn params(channels: usize, buffer_length: usize) -> GlobalParameters {
    GlobalParameters {
        channels,
        buffer_length,
        sample_rate: 44100,
    }
}

fn format(channels: usize, buffer_length: usize) -> DataFormat {
    DataFormat {
        global_params: params(channels, buffer_length),
        dyn_data_len: 0,
        feedback_data_len: 0,
    }
}

fn code() -> GeneratedCode {
    GeneratedCode {
        order: Vec::new(),
        resources: Vec::new(),
    }
}

fn idle_worker(channels: usize, buffer_length: usize) -> (Worker, CrossThreadData) {
    let mut worker = Worker::new(code(), format(channels, buffer_length));
    let mut ctd = CrossThreadData::new(params(channels, buffer_length));
    assert!(worker.finish(&mut ctd, Outcome::Skipped).is_none());
    (worker, ctd)
}

fn engine() -> (Engine, CrossThreadData) {
    let jack = IOJack::create(
        JackType::Audio,
        0,
        None,
        "j".to_owned(),
        "j".to_owned(),
        String::new(),
    );
    let template = Rc::new(ModuleTemplate {
        resource_name: "Factory:loop".to_owned(),
        label: String::new(),
        category: String::new(),
        tooltip: String::new(),
        code_resource: "loop.ns".to_owned(),
        size: (1, 1),
        widget_outlines: Vec::new(),
        inputs: vec![jack],
        outputs: vec![IOJack::create(
            JackType::Audio,
            0,
            None,
            "o".to_owned(),
            "o".to_owned(),
            String::new(),
        )],
        feedback_data_len: 0,
    });
    let control = Control::create(
        "c".to_owned(),
        scalar(0.0),
        scalar(1.0),
        scalar(0.0),
        String::new(),
    );
    let prototype = Module::create(template, vec![control], Vec::new(), vec![0]);
    let mut registry = Registry::new();
    let mut graph = ModuleGraph::new();
    graph.add_module(prototype.instantiate());
    put_key(&mut registry.modules, "Factory:loop".to_owned(), prototype);
    let mut patch = Patch::writable();
    patch.save_note_graph(&graph);
    registry.patches.push(patch);
    put_key(
        &mut registry.patch_paths,
        "Factory:patches/default.abpatch".to_owned(),
        0,
    );
    let (engine, startup) = Engine::new(registry).unwrap();
    (engine, startup.ctd)
}

#[test]
fn worker_starts_busy_and_becomes_idle() {
    let mut worker = Worker::new(code(), format(2, 4));
    let mut ctd = CrossThreadData::new(params(2, 4));
    assert_eq!(worker.in_flight, InFlight::Startup);
    assert_eq!(ctd.julia_thread_status, Status::Busy);
    assert!(!worker.is_idle());
    assert!(worker.finish(&mut ctd, Outcome::Skipped).is_none());
    assert!(worker.is_idle());
    assert_eq!(ctd.julia_thread_status, Status::Idle);
    assert!(ctd.critical_error.is_none());
    assert_eq!(worker.voices.len(), 128);
    assert!(worker.voices.iter().all(|v| *v == Voice::Silent));
}

#[test]
fn render_goes_idle_busy_idle() {
    let (mut worker, mut ctd) = idle_worker(2, 4);
    let data = GlobalData::new();
    let job = worker.accept(&mut ctd, Request::Render(data));
    assert_eq!(ctd.julia_thread_status, Status::Busy);
    assert_eq!(worker.in_flight, InFlight::Render);
    assert_eq!(ctd.perf_counter.render, 1);
    match job {
        Job::Synthesize(data) => assert_eq!(data.bpm, scalar(120.0)),
        Job::Done => panic!("a render has to be run"),
    }
    let samples: Vec<Scalar> = (0..8).map(|i| scalar(i as f32)).collect();
    let response = worker
        .finish(&mut ctd, Outcome::Samples(samples.clone()))
        .unwrap();
    assert_eq!(response.audio, samples);
    assert_eq!(ctd.julia_thread_status, Status::Idle);
    assert!(worker.is_idle());
    assert!(ctd.critical_error.is_none());
}

#[test]
fn failed_render_answers_empty_and_records_the_error() {
    let (mut worker, mut ctd) = idle_worker(2, 4);
    worker.accept(&mut ctd, Request::Render(GlobalData::new()));
    let response = worker
        .finish(&mut ctd, Outcome::Fault("stack overflow".to_owned()))
        .unwrap();
    assert!(response.audio.is_empty());
    assert_eq!(ctd.critical_error.as_deref(), Some("stack overflow"));
    assert!(worker.is_idle());

    worker.accept(&mut ctd, Request::Render(GlobalData::new()));
    let response = worker
        .finish(&mut ctd, Outcome::Samples(vec![scalar(0.0); 7]))
        .unwrap();
    assert!(response.audio.is_empty());
    assert_eq!(
        ctd.critical_error.as_deref(),
        Some("The program returned a buffer of the wrong length.")
    );

    worker.accept(&mut ctd, Request::Render(GlobalData::new()));
    let response = worker.finish(&mut ctd, Outcome::Skipped).unwrap();
    assert!(response.audio.is_empty());
    assert_eq!(
        ctd.critical_error.as_deref(),
        Some("The program was not run.")
    );
    worker.accept(&mut ctd, Request::Render(GlobalData::new()));
    let good = worker
        .finish(&mut ctd, Outcome::Samples(vec![scalar(0.5); 8]))
        .unwrap();
    assert_eq!(good.audio.len(), 8);
    assert_eq!(
        ctd.critical_error.as_deref(),
        Some("The program was not run.")
    );
}

#[test]
fn notes_are_tracked() {
    let (mut worker, mut ctd) = idle_worker(2, 4);
    let job = worker.accept(
        &mut ctd,
        Request::StartNote {
            index: 60,
            velocity: scalar(0.8),
        },
    );
    assert!(matches!(job, Job::Done));
    assert_eq!(worker.in_flight, InFlight::Note);
    assert_eq!(ctd.julia_thread_status, Status::Busy);
    assert!(worker.finish(&mut ctd, Outcome::Skipped).is_none());
    assert_eq!(worker.voices[60], Voice::Held(scalar(0.8)));
    assert_eq!(worker.voices[61], Voice::Silent);
    worker.accept(&mut ctd, Request::ReleaseNote { index: 60 });
    worker.finish(&mut ctd, Outcome::Skipped);
    assert_eq!(worker.voices[60], Voice::Released(scalar(0.8)));
    worker.accept(&mut ctd, Request::ReleaseNote { index: 61 });
    worker.finish(&mut ctd, Outcome::Skipped);
    assert_eq!(worker.voices[61], Voice::Silent);
    assert!(ctd.critical_error.is_none());
    assert_eq!(ctd.perf_counter.render, 0);
}

#[test]
fn new_code_is_loaded_between_renders() {
    let (mut worker, mut ctd) = idle_worker(2, 4);
    let new_code = GeneratedCode {
        order: vec![1, 0],
        resources: vec!["b".to_owned(), "a".to_owned()],
    };
    let job = worker.accept(
        &mut ctd,
        Request::LoadArtifact {
            code: new_code,
            data_format: format(1, 3),
        },
    );
    assert!(matches!(job, Job::Done));
    assert_eq!(worker.in_flight, InFlight::Load);
    worker.finish(&mut ctd, Outcome::Skipped);
    assert_eq!(worker.code.order, vec![1, 0]);
    assert_eq!(worker.data_format.global_params.buffer_length, 3);
    worker.accept(&mut ctd, Request::Render(GlobalData::new()));
    let response = worker
        .finish(&mut ctd, Outcome::Samples(vec![scalar(1.0); 3]))
        .unwrap();
    assert_eq!(response.audio.len(), 3);
}

#[test]
fn busy_worker_takes_no_second_request() {
    let (mut worker, mut ctd) = idle_worker(2, 4);
    assert!(worker
        .try_accept(&mut ctd, Request::Render(GlobalData::new()))
        .is_ok());
    assert_eq!(worker.in_flight, InFlight::Render);
    let mut second = GlobalData::new();
    second.bpm = scalar(90.0);
    match worker.try_accept(&mut ctd, Request::Render(second)) {
        Err(Request::Render(back)) => assert_eq!(back.bpm, scalar(90.0)),
        _ => panic!("the second request has to come back"),
    }
    assert_eq!(worker.in_flight, InFlight::Render);
    assert_eq!(ctd.perf_counter.render, 1);
    assert!(worker
        .try_accept(&mut ctd, Request::ReleaseNote { index: 1 })
        .is_err());
    assert_eq!(worker.voices[1], Voice::Silent);
    worker.finish(&mut ctd, Outcome::Samples(vec![scalar(0.0); 8]));
    assert!(worker
        .try_accept(&mut ctd, Request::Render(GlobalData::new()))
        .is_ok());
    assert_eq!(ctd.perf_counter.render, 2);
}

#[test]
fn perf_counter_holds_at_the_top() {
    let mut counter = SimplePerfCounter::new();
    counter.count_generate_code();
    counter.count_generate_code();
    counter.count_render();
    counter.count_collect_control_data();
    assert_eq!(counter.generate_code, 2);
    assert_eq!(counter.render, 1);
    assert_eq!(counter.collect_control_data, 1);
    counter.generate_code = u64::MAX;
    counter.count_generate_code();
    assert_eq!(counter.generate_code, u64::MAX);
}

#[test]
fn set_control_accepts_exactly_the_valid_requests() {
    assert!(AudioThreadEngine::accepts_control(127, scalar(1.0)));
    assert!(!AudioThreadEngine::accepts_control(128, scalar(0.0)));
    assert!(!AudioThreadEngine::accepts_control(0, scalar(1.5)));
    assert!(AudioThreadEngine::accepts_control(0, scalar(-1.0)));
    assert!(AudioThreadEngine::accepts_control(0, scalar(-0.0)));
    assert!(!AudioThreadEngine::accepts_control(0, scalar(-1.0000001)));
    assert!(!AudioThreadEngine::accepts_control(0, scalar(f32::NAN)));
    assert!(!AudioThreadEngine::accepts_control(0, scalar(f32::INFINITY)));

    let mut audio = AudioThreadEngine::new();
    audio.set_control(127, scalar(1.0));
    assert_eq!(audio.data.global_data.controller_values[127], scalar(1.0));
    assert_eq!(audio.data.global_data.controller_values[126], scalar(0.0));
    assert_eq!(audio.data.global_data.controller_values.len(), 128);
}

#[test]
fn transport_setters() {
    let mut audio = AudioThreadEngine::new();
    assert_eq!(audio.data.global_data.bpm, scalar(120.0));
    assert!(AudioThreadEngine::accepts_pitch_wheel(scalar(-0.5)));
    assert!(!AudioThreadEngine::accepts_pitch_wheel(scalar(1.01)));
    audio.set_pitch_wheel(scalar(-0.5));
    audio.set_bpm(scalar(98.5));
    audio.set_elapsed_time(scalar(12.0));
    audio.set_elapsed_beats(scalar(24.0));
    assert_eq!(audio.data.global_data.pitch_wheel, scalar(-0.5));
    assert_eq!(audio.data.global_data.bpm, scalar(98.5));
    match audio.render_request() {
        Request::Render(data) => {
            assert_eq!(data.elapsed_time, scalar(12.0));
            assert_eq!(data.elapsed_beats, scalar(24.0));
            assert_eq!(data.pitch_wheel, scalar(-0.5));
            assert_eq!(data.controller_values.len(), 128);
        }
        _ => panic!("expected a render request"),
    }
    assert!(AudioThreadEngine::accepts_note(127, scalar(1.0)));
    assert!(!AudioThreadEngine::accepts_note(128, scalar(1.0)));
    assert!(!AudioThreadEngine::accepts_note(3, scalar(2.0)));
    assert!(matches!(
        audio.start_note(5, scalar(0.25)),
        Request::StartNote { index: 5, .. }
    ));
    assert!(matches!(
        audio.release_note(5),
        Request::ReleaseNote { index: 5 }
    ));
}

#[test]
fn render_audio_always_fills_a_buffer() {
    let mut audio = AudioThreadEngine::new();
    let ctd = CrossThreadData::new(params(2, 5));
    let silence = audio.render_audio(
        &ctd,
        scalar(0.1),
        scalar(0.2),
        Err(WorkerUnavailableError::Busy),
    );
    assert_eq!(silence, vec![scalar(0.0); 10]);
    assert_eq!(audio.data.global_data.elapsed_time, scalar(0.1));
    assert_eq!(audio.data.global_data.elapsed_beats, scalar(0.2));

    let samples: Vec<Scalar> = (0..10).map(|i| scalar(i as f32 / 10.0)).collect();
    let played = audio.render_audio(
        &ctd,
        scalar(0.2),
        scalar(0.4),
        Ok(AudioResponse {
            audio: samples.clone(),
        }),
    );
    assert_eq!(played, samples);

    let failed = audio.render_audio(
        &ctd,
        scalar(0.3),
        scalar(0.6),
        Ok(AudioResponse { audio: Vec::new() }),
    );
    assert_eq!(failed, vec![scalar(0.0); 10]);
    let wrong = audio.render_audio(
        &ctd,
        scalar(0.4),
        scalar(0.8),
        Ok(AudioResponse {
            audio: vec![scalar(1.0); 9],
        }),
    );
    assert_eq!(wrong, vec![scalar(0.0); 10]);
    let none = CrossThreadData::new(params(0, 5));
    assert!(audio
        .render_audio(
            &none,
            scalar(0.5),
            scalar(1.0),
            Err(WorkerUnavailableError::Closed)
        )
        .is_empty());
}

#[test]
fn unchanged_parameters_do_not_recompile() {
    let (mut engine, mut ctd) = engine();
    let mut audio = AudioThreadEngine::new();
    assert_eq!(ctd.perf_counter.generate_code, 0);
    let result = audio.set_global_params(&mut ctd, &mut engine, 512, 44100);
    assert!(matches!(result, Ok(None)));
    assert_eq!(ctd.perf_counter.generate_code, 0);

    let result = audio.set_global_params(&mut ctd, &mut engine, 256, 44100);
    assert_eq!(ctd.perf_counter.generate_code, 1);
    assert_eq!(ctd.global_params.buffer_length, 256);
    assert_eq!(ctd.global_params.channels, 2);
    match result {
        Ok(Some(Request::LoadArtifact { data_format, .. })) => {
            assert_eq!(data_format.global_params.buffer_length, 256);
            assert_eq!(data_format.global_params.sample_rate, 44100);
        }
        _ => panic!("expected new code for the worker"),
    }
    let result = audio.set_global_params(&mut ctd, &mut engine, 256, 48000);
    assert!(matches!(result, Ok(Some(_))));
    assert_eq!(ctd.perf_counter.generate_code, 2);
    assert_eq!(ctd.global_params.sample_rate, 48000);
    let result = audio.set_global_params(&mut ctd, &mut engine, 256, 48000);
    assert!(matches!(result, Ok(None)));
    assert_eq!(ctd.perf_counter.generate_code, 2);
}

#[test]
fn changed_parameters_with_a_feedback_loop_report_it() {
    let (mut engine, mut ctd) = engine();
    let mut audio = AudioThreadEngine::new();
    engine.module_graph.add_connection(0, 0, 0, 0);
    let result = audio.set_global_params(&mut ctd, &mut engine, 128, 44100);
    assert_eq!(result.unwrap_err().ring, vec![0]);
    assert_eq!(ctd.perf_counter.generate_code, 1);
    assert_eq!(ctd.global_params.buffer_length, 128);
}

#[test]
fn scalars_order_as_their_values() {
    let values = [
        f32::NEG_INFINITY,
        -2.0,
        -1.0,
        -1.0e-40,
        -0.0,
        0.0,
        1.0e-40,
        0.5,
        1.0,
        3.5,
        f32::INFINITY,
    ];
    for a in values.iter() {
        for b in values.iter() {
            assert_eq!(scalar(*a).le(scalar(*b)), a <= b, "{} <= {}", a, b);
            assert_eq!(
                scalar(*a).is_within(scalar(-1.0), scalar(*b)),
                -1.0 <= *a && a <= b
            );
        }
        assert!(!scalar(*a).le(scalar(f32::NAN)));
        assert!(!scalar(f32::NAN).le(scalar(*a)));
        assert_eq!(scalar(*a).is_in_unit_range(), -1.0 <= *a && *a <= 1.0);
        assert!(!scalar(*a).nan());
    }
    assert!(scalar(f32::NAN).nan());
    assert_eq!(Scalar::one(), scalar(1.0));
    assert_eq!(Scalar::minus_one(), scalar(-1.0));
    assert_eq!(Scalar::zero().to_bits(), 0);
    assert!(GlobalParameters {
        channels: 2,
        buffer_length: 512,
        sample_rate: 1
    }
    .is_addressable());
    assert!(!GlobalParameters {
        channels: usize::MAX,
        buffer_length: 2,
        sample_rate: 1
    }
    .is_addressable());
    assert_eq!(params(3, 7).frame_length(), 21);
}

#[test]
fn feedback_is_shown_once_per_version() {
    let (mut engine, mut ctd) = engine();
    assert_eq!(engine.poll_feedback_data(&ctd), None);
    ctd.publish_feedback(vec![scalar(0.25), scalar(0.5)]);
    assert_eq!(ctd.feedback_version, 1);
    assert_eq!(
        engine.poll_feedback_data(&ctd),
        Some(vec![scalar(0.25), scalar(0.5)])
    );
    assert_eq!(engine.poll_feedback_data(&ctd), None);
    ctd.publish_feedback(vec![scalar(0.75)]);
    ctd.publish_feedback(vec![scalar(1.0)]);
    assert_eq!(engine.poll_feedback_data(&ctd), Some(vec![scalar(1.0)]));
    assert_eq!(engine.feedback_version_seen, 3);
    ctd.feedback_version = u64::MAX;
    assert!(engine.poll_feedback_data(&ctd).is_some());
    ctd.publish_feedback(Vec::new());
    assert_eq!(ctd.feedback_version, 0);
    assert_eq!(engine.poll_feedback_data(&ctd), Some(Vec::new()));
    assert_eq!(engine.poll_feedback_data(&ctd), None);
}

#[test]
fn offered_request_is_taken_as_accepted() {
    let (mut worker, mut ctd) = idle_worker(2, 4);
    let mut data = GlobalData::new();
    data.bpm = scalar(90.0);
    data.pitch_wheel = scalar(-0.5);
    match worker.try_accept(&mut ctd, Request::Render(data)) {
        Ok(Job::Synthesize(handed)) => {
            assert_eq!(handed.bpm, scalar(90.0));
            assert_eq!(handed.pitch_wheel, scalar(-0.5));
            assert_eq!(handed.controller_values.len(), 128);
        }
        other => panic!("{:?}", other),
    }
    assert_eq!(worker.in_flight, InFlight::Render);
    assert_eq!(ctd.julia_thread_status, Status::Busy);
    assert_eq!(
        ctd.perf_counter,
        SimplePerfCounter {
            generate_code: 0,
            collect_control_data: 0,
            render: 1
        }
    );
    worker.finish(&mut ctd, Outcome::Samples(vec![scalar(0.0); 8]));

    let taken = worker.try_accept(
        &mut ctd,
        Request::StartNote {
            index: 60,
            velocity: scalar(0.75),
        },
    );
    assert!(matches!(taken, Ok(Job::Done)));
    assert_eq!(worker.in_flight, InFlight::Note);
    assert_eq!(worker.voices[60], Voice::Held(scalar(0.75)));
    assert_eq!(worker.voices[61], Voice::Silent);
    assert_eq!(ctd.perf_counter.render, 1);
    worker.finish(&mut ctd, Outcome::Skipped);

    let taken = worker.try_accept(&mut ctd, Request::ReleaseNote { index: 60 });
    assert!(matches!(taken, Ok(Job::Done)));
    assert_eq!(worker.voices[60], Voice::Released(scalar(0.75)));
    worker.finish(&mut ctd, Outcome::Skipped);

    let new_code = GeneratedCode {
        order: vec![2, 0, 1],
        resources: vec!["a".to_owned(), "b".to_owned(), "c".to_owned()],
    };
    let new_format = DataFormat {
        global_params: params(1, 16),
        dyn_data_len: 5,
        feedback_data_len: 9,
    };
    let taken = worker.try_accept(
        &mut ctd,
        Request::LoadArtifact {
            code: new_code,
            data_format: new_format,
        },
    );
    assert!(matches!(taken, Ok(Job::Done)));
    assert_eq!(worker.in_flight, InFlight::Load);
    assert_eq!(worker.code.order, vec![2, 0, 1]);
    assert_eq!(worker.code.resources.len(), 3);
    assert_eq!(worker.data_format, new_format);
    assert_eq!(worker.voices[60], Voice::Released(scalar(0.75)));
    assert_eq!(ctd.global_params, params(2, 4));
    assert!(ctd.critical_error.is_none());
}

#[test]
fn requests_are_tested_before_they_are_offered() {
    assert!(Request::Render(GlobalData::new()).is_valid());
    let mut short = GlobalData::new();
    short.controller_values.pop();
    assert!(!short.is_valid());
    assert!(!Request::Render(short).is_valid());
    let mut loud = GlobalData::new();
    loud.controller_values[127] = scalar(1.5);
    assert!(!loud.is_valid());
    let mut bent = GlobalData::new();
    bent.pitch_wheel = scalar(-1.25);
    assert!(!Request::Render(bent).is_valid());
    let mut edge = GlobalData::new();
    edge.pitch_wheel = scalar(-1.0);
    edge.controller_values[0] = scalar(1.0);
    assert!(edge.is_valid());

    assert!(Request::StartNote {
        index: 127,
        velocity: scalar(1.0)
    }
    .is_valid());
    assert!(!Request::StartNote {
        index: 128,
        velocity: scalar(0.0)
    }
    .is_valid());
    assert!(!Request::StartNote {
        index: 0,
        velocity: scalar(1.5)
    }
    .is_valid());
    assert!(Request::ReleaseNote { index: 127 }.is_valid());
    assert!(!Request::ReleaseNote { index: 128 }.is_valid());
    assert!(Request::LoadArtifact {
        code: code(),
        data_format: format(2, 512)
    }
    .is_valid());
    assert!(!Request::LoadArtifact {
        code: code(),
        data_format: format(usize::MAX, 2)
    }
    .is_valid());
}

#[test]
fn engine_starts_with_a_quiet_worker_and_nothing_counted() {
    let registry = {
        let (engine, _) = engine();
        engine.registry
    };
    let (engine, startup) = Engine::new(registry).unwrap();
    assert_eq!(startup.worker.data_format.global_params, params(2, 512));
    assert_eq!(startup.worker.data_format.dyn_data_len, 1);
    assert_eq!(startup.worker.data_format.feedback_data_len, 0);
    assert_eq!(startup.worker.voices.len(), 128);
    assert!(startup.worker.voices.iter().all(|v| *v == Voice::Silent));
    assert_eq!(
        startup.ctd.perf_counter,
        SimplePerfCounter {
            generate_code: 0,
            collect_control_data: 0,
            render: 0
        }
    );
    assert!(startup.ctd.feedback_data.is_empty());
    assert_eq!(startup.ctd.feedback_version, 0);
    assert_eq!(engine.feedback_version_seen, 0);
    assert_eq!(engine.dyn_data_collector.controls, vec![(0, 0)]);
}

#[test]
fn changed_parameters_compile_once_and_leave_the_rest() {
    let (mut engine, mut ctd) = engine();
    let mut audio = AudioThreadEngine::new();
    engine.feedback_version_seen = 7;
    ctd.perf_counter.render = 3;
    let result = audio.set_global_params(&mut ctd, &mut engine, 64, 48000);
    assert!(matches!(result, Ok(Some(_))));
    assert_eq!(
        ctd.perf_counter,
        SimplePerfCounter {
            generate_code: 1,
            collect_control_data: 1,
            render: 3
        }
    );
    assert_eq!(ctd.global_params, GlobalParameters { channels: 2, buffer_length: 64, sample_rate: 48000 });
    assert_eq!(engine.current_patch, 0);
    assert_eq!(engine.feedback_version_seen, 7);
    assert_eq!(engine.module_graph.len(), 1);

    engine.module_graph.add_connection(0, 0, 0, 0);
    let controls_before = engine.dyn_data_collector.controls.clone();
    let segments_before = engine.feedback_displayer.segments.clone();
    let result = audio.set_global_params(&mut ctd, &mut engine, 32, 48000);
    assert_eq!(result.unwrap_err().ring, vec![0]);
    assert_eq!(
        ctd.perf_counter,
        SimplePerfCounter {
            generate_code: 2,
            collect_control_data: 1,
            render: 3
        }
    );
    assert_eq!(engine.dyn_data_collector.controls, controls_before);
    assert_eq!(engine.feedback_displayer.segments, segments_before);
    assert_eq!(engine.current_patch, 0);
    assert_eq!(engine.feedback_version_seen, 7);

    ctd.perf_counter.generate_code = u64::MAX;
    let _ = audio.set_global_params(&mut ctd, &mut engine, 16, 48000);
    assert_eq!(ctd.perf_counter.generate_code, u64::MAX);
}
