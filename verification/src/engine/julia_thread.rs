//! The execution worker's side of the request protocol.
//!
//! The worker owns the compiled code and serves one request at a time. A
//! request is accepted only while the worker is idle; accepting it makes the
//! worker busy, and finishing it makes the worker idle again. What the host
//! cannot do here, running the program, happens between the two steps.

use crate::engine::codegen::GeneratedCode;
use crate::engine::data_transfer::{DataFormat, GlobalData, GlobalParameters};
use crate::scalar::Scalar;
use vstd::prelude::*;

verus! {

/// Number of notes that can sound at once, one per key.
pub const NUM_NOTES: usize = 128;

/// Whether the worker is serving a request.
#[derive(Clone, Copy, Debug, PartialEq, Eq, Structural)]
pub enum Status {
    Idle,
    Busy,
}

/// What the audio thread and the control plane ask of the worker.
#[derive(Debug)]
pub enum Request {
    /// Render one buffer with this transport data.
    Render(GlobalData),
    /// Start the note at `index` with the given velocity.
    StartNote { index: usize, velocity: Scalar },
    /// Let go of the note at `index`.
    ReleaseNote { index: usize },
    /// Run this code from now on.
    LoadArtifact { code: GeneratedCode, data_format: DataFormat },
}

impl Request {
    /// The request is one the worker can serve: a note it names exists, a
    /// velocity lies between `-1.0` and `1.0`, and transport data is valid.
    pub open spec fn valid(&self) -> bool {
        match self {
            Request::Render(data) => data@.valid(),
            Request::StartNote { index, velocity } => *index < NUM_NOTES && velocity.in_unit_range(),
            Request::ReleaseNote { index } => *index < NUM_NOTES,
            Request::LoadArtifact { data_format, .. } => data_format.global_params.fits(),
        }
    }

    /// Whether the request is one the worker can serve.
    pub fn is_valid(&self) -> (ok: bool)
        ensures
            ok == self.valid(),
    {
        match self {
            Request::Render(data) => data.is_valid(),
            Request::StartNote { index, velocity } => *index < NUM_NOTES && velocity.is_in_unit_range(),
            Request::ReleaseNote { index } => *index < NUM_NOTES,
            Request::LoadArtifact { data_format, .. } => data_format.global_params.is_addressable(),
        }
    }
}

/// One rendered buffer. An empty buffer stands for a failed render.
#[derive(Debug)]
pub struct AudioResponse {
    pub audio: Vec<Scalar>,
}

/// What a key is doing.
#[derive(Clone, Copy, Debug, PartialEq, Eq, Structural)]
pub enum Voice {
    Silent,
    Held(Scalar),
    Released(Scalar),
}

impl Voice {
    /// The voice once its key is let go of.
    pub open spec fn released(self) -> Voice {
        match self {
            Voice::Held(velocity) => Voice::Released(velocity),
            other => other,
        }
    }
}

/// The request the worker is serving.
#[derive(Clone, Copy, Debug, PartialEq, Eq, Structural)]
pub enum InFlight {
    Nothing,
    Startup,
    Render,
    Note,
    Load,
}

/// What the host has to do for the worker before the request is finished.
#[derive(Debug)]
pub enum Job {
    /// Run the loaded code once with this transport data and these voices.
    Synthesize(GlobalData),
    /// Nothing: the request was served by accepting it.
    Done,
}

/// What running the program gave.
#[derive(Debug)]
pub enum Outcome {
    /// The program ran and wrote these samples.
    Samples(Vec<Scalar>),
    /// The program failed with this message.
    Fault(String),
    /// Nothing was run.
    Skipped,
}

/// The message recorded when a render gives a buffer of the wrong length.
pub open spec fn wrong_length_message() -> Seq<char> {
    "The program returned a buffer of the wrong length."@
}

/// The message recorded when a render is finished without having been run.
pub open spec fn not_run_message() -> Seq<char> {
    "The program was not run."@
}

/// The state every thread reads and writes under the lock.
#[derive(Debug)]
pub struct CrossThreadData {
    pub julia_thread_status: Status,
    pub global_params: GlobalParameters,
    pub critical_error: Option<String>,
    pub perf_counter: SimplePerfCounter,
    /// The feedback data the program wrote last. It may be stale: readers
    /// tell new data from old by its version.
    pub feedback_data: Vec<Scalar>,
    /// Counts how often feedback data was published.
    pub feedback_version: u64,
}

/// Why a render got no answer from the worker. Either way the audio thread
/// plays silence for this buffer.
#[derive(Clone, Copy, Debug, PartialEq, Eq, Structural)]
pub enum WorkerUnavailableError {
    /// The worker was serving another request and did not take this one.
    Busy,
    /// The worker is gone.
    Closed,
}

/// The version that follows `version`. Versions start over after the last.
pub open spec fn next_version(version: u64) -> u64 {
    if version == u64::MAX {
        0
    } else {
        (version + 1) as u64
    }
}

/// Counts how often each kind of work was begun.
#[derive(Clone, Copy, Debug, PartialEq, Eq, Structural)]
pub struct SimplePerfCounter {
    pub generate_code: u64,
    pub collect_control_data: u64,
    pub render: u64,
}

/// A count after one more, held at the largest count there is.
pub open spec fn bumped(count: u64) -> u64 {
    if count < u64::MAX {
        (count + 1) as u64
    } else {
        count
    }
}

/// A count that has not reached the largest there is goes up by exactly one.
pub proof fn lemma_bumped_counts_one(count: u64)
    requires
        count < u64::MAX,
    ensures
        bumped(count) == count + 1,
{
}

impl SimplePerfCounter {
    /// A counter that has counted nothing.
    pub fn new() -> (counter: SimplePerfCounter)
        ensures
            counter == (SimplePerfCounter { generate_code: 0, collect_control_data: 0, render: 0 }),
    {
        SimplePerfCounter { generate_code: 0, collect_control_data: 0, render: 0 }
    }

    /// Counts one compilation.
    pub fn count_generate_code(&mut self)
        ensures
            *final(self) == (SimplePerfCounter { generate_code: bumped(old(self).generate_code), ..*old(self) }),
    {
        self.generate_code = self.generate_code.saturating_add(1);
    }

    /// Counts one gathering of control data.
    pub fn count_collect_control_data(&mut self)
        ensures
            *final(self) == (SimplePerfCounter {
                collect_control_data: bumped(old(self).collect_control_data),
                ..*old(self)
            }),
    {
        self.collect_control_data = self.collect_control_data.saturating_add(1);
    }

    /// Counts one render.
    pub fn count_render(&mut self)
        ensures
            *final(self) == (SimplePerfCounter { render: bumped(old(self).render), ..*old(self) }),
    {
        self.render = self.render.saturating_add(1);
    }
}

impl CrossThreadData {
    /// The state at startup: the worker is busy getting ready, nothing has
    /// gone wrong, nothing has been counted.
    pub fn new(global_params: GlobalParameters) -> (ctd: CrossThreadData)
        ensures
            ctd.julia_thread_status == Status::Busy,
            ctd.global_params == global_params,
            ctd.critical_error is None,
            ctd.perf_counter == (SimplePerfCounter { generate_code: 0, collect_control_data: 0, render: 0 }),
            ctd.feedback_data@.len() == 0,
            ctd.feedback_version == 0,
    {
        CrossThreadData {
            julia_thread_status: Status::Busy,
            global_params,
            critical_error: None,
            perf_counter: SimplePerfCounter::new(),
            feedback_data: Vec::new(),
            feedback_version: 0,
        }
    }

    /// Puts new feedback data in place of the old and moves on to the next
    /// version.
    pub fn publish_feedback(&mut self, data: Vec<Scalar>)
        ensures
            final(self).feedback_data == data,
            final(self).feedback_version == next_version(old(self).feedback_version),
            final(self).julia_thread_status == old(self).julia_thread_status,
            final(self).global_params == old(self).global_params,
            final(self).critical_error == old(self).critical_error,
            final(self).perf_counter == old(self).perf_counter,
    {
        self.feedback_data = data;
        self.feedback_version = if self.feedback_version == u64::MAX {
            0
        } else {
            self.feedback_version + 1
        };
    }
}

/// The execution worker.
#[derive(Debug)]
pub struct Worker {
    pub code: GeneratedCode,
    pub data_format: DataFormat,
    pub voices: Vec<Voice>,
    pub in_flight: InFlight,
}

impl Worker {
    /// There is one voice per key, and a buffer can be addressed.
    pub open spec fn wf(&self) -> bool {
        &&& self.voices@.len() == NUM_NOTES
        &&& self.data_format.global_params.fits()
    }

    /// The shared status says busy exactly while a request is in flight.
    pub open spec fn coupled(&self, ctd: &CrossThreadData) -> bool {
        (ctd.julia_thread_status == Status::Busy) <==> (self.in_flight != InFlight::Nothing)
    }

    /// Number of requests the worker is serving: none or one.
    pub open spec fn requests_in_flight(&self) -> nat {
        if self.in_flight == InFlight::Nothing {
            0
        } else {
            1
        }
    }

    /// A worker that is starting up with the given code.
    pub fn new(code: GeneratedCode, data_format: DataFormat) -> (worker: Worker)
        requires
            data_format.global_params.fits(),
        ensures
            worker.wf(),
            worker.code == code,
            worker.data_format == data_format,
            worker.in_flight == InFlight::Startup,
            forall|i: int| 0 <= i < NUM_NOTES ==> worker.voices@[i] == Voice::Silent,
    {
        let mut voices: Vec<Voice> = Vec::new();
        let mut i: usize = 0;
        while i < NUM_NOTES
            invariant
                i <= NUM_NOTES,
                voices@.len() == i,
                forall|j: int| 0 <= j < i ==> voices@[j] == Voice::Silent,
            decreases NUM_NOTES - i,
        {
            voices.push(Voice::Silent);
            i += 1;
        }
        Worker { code, data_format, voices, in_flight: InFlight::Startup }
    }

    /// Whether the worker would take a request now.
    pub fn is_idle(&self) -> (idle: bool)
        ensures
            idle == (self.in_flight == InFlight::Nothing),
            idle == (self.requests_in_flight() == 0),
    {
        self.in_flight == InFlight::Nothing
    }

    /// What taking `request` makes of an idle worker and of the shared
    /// state, and the job that comes of it. The status becomes busy and
    /// nothing else of the shared state changes but the count of renders. A
    /// render is handed on as a job with its transport data. A note is set
    /// among the voices, and new code and its format replace the old: those
    /// requests leave no job to do.
    pub open spec fn takes(
        before: Worker,
        shared: CrossThreadData,
        request: Request,
        after: Worker,
        shared_after: CrossThreadData,
        job: Job,
    ) -> bool {
        &&& shared_after.julia_thread_status == Status::Busy
        &&& shared_after.global_params == shared.global_params
        &&& shared_after.critical_error == shared.critical_error
        &&& shared_after.feedback_data == shared.feedback_data
        &&& shared_after.feedback_version == shared.feedback_version
        &&& match request {
            Request::Render(data) => {
                &&& after.in_flight == InFlight::Render
                &&& job == Job::Synthesize(data)
                &&& after.voices == before.voices
                &&& after.code == before.code
                &&& after.data_format == before.data_format
                &&& shared_after.perf_counter == (SimplePerfCounter {
                    render: bumped(shared.perf_counter.render),
                    ..shared.perf_counter
                })
            },
            Request::StartNote { index, velocity } => {
                &&& after.in_flight == InFlight::Note
                &&& job == Job::Done
                &&& after.voices@ == before.voices@.update(index as int, Voice::Held(velocity))
                &&& after.code == before.code
                &&& after.data_format == before.data_format
                &&& shared_after.perf_counter == shared.perf_counter
            },
            Request::ReleaseNote { index } => {
                &&& after.in_flight == InFlight::Note
                &&& job == Job::Done
                &&& after.voices@ == before.voices@.update(index as int, before.voices@[index as int].released())
                &&& after.code == before.code
                &&& after.data_format == before.data_format
                &&& shared_after.perf_counter == shared.perf_counter
            },
            Request::LoadArtifact { code, data_format } => {
                &&& after.in_flight == InFlight::Load
                &&& job == Job::Done
                &&& after.voices == before.voices
                &&& after.code == code
                &&& after.data_format == data_format
                &&& shared_after.perf_counter == shared.perf_counter
            },
        }
    }

    /// Takes a request. The worker goes from idle to busy. A render is handed
    /// on to the host to be run; every other request is served here.
    pub fn accept(&mut self, ctd: &mut CrossThreadData, request: Request) -> (job: Job)
        requires
            old(self).wf(),
            old(self).in_flight == InFlight::Nothing,
            old(ctd).julia_thread_status == Status::Idle,
            request.valid(),
        ensures
            final(self).wf(),
            final(self).coupled(final(ctd)),
            final(self).requests_in_flight() == 1,
            Worker::takes(*old(self), *old(ctd), request, *final(self), *final(ctd), job),
    {
        ctd.julia_thread_status = Status::Busy;
        match request {
            Request::Render(data) => {
                self.in_flight = InFlight::Render;
                ctd.perf_counter.count_render();
                Job::Synthesize(data)
            },
            Request::StartNote { index, velocity } => {
                self.in_flight = InFlight::Note;
                self.voices[index] = Voice::Held(velocity);
                Job::Done
            },
            Request::ReleaseNote { index } => {
                self.in_flight = InFlight::Note;
                let voice: Voice = self.voices[index];
                self.voices[index] = match voice {
                    Voice::Held(velocity) => Voice::Released(velocity),
                    other => other,
                };
                Job::Done
            },
            Request::LoadArtifact { code, data_format } => {
                self.in_flight = InFlight::Load;
                self.code = code;
                self.data_format = data_format;
                Job::Done
            },
        }
    }

    /// Offers a request the way a sender that does not wait offers it. An idle
    /// worker takes it, exactly as `accept` does. A busy worker does not: the
    /// request comes back and nothing changes. So no second request is ever
    /// taken while one is in flight.
    pub fn try_accept(&mut self, ctd: &mut CrossThreadData, request: Request) -> (taken: Result<Job, Request>)
        requires
            old(self).wf(),
            old(self).coupled(old(ctd)),
            request.valid(),
        ensures
            final(self).wf(),
            final(self).coupled(final(ctd)),
            taken is Ok <==> old(self).in_flight == InFlight::Nothing,
            final(self).requests_in_flight() == 1,
            match taken {
                Ok(job) => Worker::takes(*old(self), *old(ctd), request, *final(self), *final(ctd), job),
                Err(back) => back == request && *final(self) == *old(self) && *final(ctd) == *old(ctd),
            },
    {
        if self.in_flight != InFlight::Nothing {
            return Err(request);
        }
        Ok(self.accept(ctd, request))
    }

    /// What a render answers, given what running the program gave: the samples
    /// if there are exactly as many as a buffer holds, else the empty buffer
    /// that stands for failure.
    pub open spec fn answer(params: GlobalParameters, outcome: Outcome) -> Seq<Scalar> {
        match outcome {
            Outcome::Samples(audio) => if audio@.len() == params.frame_len() {
                audio@
            } else {
                Seq::empty()
            },
            _ => Seq::empty(),
        }
    }

    /// The critical error on record after a render, given what was on record
    /// before and what running the program gave.
    pub open spec fn error_after(
        params: GlobalParameters,
        outcome: Outcome,
        before: Option<String>,
        after: Option<String>,
    ) -> bool {
        match outcome {
            Outcome::Samples(audio) => if audio@.len() == params.frame_len() {
                after == before
            } else {
                after matches Some(message) && message@ == wrong_length_message()
            },
            Outcome::Fault(message) => after == Some(message),
            Outcome::Skipped => after matches Some(message) && message@ == not_run_message(),
        }
    }

    /// Finishes the request in flight. The worker goes from busy to idle. A
    /// render is answered with a buffer; a failed render is answered with the
    /// empty buffer and recorded as a critical error, and the worker carries
    /// on. Nothing else is answered.
    pub fn finish(&mut self, ctd: &mut CrossThreadData, outcome: Outcome) -> (response: Option<AudioResponse>)
        requires
            old(self).wf(),
            old(self).in_flight != InFlight::Nothing,
        ensures
            final(self).wf(),
            final(self).coupled(final(ctd)),
            final(self).in_flight == InFlight::Nothing,
            final(ctd).julia_thread_status == Status::Idle,
            final(self).voices == old(self).voices,
            final(self).code == old(self).code,
            final(self).data_format == old(self).data_format,
            final(ctd).global_params == old(ctd).global_params,
            final(ctd).perf_counter == old(ctd).perf_counter,
            final(ctd).feedback_data == old(ctd).feedback_data,
            final(ctd).feedback_version == old(ctd).feedback_version,
            old(self).in_flight == InFlight::Render ==> {
                &&& response matches Some(answer)
                &&& answer.audio@ == Worker::answer(old(self).data_format.global_params, outcome)
                &&& Worker::error_after(
                    old(self).data_format.global_params,
                    outcome,
                    old(ctd).critical_error,
                    final(ctd).critical_error,
                )
            },
            old(self).in_flight != InFlight::Render ==> {
                &&& response is None
                &&& final(ctd).critical_error == old(ctd).critical_error
            },
    {
        let was: InFlight = self.in_flight;
        self.in_flight = InFlight::Nothing;
        ctd.julia_thread_status = Status::Idle;
        if was != InFlight::Render {
            return None;
        }
        match outcome {
            Outcome::Samples(audio) => {
                if audio.len() == self.data_format.global_params.frame_length() {
                    Some(AudioResponse { audio })
                } else {
                    ctd.critical_error = Some("The program returned a buffer of the wrong length.".to_owned());
                    Some(AudioResponse { audio: Vec::new() })
                }
            },
            Outcome::Fault(message) => {
                ctd.critical_error = Some(message);
                Some(AudioResponse { audio: Vec::new() })
            },
            Outcome::Skipped => {
                ctd.critical_error = Some("The program was not run.".to_owned());
                Some(AudioResponse { audio: Vec::new() })
            },
        }
    }
}

/// While one request is in flight the worker takes no other: it is idle
/// exactly when none is, and never serves more than one.
pub proof fn lemma_one_request_at_a_time(worker: Worker)
    ensures
        worker.requests_in_flight() <= 1,
        (worker.in_flight == InFlight::Nothing) <==> worker.requests_in_flight() == 0,
{
}

} // verus!
