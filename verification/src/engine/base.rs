//! The two faces of the engine: the control plane, which owns the graph and
//! the patches, and the audio thread's, which owns the transport.
//!
//! Neither holds the lock or a channel. Where the state shared between
//! threads is read or written, the caller hands it in; where a request has to
//! reach the worker, the caller is handed the request.

use crate::engine::codegen::{compile, CodeGenResult};
use crate::engine::data_routing::{
    clipped,
    control_refs,
    feedback_segments,
    feedback_total,
    ControlDynDataCollector,
    FeedbackDisplayer,
};
use crate::engine::data_transfer::{GlobalData, GlobalDataView, GlobalParameters, NUM_CONTROLLERS};
use crate::engine::julia_thread::{
    bumped,
    AudioResponse,
    CrossThreadData,
    Request,
    SimplePerfCounter,
    Status,
    Voice,
    Worker,
    WorkerUnavailableError,
    InFlight,
    NUM_NOTES,
};
use crate::engine::parts::{acyclic, dependencies, well_formed, CyclicGraphError, ModuleGraph, ModuleView};
use crate::engine::schedule::is_cycle;
use crate::registry::save_data::{
    all_resolve,
    first_unresolved,
    lemma_registered_by_modules,
    lemma_save_then_restore,
    lemma_serialize_then_load,
    patch_bytes,
    patch_from_bytes,
    patch_storable,
    registered,
    restorable,
    restored_graph,
    saved_graph,
    Patch,
    PatchError,
    PatchView,
    SavedModuleView,
};
use crate::registry::Registry;
use crate::scalar::Scalar;
use crate::text::{increment_name, incremented};
use vstd::prelude::*;
use vstd::string::*;

verus! {

pub const DEFAULT_CHANNELS: usize = 2;

pub const DEFAULT_BUFFER_LENGTH: usize = 512;

pub const DEFAULT_SAMPLE_RATE: usize = 44100;

/// The name the default patch is filed under.
pub open spec fn default_patch_name() -> Seq<char> {
    "Factory:patches/default.abpatch"@
}

/// What is added to the name of a patch that was pasted in.
pub open spec fn pasted_suffix() -> Seq<char> {
    " (pasted)"@
}

/// The parameters an engine starts with.
pub open spec fn default_params() -> GlobalParameters {
    GlobalParameters {
        channels: DEFAULT_CHANNELS,
        buffer_length: DEFAULT_BUFFER_LENGTH,
        sample_rate: DEFAULT_SAMPLE_RATE,
    }
}

/// The control plane: the graph being edited, the patch it came from, and the
/// decoders of the last compilation.
pub struct Engine {
    pub registry: Registry,
    pub module_graph: ModuleGraph,
    pub dyn_data_collector: ControlDynDataCollector,
    pub feedback_displayer: FeedbackDisplayer,
    pub current_patch: usize,
    /// The version of the feedback data that was shown last.
    pub feedback_version_seen: u64,
}

/// What an engine hands to the host when it starts: the state to put under
/// the lock, and the worker to run on its own thread.
pub struct Startup {
    pub ctd: CrossThreadData,
    pub worker: Worker,
}

/// Why an engine could not start.
#[derive(Debug)]
pub enum StartError {
    /// The registry holds no default patch.
    MissingDefaultPatch,
    /// The default patch could not be turned into a graph.
    DefaultPatchFailed(PatchError),
    /// The default patch holds a feedback loop.
    DefaultPatchCyclic(CyclicGraphError),
}

/// Why a patch could not be loaded.
#[derive(Debug)]
pub enum LoadError {
    /// The patch could not be turned into a graph.
    Patch(PatchError),
    /// The patch's graph holds a feedback loop.
    Cyclic(CyclicGraphError),
}

/// The patch may not be written to.
#[derive(Debug)]
pub struct WriteProtectedPatchError {}

/// The request carries the code of a compilation of `g` under `params`.
pub open spec fn loads(request: Request, g: Seq<ModuleView>, params: GlobalParameters) -> bool {
    request matches Request::LoadArtifact { code, data_format } && code.runs(g) && data_format.global_params
        == params && data_format.dyn_data_len == control_refs(g).len() && data_format.feedback_data_len
        == clipped(feedback_total(g))
}

/// The snapshot can be loaded: it can be restored against the registry, and
/// the graph it restores to holds no feedback loop.
pub open spec fn loadable(note_graph: Seq<SavedModuleView>, registry: &Registry) -> bool {
    restorable(note_graph, registry) && acyclic(restored_graph(note_graph, registry))
}

/// The counters after a patch was loaded, or was not. A graph that could be
/// restored was compiled, once; one that held no feedback loop had its
/// control data laid out, once. Renders are not counted here.
pub open spec fn counted(before: SimplePerfCounter, compiled: bool, succeeded: bool) -> SimplePerfCounter {
    SimplePerfCounter {
        generate_code: if compiled {
            bumped(before.generate_code)
        } else {
            before.generate_code
        },
        collect_control_data: if succeeded {
            bumped(before.collect_control_data)
        } else {
            before.collect_control_data
        },
        render: before.render,
    }
}

/// A request that loads code compiled under addressable parameters is one the
/// worker can serve.
pub proof fn lemma_loads_valid(request: Request, g: Seq<ModuleView>, params: GlobalParameters)
    requires
        loads(request, g, params),
        params.fits(),
    ensures
        request.valid(),
{
}

/// Save, serialize, load: the patch that an engine's graph is saved as is
/// read back from its bytes whole, can be restored against the same registry,
/// and restores to the graph it was saved from, with the same modules,
/// connections and control values. It can be loaded exactly when the graph
/// holds no feedback loop: then `Engine::load_patch` succeeds on it and
/// leaves the engine with the same graph. A graph with a feedback loop is
/// saved and read back all the same, and refused when it is loaded.
/// `Engine::serialize_current_patch` says the same of the bytes it returns.
pub proof fn lemma_engine_round_trip(engine: Engine)
    requires
        engine.wf(),
        patch_storable(PatchView { note_graph: saved_graph(engine.module_graph@), ..engine.patch() }),
    ensures
        patch_from_bytes(
            patch_bytes(PatchView { note_graph: saved_graph(engine.module_graph@), ..engine.patch() }),
        ) == Some((engine.patch().name, saved_graph(engine.module_graph@))),
        restorable(saved_graph(engine.module_graph@), &engine.registry),
        restored_graph(saved_graph(engine.module_graph@), &engine.registry) == engine.module_graph@,
        loadable(saved_graph(engine.module_graph@), &engine.registry) <==> acyclic(engine.module_graph@),
{
    lemma_serialize_then_load(PatchView { note_graph: saved_graph(engine.module_graph@), ..engine.patch() });
    lemma_save_then_restore(engine.module_graph@, &engine.registry);
}

impl Engine {
    /// The registry is in order, the graph is well formed and made of
    /// instances of the registry's prototypes, and there is a current patch.
    pub open spec fn wf(&self) -> bool {
        &&& self.registry.wf()
        &&& well_formed(self.module_graph@)
        &&& registered(self.module_graph@, &self.registry)
        &&& self.current_patch < self.registry.patches@.len()
    }

    /// The decoders are those of a compilation of the graph as it is now.
    pub open spec fn in_step(&self) -> bool {
        &&& self.dyn_data_collector.controls@ == control_refs(self.module_graph@)
        &&& self.feedback_displayer.segments@ == feedback_segments(self.module_graph@)
    }

    /// The current patch.
    pub open spec fn patch(&self) -> PatchView {
        self.registry.patches@[self.current_patch as int]@
    }

    /// Starts an engine on the registry's default patch with the default
    /// parameters.
    pub fn new(registry: Registry) -> (result: Result<(Engine, Startup), StartError>)
        requires
            registry.wf(),
        ensures
            result is Ok <==> {
                &&& registry.patch_named(default_patch_name()) matches Some(place)
                &&& restorable(registry.patches@[place as int]@.note_graph, &registry)
                &&& acyclic(restored_graph(registry.patches@[place as int]@.note_graph, &registry))
            },
            match result {
                Ok((engine, startup)) => {
                    &&& registry.patch_named(default_patch_name()) == Some(engine.current_patch)
                    &&& engine.registry == registry
                    &&& engine.wf()
                    &&& engine.in_step()
                    &&& restorable(engine.patch().note_graph, &registry)
                    &&& engine.module_graph@ == restored_graph(engine.patch().note_graph, &registry)
                    &&& acyclic(engine.module_graph@)
                    &&& engine.feedback_version_seen == startup.ctd.feedback_version
                    &&& startup.ctd.julia_thread_status == Status::Busy
                    &&& startup.ctd.global_params == default_params()
                    &&& startup.ctd.critical_error is None
                    &&& startup.worker.wf()
                    &&& startup.worker.in_flight == InFlight::Startup
                    &&& startup.worker.code.runs(engine.module_graph@)
                    &&& startup.worker.data_format.global_params == default_params()
                    &&& startup.worker.data_format.dyn_data_len == control_refs(engine.module_graph@).len()
                    &&& startup.worker.data_format.feedback_data_len == clipped(
                        feedback_total(engine.module_graph@),
                    )
                    &&& forall|i: int| 0 <= i < NUM_NOTES ==> startup.worker.voices@[i] == Voice::Silent
                    &&& startup.ctd.perf_counter == (SimplePerfCounter {
                        generate_code: 0,
                        collect_control_data: 0,
                        render: 0,
                    })
                    &&& startup.ctd.feedback_data@.len() == 0
                    &&& startup.ctd.feedback_version == 0
                },
                Err(StartError::MissingDefaultPatch) => registry.patch_named(default_patch_name()) is None,
                Err(StartError::DefaultPatchFailed(PatchError::UnresolvedTemplate { resource_name })) => {
                    &&& registry.patch_named(default_patch_name()) matches Some(place)
                    &&& !all_resolve(registry.patches@[place as int]@.note_graph, &registry)
                    &&& exists|m: int|
                        first_unresolved(registry.patches@[place as int]@.note_graph, &registry, m)
                            && resource_name@ == registry.patches@[place as int]@.note_graph[m].resource_name
                },
                Err(StartError::DefaultPatchFailed(PatchError::Malformed)) => {
                    &&& registry.patch_named(default_patch_name()) matches Some(place)
                    &&& all_resolve(registry.patches@[place as int]@.note_graph, &registry)
                    &&& !restorable(registry.patches@[place as int]@.note_graph, &registry)
                },
                Err(StartError::DefaultPatchCyclic(error)) => {
                    &&& registry.patch_named(default_patch_name()) matches Some(place)
                    &&& restorable(registry.patches@[place as int]@.note_graph, &registry)
                    &&& !acyclic(restored_graph(registry.patches@[place as int]@.note_graph, &registry))
                    &&& is_cycle(
                        dependencies(restored_graph(registry.patches@[place as int]@.note_graph, &registry)),
                        error.ring@,
                    )
                },
            },
    {
        let global_params: GlobalParameters = GlobalParameters {
            channels: DEFAULT_CHANNELS,
            buffer_length: DEFAULT_BUFFER_LENGTH,
            sample_rate: DEFAULT_SAMPLE_RATE,
        };
        let place: usize = match registry.get_patch_by_name("Factory:patches/default.abpatch") {
            Some(place) => place,
            None => {
                return Err(StartError::MissingDefaultPatch);
            },
        };
        proof {
            let at = crate::registry::index_of_key(registry.patch_paths@, default_patch_name());
            assert(crate::registry::is_first_match(registry.patch_paths@, default_patch_name(), at));
            assert(registry.patch_paths@[at].1 < registry.patches@.len());
        }
        let mut module_graph: ModuleGraph = ModuleGraph::new();
        match registry.patches[place].restore_note_graph(&mut module_graph, &registry) {
            Ok(_) => {},
            Err(error) => {
                return Err(StartError::DefaultPatchFailed(error));
            },
        }
        let artifact: CodeGenResult = match compile(&module_graph, &global_params) {
            Ok(artifact) => artifact,
            Err(error) => {
                return Err(StartError::DefaultPatchCyclic(error));
            },
        };
        let CodeGenResult { code, dyn_data_collector, feedback_displayer, data_format } = artifact;
        assert(global_params.channels == 2 && global_params.buffer_length == 512);
        assert(global_params.channels * global_params.buffer_length == 1024) by (nonlinear_arith)
            requires
                global_params.channels == 2,
                global_params.buffer_length == 512,
        ;
        let worker: Worker = Worker::new(code, data_format);
        let ctd: CrossThreadData = CrossThreadData::new(global_params);
        let engine: Engine = Engine {
            registry,
            module_graph,
            dyn_data_collector,
            feedback_displayer,
            current_patch: place,
            feedback_version_seen: 0,
        };
        Ok((engine, Startup { ctd, worker }))
    }

    /// The critical error on record, if there is one.
    pub fn clone_critical_error(&self, ctd: &CrossThreadData) -> (error: Option<String>)
        ensures
            error == ctd.critical_error,
    {
        match &ctd.critical_error {
            Some(message) => Some(message.clone()),
            None => None,
        }
    }

    /// Whether the worker is serving a request.
    pub fn is_julia_thread_busy(&self, ctd: &CrossThreadData) -> (busy: bool)
        ensures
            busy == (ctd.julia_thread_status == Status::Busy),
    {
        ctd.julia_thread_status == Status::Busy
    }

    /// Gives the current patch another name, unless it may not be written to.
    pub fn rename_current_patch(&mut self, name: String) -> (result: Result<(), WriteProtectedPatchError>)
        requires
            old(self).wf(),
        ensures
            final(self).wf(),
            result is Ok <==> old(self).patch().writable,
            result is Ok ==> final(self).patch() == (PatchView { name: name@, ..old(self).patch() }),
            result is Err ==> final(self).patch() == old(self).patch(),
            final(self).registry.patches@.len() == old(self).registry.patches@.len(),
            forall|i: int|
                0 <= i < old(self).registry.patches@.len() && i != old(self).current_patch ==> (final(self)).registry.patches@[i] == old(self).registry.patches@[i],
            final(self).current_patch == old(self).current_patch,
            final(self).module_graph == old(self).module_graph,
            final(self).dyn_data_collector == old(self).dyn_data_collector,
            final(self).feedback_displayer == old(self).feedback_displayer,
            final(self).feedback_version_seen == old(self).feedback_version_seen,
            final(self).registry.modules == old(self).registry.modules,
            final(self).registry.scripts == old(self).registry.scripts,
            final(self).registry.icons == old(self).registry.icons,
            final(self).registry.icon_indexes == old(self).registry.icon_indexes,
            final(self).registry.patch_paths == old(self).registry.patch_paths,
            result is Err ==> *final(self) == *old(self),
    {
        if !self.registry.patches[self.current_patch].is_writable() {
            return Err(WriteProtectedPatchError {  });
        }
        self.registry.patches[self.current_patch].set_name(name);
        Ok(())
    }

    /// The registry.
    pub fn borrow_registry(&self) -> (registry: &Registry)
        ensures
            *registry == self.registry,
    {
        &self.registry
    }

    /// Puts a snapshot of the graph into the current patch, unless the patch
    /// may not be written to.
    pub fn save_current_patch(&mut self) -> (result: Result<(), WriteProtectedPatchError>)
        requires
            old(self).wf(),
        ensures
            final(self).wf(),
            result is Ok <==> old(self).patch().writable,
            result is Ok ==> {
                &&& final(self).patch() == (PatchView {
                    note_graph: saved_graph(old(self).module_graph@),
                    ..old(self).patch()
                })
                &&& restorable(final(self).patch().note_graph, &final(self).registry)
                &&& restored_graph(final(self).patch().note_graph, &final(self).registry) == final(self).module_graph@
                &&& loadable(final(self).patch().note_graph, &final(self).registry) <==> acyclic(
                    final(self).module_graph@,
                )
            },
            result is Err ==> final(self).patch() == old(self).patch(),
            final(self).registry.patches@.len() == old(self).registry.patches@.len(),
            forall|i: int|
                0 <= i < old(self).registry.patches@.len() && i != old(self).current_patch ==> (final(self)).registry.patches@[i] == old(self).registry.patches@[i],
            final(self).current_patch == old(self).current_patch,
            final(self).module_graph == old(self).module_graph,
            final(self).dyn_data_collector == old(self).dyn_data_collector,
            final(self).feedback_displayer == old(self).feedback_displayer,
            final(self).feedback_version_seen == old(self).feedback_version_seen,
            final(self).registry.modules == old(self).registry.modules,
            final(self).registry.scripts == old(self).registry.scripts,
            final(self).registry.icons == old(self).registry.icons,
            final(self).registry.icon_indexes == old(self).registry.icon_indexes,
            final(self).registry.patch_paths == old(self).registry.patch_paths,
            result is Err ==> *final(self) == *old(self),
    {
        if !self.registry.patches[self.current_patch].is_writable() {
            return Err(WriteProtectedPatchError {  });
        }
        self.registry.patches[self.current_patch].save_note_graph(&self.module_graph);
        proof {
            lemma_registered_by_modules(self.module_graph@, &old(self).registry, &self.registry);
            lemma_save_then_restore(self.module_graph@, &self.registry);
        }
        Ok(())
    }

    /// The current patch.
    pub fn borrow_current_patch(&self) -> (patch: &Patch)
        requires
            self.wf(),
        ensures
            patch@ == self.patch(),
    {
        &self.registry.patches[self.current_patch]
    }

    /// Puts a snapshot of the graph into the current patch and returns the
    /// patch as bytes, unless the patch may not be written to.
    pub fn serialize_current_patch(&mut self) -> (result: Result<Vec<u8>, WriteProtectedPatchError>)
        requires
            old(self).wf(),
        ensures
            final(self).wf(),
            result is Ok <==> old(self).patch().writable,
            match result {
                Ok(bytes) => {
                    &&& final(self).patch() == (PatchView {
                        note_graph: saved_graph(old(self).module_graph@),
                        ..old(self).patch()
                    })
                    &&& bytes@ == patch_bytes(final(self).patch())
                    &&& patch_from_bytes(bytes@) == Some(
                        (final(self).patch().name, final(self).patch().note_graph),
                    )
                    &&& restorable(final(self).patch().note_graph, &final(self).registry)
                    &&& restored_graph(final(self).patch().note_graph, &final(self).registry) == final(self).module_graph@
                    &&& loadable(final(self).patch().note_graph, &final(self).registry) <==> acyclic(
                        final(self).module_graph@,
                    )
                },
                Err(_) => *final(self) == *old(self),
            },
            final(self).registry.patches@.len() == old(self).registry.patches@.len(),
            forall|i: int|
                0 <= i < old(self).registry.patches@.len() && i != old(self).current_patch ==> (final(self)).registry.patches@[i] == old(self).registry.patches@[i],
            final(self).current_patch == old(self).current_patch,
            final(self).module_graph == old(self).module_graph,
            final(self).dyn_data_collector == old(self).dyn_data_collector,
            final(self).feedback_displayer == old(self).feedback_displayer,
            final(self).feedback_version_seen == old(self).feedback_version_seen,
            final(self).registry.modules == old(self).registry.modules,
            final(self).registry.scripts == old(self).registry.scripts,
            final(self).registry.icons == old(self).registry.icons,
            final(self).registry.icon_indexes == old(self).registry.icon_indexes,
            final(self).registry.patch_paths == old(self).registry.patch_paths,
    {
        match self.save_current_patch() {
            Ok(_) => {},
            Err(error) => {
                return Err(error);
            },
        }
        Ok(self.registry.patches[self.current_patch].serialize())
    }

    /// Makes a new patch that may be written to out of the graph as it is,
    /// under the current patch's name with its number counted up, and makes
    /// it the current patch. The patch that was current is not touched.
    pub fn save_current_patch_with_new_name(&mut self) -> (place: usize)
        requires
            old(self).wf(),
        ensures
            final(self).wf(),
            place == old(self).registry.patches@.len(),
            final(self).current_patch == place,
            final(self).registry.patches@.len() == place + 1,
            forall|i: int| 0 <= i < place ==> final(self).registry.patches@[i] == old(self).registry.patches@[i],
            final(self).patch() == (PatchView {
                name: incremented(old(self).patch().name),
                writable: true,
                note_graph: saved_graph(old(self).module_graph@),
            }),
            final(self).module_graph == old(self).module_graph,
            final(self).dyn_data_collector == old(self).dyn_data_collector,
            final(self).feedback_displayer == old(self).feedback_displayer,
            final(self).feedback_version_seen == old(self).feedback_version_seen,
            final(self).registry.modules == old(self).registry.modules,
            final(self).registry.scripts == old(self).registry.scripts,
            final(self).registry.icons == old(self).registry.icons,
            final(self).registry.icon_indexes == old(self).registry.icon_indexes,
            final(self).registry.patch_paths == old(self).registry.patch_paths,
    {
        let name: String = increment_name(self.registry.patches[self.current_patch].borrow_name());
        let place: usize = self.registry.create_new_user_patch();
        self.registry.patches[place].set_name(name);
        self.registry.patches[place].save_note_graph(&self.module_graph);
        self.current_patch = place;
        place
    }

    /// Compiles `graph` and, if it holds no feedback loop, makes it the
    /// engine's graph, with the decoders of that compilation.
    fn adopt(&mut self, ctd: &mut CrossThreadData, graph: ModuleGraph) -> (result: Result<
        Request,
        CyclicGraphError,
    >)
        requires
            well_formed(graph@),
        ensures
            result is Ok <==> acyclic(graph@),
            final(ctd).julia_thread_status == old(ctd).julia_thread_status,
            final(ctd).global_params == old(ctd).global_params,
            final(ctd).critical_error == old(ctd).critical_error,
            final(ctd).feedback_data == old(ctd).feedback_data,
            final(ctd).feedback_version == old(ctd).feedback_version,
            final(ctd).perf_counter.generate_code == bumped(old(ctd).perf_counter.generate_code),
            final(ctd).perf_counter.render == old(ctd).perf_counter.render,
            final(self).registry == old(self).registry,
            final(self).current_patch == old(self).current_patch,
            final(self).feedback_version_seen == old(self).feedback_version_seen,
            match result {
                Ok(request) => {
                    &&& final(self).module_graph == graph
                    &&& final(self).in_step()
                    &&& loads(request, graph@, old(ctd).global_params)
                    &&& final(ctd).perf_counter.collect_control_data == bumped(
                        old(ctd).perf_counter.collect_control_data,
                    )
                },
                Err(error) => {
                    &&& *final(self) == *old(self)
                    &&& is_cycle(dependencies(graph@), error.ring@)
                    &&& final(ctd).perf_counter.collect_control_data == old(ctd).perf_counter.collect_control_data
                },
            },
    {
        ctd.perf_counter.count_generate_code();
        let artifact: CodeGenResult = match compile(&graph, &ctd.global_params) {
            Ok(artifact) => artifact,
            Err(error) => {
                return Err(error);
            },
        };
        ctd.perf_counter.count_collect_control_data();
        let CodeGenResult { code, dyn_data_collector, feedback_displayer, data_format } = artifact;
        self.module_graph = graph;
        self.dyn_data_collector = dyn_data_collector;
        self.feedback_displayer = feedback_displayer;
        Ok(Request::LoadArtifact { code, data_format })
    }

    /// Makes a new patch out of bytes that a patch was written as, and loads
    /// it. Either all of it succeeds, or the engine is left as it was.
    pub fn new_patch_from_clipboard(&mut self, ctd: &mut CrossThreadData, clipboard_data: &[u8]) -> (result:
        Result<(usize, Request), LoadError>)
        requires
            old(self).wf(),
        ensures
            final(self).wf(),
            final(ctd).julia_thread_status == old(ctd).julia_thread_status,
            final(ctd).global_params == old(ctd).global_params,
            final(ctd).critical_error == old(ctd).critical_error,
            final(ctd).feedback_data == old(ctd).feedback_data,
            final(ctd).feedback_version == old(ctd).feedback_version,
            final(ctd).perf_counter == counted(
                old(ctd).perf_counter,
                patch_from_bytes(clipboard_data@) matches Some((_, note_graph)) && restorable(
                    note_graph,
                    &old(self).registry,
                ),
                result is Ok,
            ),
            result is Ok <==> (patch_from_bytes(clipboard_data@) matches Some((_, note_graph)) && loadable(
                note_graph,
                &old(self).registry,
            )),
            result matches Err(LoadError::Patch(PatchError::UnresolvedTemplate { .. })) <==> (patch_from_bytes(
                clipboard_data@,
            ) matches Some((_, note_graph)) && !all_resolve(note_graph, &old(self).registry)),
            result matches Err(LoadError::Patch(PatchError::Malformed)) <==> (match patch_from_bytes(
                clipboard_data@,
            ) {
                Some((_, note_graph)) => all_resolve(note_graph, &old(self).registry) && !restorable(
                    note_graph,
                    &old(self).registry,
                ),
                None => true,
            }),
            result matches Err(LoadError::Cyclic(_)) <==> (patch_from_bytes(clipboard_data@) matches Some(
                (_, note_graph),
            ) && restorable(note_graph, &old(self).registry) && !acyclic(
                restored_graph(note_graph, &old(self).registry),
            )),
            result matches Err(LoadError::Patch(PatchError::UnresolvedTemplate { resource_name })) ==> exists|m: int|
                first_unresolved((patch_from_bytes(clipboard_data@)->0).1, &old(self).registry, m) && resource_name@
                    == (patch_from_bytes(clipboard_data@)->0).1[m].resource_name,
            result matches Err(LoadError::Cyclic(error)) ==> is_cycle(
                dependencies(restored_graph((patch_from_bytes(clipboard_data@)->0).1, &old(self).registry)),
                error.ring@,
            ),
            match result {
                Ok((place, request)) => {
                    &&& patch_from_bytes(clipboard_data@) matches Some((name, note_graph))
                    &&& final(self).registry.modules == old(self).registry.modules
                    &&& final(self).registry.scripts == old(self).registry.scripts
                    &&& final(self).registry.icons == old(self).registry.icons
                    &&& final(self).registry.icon_indexes == old(self).registry.icon_indexes
                    &&& final(self).registry.patch_paths == old(self).registry.patch_paths
                    &&& final(self).feedback_version_seen == old(self).feedback_version_seen
                    &&& place == old(self).registry.patches@.len()
                    &&& final(self).current_patch == place
                    &&& final(self).registry.patches@.len() == place + 1
                    &&& forall|i: int|
                        0 <= i < place ==> final(self).registry.patches@[i] == old(self).registry.patches@[i]
                    &&& final(self).patch() == (PatchView { name: name + pasted_suffix(), writable: true, note_graph })
                    &&& final(self).module_graph@ == restored_graph(note_graph, &old(self).registry)
                    &&& final(self).in_step()
                    &&& loads(request, final(self).module_graph@, old(ctd).global_params)
                },
                Err(_) => *final(self) == *old(self),
            },
    {
        let mut patch: Patch = Patch::writable();
        match patch.load_from_serialized_data(clipboard_data) {
            Ok(_) => {},
            Err(error) => {
                return Err(LoadError::Patch(error));
            },
        }
        let ghost loaded = patch@;
        let mut graph: ModuleGraph = ModuleGraph::new();
        match patch.restore_note_graph(&mut graph, &self.registry) {
            Ok(_) => {},
            Err(error) => {
                return Err(LoadError::Patch(error));
            },
        }
        let ghost before = self.registry;
        let request: Request = match self.adopt(ctd, graph) {
            Ok(request) => request,
            Err(error) => {
                return Err(LoadError::Cyclic(error));
            },
        };
        let mut name: String = patch.name.clone();
        name.append(" (pasted)");
        patch.set_name(name);
        let place: usize = self.registry.patches.len();
        self.registry.patches.push(patch);
        self.current_patch = place;
        proof {
            assert(restored_graph(loaded.note_graph, &self.registry) =~= restored_graph(
                loaded.note_graph,
                &before,
            ));
            lemma_registered_by_modules(self.module_graph@, &before, &self.registry);
        }
        Ok((place, request))
    }

    /// Makes the patch at `place` the current patch and its graph the
    /// engine's graph. Either all of it succeeds, or the engine is left as it
    /// was.
    pub fn load_patch(&mut self, ctd: &mut CrossThreadData, place: usize) -> (result: Result<Request, LoadError>)
        requires
            old(self).wf(),
            place < old(self).registry.patches@.len(),
        ensures
            final(self).wf(),
            final(ctd).julia_thread_status == old(ctd).julia_thread_status,
            final(ctd).global_params == old(ctd).global_params,
            final(ctd).critical_error == old(ctd).critical_error,
            final(ctd).feedback_data == old(ctd).feedback_data,
            final(ctd).feedback_version == old(ctd).feedback_version,
            final(ctd).perf_counter == counted(
                old(ctd).perf_counter,
                restorable(old(self).registry.patches@[place as int]@.note_graph, &old(self).registry),
                result is Ok,
            ),
            result is Ok <==> loadable(old(self).registry.patches@[place as int]@.note_graph, &old(self).registry),
            result matches Err(LoadError::Patch(PatchError::UnresolvedTemplate { .. })) <==> !all_resolve(
                old(self).registry.patches@[place as int]@.note_graph,
                &old(self).registry,
            ),
            result matches Err(LoadError::Patch(PatchError::Malformed)) <==> (all_resolve(
                old(self).registry.patches@[place as int]@.note_graph,
                &old(self).registry,
            ) && !restorable(old(self).registry.patches@[place as int]@.note_graph, &old(self).registry)),
            result matches Err(LoadError::Cyclic(_)) <==> (restorable(
                old(self).registry.patches@[place as int]@.note_graph,
                &old(self).registry,
            ) && !acyclic(
                restored_graph(old(self).registry.patches@[place as int]@.note_graph, &old(self).registry),
            )),
            result matches Err(LoadError::Patch(PatchError::UnresolvedTemplate { resource_name })) ==> exists|m: int|
                first_unresolved(old(self).registry.patches@[place as int]@.note_graph, &old(self).registry, m)
                    && resource_name@ == old(self).registry.patches@[place as int]@.note_graph[m].resource_name,
            result matches Err(LoadError::Cyclic(error)) ==> is_cycle(
                dependencies(
                    restored_graph(old(self).registry.patches@[place as int]@.note_graph, &old(self).registry),
                ),
                error.ring@,
            ),
            match result {
                Ok(request) => {
                    &&& final(self).registry == old(self).registry
                    &&& final(self).current_patch == place
                    &&& final(self).feedback_version_seen == old(self).feedback_version_seen
                    &&& final(self).module_graph@ == restored_graph(final(self).patch().note_graph, &old(self).registry)
                    &&& final(self).in_step()
                    &&& loads(request, final(self).module_graph@, old(ctd).global_params)
                },
                Err(_) => *final(self) == *old(self),
            },
    {
        let mut graph: ModuleGraph = ModuleGraph::new();
        match self.registry.patches[place].restore_note_graph(&mut graph, &self.registry) {
            Ok(_) => {},
            Err(error) => {
                return Err(LoadError::Patch(error));
            },
        }
        let request: Request = match self.adopt(ctd, graph) {
            Ok(request) => request,
            Err(error) => {
                return Err(LoadError::Cyclic(error));
            },
        };
        self.current_patch = place;
        Ok(request)
    }

    /// The graph.
    pub fn borrow_module_graph_ref(&self) -> (graph: &ModuleGraph)
        ensures
            *graph == self.module_graph,
    {
        &self.module_graph
    }

    /// Compiles the graph under the current global parameters. On success
    /// both decoders are replaced together and the request that carries the
    /// new code to the worker is returned. If the graph holds a feedback loop
    /// the engine is left as it was and the loop is returned.
    pub fn recompile(&mut self, ctd: &mut CrossThreadData) -> (result: Result<Request, CyclicGraphError>)
        requires
            old(self).wf(),
        ensures
            final(self).wf(),
            result is Ok <==> acyclic(old(self).module_graph@),
            final(ctd).julia_thread_status == old(ctd).julia_thread_status,
            final(ctd).global_params == old(ctd).global_params,
            final(ctd).critical_error == old(ctd).critical_error,
            final(ctd).feedback_data == old(ctd).feedback_data,
            final(ctd).feedback_version == old(ctd).feedback_version,
            final(ctd).perf_counter.generate_code == bumped(old(ctd).perf_counter.generate_code),
            final(ctd).perf_counter.render == old(ctd).perf_counter.render,
            final(self).registry == old(self).registry,
            final(self).current_patch == old(self).current_patch,
            final(self).feedback_version_seen == old(self).feedback_version_seen,
            final(self).module_graph == old(self).module_graph,
            match result {
                Ok(request) => {
                    &&& final(self).in_step()
                    &&& loads(request, old(self).module_graph@, old(ctd).global_params)
                    &&& final(ctd).perf_counter.collect_control_data == bumped(
                        old(ctd).perf_counter.collect_control_data,
                    )
                },
                Err(error) => {
                    &&& final(self).dyn_data_collector == old(self).dyn_data_collector
                    &&& final(self).feedback_displayer == old(self).feedback_displayer
                    &&& is_cycle(dependencies(old(self).module_graph@), error.ring@)
                    &&& final(ctd).perf_counter.collect_control_data == old(ctd).perf_counter.collect_control_data
                },
            },
    {
        ctd.perf_counter.count_generate_code();
        let artifact: CodeGenResult = match compile(&self.module_graph, &ctd.global_params) {
            Ok(artifact) => artifact,
            Err(error) => {
                return Err(error);
            },
        };
        ctd.perf_counter.count_collect_control_data();
        let CodeGenResult { code, dyn_data_collector, feedback_displayer, data_format } = artifact;
        self.dyn_data_collector = dyn_data_collector;
        self.feedback_displayer = feedback_displayer;
        Ok(Request::LoadArtifact { code, data_format })
    }

    /// Gathers the control values the running program reads, in the order of
    /// the last compilation. `None` when the graph has changed since so that
    /// a control the decoder names is gone.
    pub fn reload_dyn_data(&mut self, ctd: &mut CrossThreadData) -> (data: Option<Vec<Scalar>>)
        ensures
            *final(self) == *old(self),
            *final(ctd) == (CrossThreadData {
                perf_counter: SimplePerfCounter {
                    collect_control_data: bumped(old(ctd).perf_counter.collect_control_data),
                    ..old(ctd).perf_counter
                },
                ..*old(ctd)
            }),
            data is Some <==> old(self).dyn_data_collector.reads_from(old(self).module_graph@),
            data matches Some(values) ==> {
                &&& values@.len() == old(self).dyn_data_collector.controls@.len()
                &&& forall|i: int|
                    0 <= i < values@.len() ==> values@[i] == old(self).module_graph@[old(self).dyn_data_collector.controls@[i].0 as int].controls[old(self).dyn_data_collector.controls@[i].1 as int].value
            },
    {
        ctd.perf_counter.count_collect_control_data();
        self.dyn_data_collector.collect_data(&self.module_graph)
    }

    /// Looks for feedback data that has not been shown yet. Returns a copy of
    /// it if its version is not the one shown last, and takes note of the
    /// version; returns nothing, and changes nothing, if it is.
    pub fn poll_feedback_data(&mut self, ctd: &CrossThreadData) -> (new_feedback_data: Option<Vec<Scalar>>)
        ensures
            new_feedback_data is Some <==> ctd.feedback_version != old(self).feedback_version_seen,
            new_feedback_data matches Some(data) ==> data@ == ctd.feedback_data@,
            final(self).feedback_version_seen == ctd.feedback_version,
            final(self).registry == old(self).registry,
            final(self).module_graph == old(self).module_graph,
            final(self).dyn_data_collector == old(self).dyn_data_collector,
            final(self).feedback_displayer == old(self).feedback_displayer,
            final(self).current_patch == old(self).current_patch,
    {
        if ctd.feedback_version == self.feedback_version_seen {
            return None;
        }
        self.feedback_version_seen = ctd.feedback_version;
        let mut data: Vec<Scalar> = Vec::new();
        let mut i: usize = 0;
        while i < ctd.feedback_data.len()
            invariant
                i <= ctd.feedback_data.len(),
                data@.len() == i,
                forall|j: int| 0 <= j < i ==> data@[j] == ctd.feedback_data@[j],
            decreases ctd.feedback_data.len() - i,
        {
            data.push(ctd.feedback_data[i]);
            i += 1;
        }
        assert(data@ =~= ctd.feedback_data@);
        Some(data)
    }

    /// Hands new feedback data, if there is any, to the module at `module`:
    /// the part of the data that the last compilation laid out for it.
    pub fn display_new_feedback_data(&self, new_feedback_data: Option<&Vec<Scalar>>, module: usize) -> (part:
        Option<Vec<Scalar>>)
        ensures
            new_feedback_data is None ==> part is None,
            new_feedback_data matches Some(data) ==> match part {
                Some(values) => {
                    &&& module < self.feedback_displayer.segments@.len()
                    &&& self.feedback_displayer.segments@[module as int].0
                        + self.feedback_displayer.segments@[module as int].1 <= data@.len()
                    &&& values@ == data@.subrange(
                        self.feedback_displayer.segments@[module as int].0 as int,
                        self.feedback_displayer.segments@[module as int].0
                            + self.feedback_displayer.segments@[module as int].1,
                    )
                },
                None => module >= self.feedback_displayer.segments@.len()
                    || self.feedback_displayer.segments@[module as int].0
                    + self.feedback_displayer.segments@[module as int].1 > data@.len(),
            },
    {
        match new_feedback_data {
            Some(data) => self.feedback_displayer.display_feedback(data, module),
            None => None,
        }
    }
}

/// What the audio thread owns.
pub struct AudioThreadData {
    pub global_data: GlobalData,
}

/// The audio thread's face of the engine.
pub struct AudioThreadEngine {
    pub data: AudioThreadData,
}

/// A buffer of silence.
pub open spec fn silence(len: nat) -> Seq<Scalar> {
    Seq::new(len, |i: int| Scalar { bits: 0 })
}

/// What a render returns: the worker's buffer if there is one of the right
/// length, else silence of the right length.
pub open spec fn rendered(
    params: GlobalParameters,
    response: Result<AudioResponse, WorkerUnavailableError>,
) -> Seq<Scalar> {
    match response {
        Ok(answer) => if answer.audio@.len() == params.frame_len() {
            answer.audio@
        } else {
            silence(params.frame_len())
        },
        Err(_) => silence(params.frame_len()),
    }
}

impl AudioThreadEngine {
    /// The transport data is valid.
    pub open spec fn wf(&self) -> bool {
        self.data.global_data@.valid()
    }

    /// The audio thread's face of a new engine, with the transport at rest.
    pub fn new() -> (engine: AudioThreadEngine)
        ensures
            engine.wf(),
            engine.data.global_data@ == GlobalDataView::initial(),
    {
        AudioThreadEngine { data: AudioThreadData { global_data: GlobalData::new() } }
    }

    /// Changes the buffer length and the sample rate. If both are what they
    /// were, nothing happens and nothing is counted. Otherwise the shared
    /// parameters are updated and the graph is compiled once, under the new
    /// parameters and before the call returns, and the request that carries
    /// the new code to the worker is returned. The count of compilations goes
    /// up by one, unless it stands at the largest count there is. Nothing
    /// else of the engine changes, and the decoders only if the compilation
    /// succeeds.
    pub fn set_global_params(
        &mut self,
        ctd: &mut CrossThreadData,
        engine: &mut Engine,
        buffer_length: usize,
        sample_rate: usize,
    ) -> (result: Result<Option<Request>, CyclicGraphError>)
        requires
            old(engine).wf(),
            (GlobalParameters { buffer_length, ..old(ctd).global_params }).fits(),
        ensures
            *final(self) == *old(self),
            final(engine).wf(),
            buffer_length == old(ctd).global_params.buffer_length && sample_rate == old(ctd).global_params.sample_rate ==> {
                &&& result matches Ok(None)
                &&& *final(ctd) == *old(ctd)
                &&& *final(engine) == *old(engine)
            },
            buffer_length != old(ctd).global_params.buffer_length || sample_rate != old(ctd).global_params.sample_rate ==> {
                &&& final(ctd).global_params == (GlobalParameters {
                    buffer_length,
                    sample_rate,
                    ..old(ctd).global_params
                })
                &&& final(ctd).perf_counter.generate_code == bumped(old(ctd).perf_counter.generate_code)
                &&& old(ctd).perf_counter.generate_code < u64::MAX ==> final(ctd).perf_counter.generate_code == old(ctd).perf_counter.generate_code + 1
                &&& final(ctd).perf_counter.render == old(ctd).perf_counter.render
                &&& final(ctd).julia_thread_status == old(ctd).julia_thread_status
                &&& final(ctd).critical_error == old(ctd).critical_error
                &&& final(ctd).feedback_data == old(ctd).feedback_data
                &&& final(ctd).feedback_version == old(ctd).feedback_version
                &&& final(engine).module_graph == old(engine).module_graph
                &&& final(engine).registry == old(engine).registry
                &&& final(engine).current_patch == old(engine).current_patch
                &&& final(engine).feedback_version_seen == old(engine).feedback_version_seen
                &&& result is Ok <==> acyclic(old(engine).module_graph@)
                &&& match result {
                    Ok(request) => {
                        &&& request matches Some(load)
                        &&& final(engine).in_step()
                        &&& loads(load, old(engine).module_graph@, final(ctd).global_params)
                        &&& final(ctd).perf_counter.collect_control_data == bumped(
                            old(ctd).perf_counter.collect_control_data,
                        )
                    },
                    Err(error) => {
                        &&& is_cycle(dependencies(old(engine).module_graph@), error.ring@)
                        &&& final(engine).dyn_data_collector == old(engine).dyn_data_collector
                        &&& final(engine).feedback_displayer == old(engine).feedback_displayer
                        &&& final(ctd).perf_counter.collect_control_data == old(ctd).perf_counter.collect_control_data
                    },
                }
            },
    {
        if buffer_length == ctd.global_params.buffer_length && sample_rate == ctd.global_params.sample_rate {
            return Ok(None);
        }
        ctd.global_params.buffer_length = buffer_length;
        ctd.global_params.sample_rate = sample_rate;
        match engine.recompile(ctd) {
            Ok(request) => Ok(Some(request)),
            Err(error) => Err(error),
        }
    }

    /// Whether a note can be started with these values: the note exists and
    /// the velocity lies between `-1.0` and `1.0`.
    pub fn accepts_note(index: usize, velocity: Scalar) -> (ok: bool)
        ensures
            ok == (index < NUM_NOTES && velocity.in_unit_range()),
    {
        index < NUM_NOTES && velocity.is_in_unit_range()
    }

    /// The request that starts a note.
    pub fn start_note(&mut self, index: usize, velocity: Scalar) -> (request: Request)
        requires
            index < NUM_NOTES,
            velocity.in_unit_range(),
        ensures
            *final(self) == *old(self),
            request == (Request::StartNote { index, velocity }),
            request.valid(),
    {
        Request::StartNote { index, velocity }
    }

    /// The request that lets go of a note.
    pub fn release_note(&mut self, index: usize) -> (request: Request)
        requires
            index < NUM_NOTES,
        ensures
            *final(self) == *old(self),
            request == (Request::ReleaseNote { index }),
            request.valid(),
    {
        Request::ReleaseNote { index }
    }

    /// Whether the pitch wheel can be set to this value: it lies between
    /// `-1.0` and `1.0`.
    pub fn accepts_pitch_wheel(new_pitch_wheel: Scalar) -> (ok: bool)
        ensures
            ok == new_pitch_wheel.in_unit_range(),
    {
        new_pitch_wheel.is_in_unit_range()
    }

    /// Sets the pitch wheel.
    pub fn set_pitch_wheel(&mut self, new_pitch_wheel: Scalar)
        requires
            old(self).wf(),
            new_pitch_wheel.in_unit_range(),
        ensures
            final(self).wf(),
            final(self).data.global_data@ == (GlobalDataView {
                pitch_wheel: new_pitch_wheel,
                ..old(self).data.global_data@
            }),
    {
        self.data.global_data.pitch_wheel = new_pitch_wheel;
    }

    /// Whether a controller can be set to this value: the controller exists
    /// and the value lies between `-1.0` and `1.0`.
    pub fn accepts_control(index: usize, value: Scalar) -> (ok: bool)
        ensures
            ok == (index < NUM_CONTROLLERS && value.in_unit_range()),
    {
        index < NUM_CONTROLLERS && value.is_in_unit_range()
    }

    /// Sets a controller.
    pub fn set_control(&mut self, index: usize, value: Scalar)
        requires
            old(self).wf(),
            index < NUM_CONTROLLERS,
            value.in_unit_range(),
        ensures
            final(self).wf(),
            final(self).data.global_data@ == (GlobalDataView {
                controller_values: old(self).data.global_data@.controller_values.update(index as int, value),
                ..old(self).data.global_data@
            }),
    {
        self.data.global_data.controller_values[index] = value;
    }

    /// Sets the tempo.
    pub fn set_bpm(&mut self, bpm: Scalar)
        ensures
            final(self).data.global_data@ == (GlobalDataView { bpm, ..old(self).data.global_data@ }),
    {
        self.data.global_data.bpm = bpm;
    }

    /// Sets the time the transport has run for.
    pub fn set_elapsed_time(&mut self, time: Scalar)
        ensures
            final(self).data.global_data@ == (GlobalDataView { elapsed_time: time, ..old(self).data.global_data@ }),
    {
        self.data.global_data.elapsed_time = time;
    }

    /// Sets the beats the transport has run for.
    pub fn set_elapsed_beats(&mut self, beats: Scalar)
        ensures
            final(self).data.global_data@ == (GlobalDataView { elapsed_beats: beats, ..old(self).data.global_data@ }),
    {
        self.data.global_data.elapsed_beats = beats;
    }

    /// The request for one buffer: it carries a copy of the transport data as
    /// it is now.
    pub fn render_request(&self) -> (request: Request)
        requires
            self.wf(),
        ensures
            request matches Request::Render(data) && data@ == self.data.global_data@,
            request.valid(),
    {
        Request::Render(self.data.global_data.snapshot())
    }

    /// Ends one render cycle. The transport moves on to the time and beats the
    /// host has worked out for the end of the buffer. The buffer returned is
    /// the worker's if the worker answered with one of the right length, and
    /// silence otherwise, whether the worker failed, was busy or is gone: it
    /// always holds one sample per channel and frame.
    pub fn render_audio(
        &mut self,
        ctd: &CrossThreadData,
        elapsed_time: Scalar,
        elapsed_beats: Scalar,
        response: Result<AudioResponse, WorkerUnavailableError>,
    ) -> (audio: Vec<Scalar>)
        requires
            ctd.global_params.fits(),
        ensures
            audio@.len() == ctd.global_params.frame_len(),
            audio@ == rendered(ctd.global_params, response),
            final(self).data.global_data@ == (GlobalDataView {
                elapsed_time,
                elapsed_beats,
                ..old(self).data.global_data@
            }),
    {
        self.data.global_data.elapsed_time = elapsed_time;
        self.data.global_data.elapsed_beats = elapsed_beats;
        let size: usize = ctd.global_params.frame_length();
        match response {
            Ok(answer) => {
                if answer.audio.len() == size {
                    return answer.audio;
                }
            },
            Err(_) => {},
        }
        let mut audio: Vec<Scalar> = Vec::new();
        let mut i: usize = 0;
        while i < size
            invariant
                i <= size,
                audio@.len() == i,
                forall|j: int| 0 <= j < i ==> audio@[j] == (Scalar { bits: 0 }),
            decreases size - i,
        {
            audio.push(Scalar::zero());
            i += 1;
        }
        assert(audio@ =~= silence(size as nat));
        audio
    }
}

} // verus!
