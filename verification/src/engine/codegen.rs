//! The code generator: from a graph and the global parameters to what the
//! execution worker runs and what the control plane keeps to talk to it.

use crate::engine::data_routing::{
    clipped,
    control_refs,
    feedback_segments,
    feedback_total,
    ControlDynDataCollector,
    FeedbackDisplayer,
};
use crate::engine::data_transfer::{DataFormat, GlobalParameters};
use crate::engine::parts::{acyclic, dependencies, well_formed, CyclicGraphError, ModuleGraph, ModuleView};
use crate::engine::schedule::{is_cycle, is_schedule};
use vstd::prelude::*;

verus! {

/// What the execution worker runs: the modules in an order in which each
/// comes after all it reads from, and for each the code resource to run.
#[derive(Debug)]
pub struct GeneratedCode {
    pub order: Vec<usize>,
    pub resources: Vec<String>,
}

/// The outcome of one compilation. The code goes to the execution worker, the
/// two decoders stay with the control plane, and the data format is what both
/// sides agree on.
#[derive(Debug)]
pub struct CodeGenResult {
    pub code: GeneratedCode,
    pub dyn_data_collector: ControlDynDataCollector,
    pub feedback_displayer: FeedbackDisplayer,
    pub data_format: DataFormat,
}

impl GeneratedCode {
    /// The code runs every module of the graph once, after all it reads from,
    /// each with its template's code resource.
    pub open spec fn runs(&self, g: Seq<ModuleView>) -> bool {
        &&& is_schedule(dependencies(g), self.order@)
        &&& self.resources@.len() == self.order@.len()
        &&& forall|i: int|
            0 <= i < self.order@.len() ==> (#[trigger] self.resources@[i])@ == g[self.order@[i] as int].template.code_resource@
    }
}

impl CodeGenResult {
    /// All four parts come from compiling `g` under `params`.
    pub open spec fn describes(&self, g: Seq<ModuleView>, params: GlobalParameters) -> bool {
        &&& self.code.runs(g)
        &&& self.dyn_data_collector.controls@ == control_refs(g)
        &&& self.feedback_displayer.segments@ == feedback_segments(g)
        &&& self.data_format.global_params == params
        &&& self.data_format.dyn_data_len == control_refs(g).len()
        &&& self.data_format.feedback_data_len == clipped(feedback_total(g))
    }
}

/// Compiles a graph. Succeeds exactly when the graph holds no feedback loop;
/// otherwise returns the first loop found. The graph is only read.
///
/// The control-data decoder names the graph's controls module by module and
/// control by control, whatever order the modules run in, so the place of a
/// control's value in the data depends only on which controls there are.
pub fn compile(graph: &ModuleGraph, global_params: &GlobalParameters) -> (result: Result<
    CodeGenResult,
    CyclicGraphError,
>)
    requires
        well_formed(graph@),
    ensures
        result.is_ok() <==> acyclic(graph@),
        match result {
            Ok(artifact) => artifact.describes(graph@, *global_params),
            Err(error) => is_cycle(dependencies(graph@), error.ring@),
        },
{
    let order: Vec<usize> = match graph.validate_acyclic() {
        Ok(order) => order,
        Err(error) => {
            return Err(error);
        },
    };
    let mut resources: Vec<String> = Vec::new();
    let mut i: usize = 0;
    while i < order.len()
        invariant
            i <= order.len(),
            is_schedule(dependencies(graph@), order@),
            resources@.len() == i,
            forall|j: int|
                0 <= j < i ==> (#[trigger] resources@[j])@ == graph@[order@[j] as int].template.code_resource@,
        decreases order.len() - i,
    {
        let place: usize = order[i];
        assert(order@[i as int] < dependencies(graph@).len());
        resources.push(graph.modules[place].template.code_resource.clone());
        i += 1;
    }
    let dyn_data_collector: ControlDynDataCollector = ControlDynDataCollector::create(graph);
    let (feedback_displayer, feedback_data_len) = FeedbackDisplayer::create(graph);
    let data_format: DataFormat = DataFormat {
        global_params: *global_params,
        dyn_data_len: dyn_data_collector.controls.len(),
        feedback_data_len,
    };
    Ok(CodeGenResult { code: GeneratedCode { order, resources }, dyn_data_collector, feedback_displayer, data_format })
}

} // verus!
