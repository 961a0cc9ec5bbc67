//! Patches: a name, whether it may be written to, and a snapshot of a graph
//! that names each module's template instead of holding it.

use crate::engine::parts::{
    well_formed,
    AutomationLane,
    ComplexControlView,
    ControlView,
    InputConnection,
    Module,
    ModuleGraph,
    ModuleView,
};
use crate::registry::storage::Stored;
use crate::registry::{find_key, index_of_key, Registry};
use crate::scalar::Scalar;
use vstd::prelude::*;

verus! {

/// What a patch keeps of a control: its value and what automates it.
#[derive(Debug)]
pub struct SavedControl {
    pub value: Scalar,
    pub automation: Vec<AutomationLane>,
}

/// A saved control as a value.
pub struct SavedControlView {
    pub value: Scalar,
    pub automation: Seq<AutomationLane>,
}

impl View for SavedControl {
    type V = SavedControlView;

    open spec fn view(&self) -> SavedControlView {
        SavedControlView { value: self.value, automation: self.automation@ }
    }
}

/// What a patch keeps of a module: the name of its template, where it stands,
/// and what the user made of its controls and inputs.
#[derive(Debug)]
pub struct SavedModule {
    pub resource_name: String,
    pub pos: (i32, i32),
    pub controls: Vec<SavedControl>,
    pub complex_controls: Vec<String>,
    pub inputs: Vec<InputConnection>,
}

/// A saved module as a value.
pub struct SavedModuleView {
    pub resource_name: Seq<char>,
    pub pos: (i32, i32),
    pub controls: Seq<SavedControlView>,
    pub complex_controls: Seq<Seq<char>>,
    pub inputs: Seq<InputConnection>,
}

/// The saved controls of a sequence, each as a value.
pub open spec fn saved_control_views(controls: Seq<SavedControl>) -> Seq<SavedControlView> {
    Seq::new(controls.len(), |c: int| controls[c]@)
}

/// The texts of a sequence, each as a value.
pub open spec fn text_views(texts: Seq<String>) -> Seq<Seq<char>> {
    Seq::new(texts.len(), |c: int| texts[c]@)
}

impl View for SavedModule {
    type V = SavedModuleView;

    open spec fn view(&self) -> SavedModuleView {
        SavedModuleView {
            resource_name: self.resource_name@,
            pos: self.pos,
            controls: saved_control_views(self.controls@),
            complex_controls: text_views(self.complex_controls@),
            inputs: self.inputs@,
        }
    }
}

/// The saved modules of a sequence, each as a value.
pub open spec fn saved_module_views(modules: Seq<SavedModule>) -> Seq<SavedModuleView> {
    Seq::new(modules.len(), |m: int| modules[m]@)
}

/// What a patch keeps of a control.
pub open spec fn saved_control(control: ControlView) -> SavedControlView {
    SavedControlView { value: control.value, automation: control.automation }
}

/// What a patch keeps of a module.
pub open spec fn saved_module(module: ModuleView) -> SavedModuleView {
    SavedModuleView {
        resource_name: module.template.resource_name@,
        pos: module.pos,
        controls: Seq::new(module.controls.len(), |c: int| saved_control(module.controls[c])),
        complex_controls: Seq::new(module.complex_controls.len(), |c: int| module.complex_controls[c].value),
        inputs: module.inputs,
    }
}

/// What a patch keeps of a graph.
pub open spec fn saved_graph(g: Seq<ModuleView>) -> Seq<SavedModuleView> {
    Seq::new(g.len(), |m: int| saved_module(g[m]))
}

/// The saved module has as many controls, complex controls and inputs as the
/// prototype.
pub open spec fn fits(prototype: ModuleView, saved: SavedModuleView) -> bool {
    &&& saved.controls.len() == prototype.controls.len()
    &&& saved.complex_controls.len() == prototype.complex_controls.len()
    &&& saved.inputs.len() == prototype.default_inputs.len()
}

/// A prototype's control with a saved value and saved automation.
pub open spec fn restored_control(prototype: ControlView, saved: SavedControlView) -> ControlView {
    ControlView { value: saved.value, automation: saved.automation, ..prototype }
}

/// An instance of a prototype with everything a patch keeps put back.
pub open spec fn restored_module(prototype: ModuleView, saved: SavedModuleView) -> ModuleView {
    ModuleView {
        controls: Seq::new(
            prototype.controls.len(),
            |c: int| restored_control(prototype.controls[c], saved.controls[c]),
        ),
        complex_controls: Seq::new(
            prototype.complex_controls.len(),
            |c: int| ComplexControlView { value: saved.complex_controls[c], ..prototype.complex_controls[c] },
        ),
        inputs: saved.inputs,
        pos: saved.pos,
        ..prototype
    }
}

/// The registry knows the template of every saved module.
pub open spec fn all_resolve(saved: Seq<SavedModuleView>, registry: &Registry) -> bool {
    forall|m: int| 0 <= m < saved.len() ==> registry.knows_module((#[trigger] saved[m]).resource_name)
}

/// Saved module `m` is the first whose template the registry does not know.
pub open spec fn first_unresolved(saved: Seq<SavedModuleView>, registry: &Registry, m: int) -> bool {
    &&& 0 <= m < saved.len()
    &&& !registry.knows_module(saved[m].resource_name)
    &&& forall|j: int| 0 <= j < m ==> registry.knows_module((#[trigger] saved[j]).resource_name)
}

/// Every saved module fits the prototype it names.
pub open spec fn all_fit(saved: Seq<SavedModuleView>, registry: &Registry) -> bool {
    forall|m: int|
        0 <= m < saved.len() ==> fits(registry.prototype((#[trigger] saved[m]).resource_name), saved[m])
}

/// The graph a snapshot stands for.
pub open spec fn restored_graph(saved: Seq<SavedModuleView>, registry: &Registry) -> Seq<ModuleView> {
    Seq::new(saved.len(), |m: int| restored_module(registry.prototype(saved[m].resource_name), saved[m]))
}

/// The snapshot can be turned back into a graph: every template is known,
/// every saved module fits its prototype, and the graph that results is well
/// formed.
pub open spec fn restorable(saved: Seq<SavedModuleView>, registry: &Registry) -> bool {
    &&& all_resolve(saved, registry)
    &&& all_fit(saved, registry)
    &&& well_formed(restored_graph(saved, registry))
}

/// Every module of the graph is an instance of the prototype that the
/// registry files under its template's name.
pub open spec fn registered(g: Seq<ModuleView>, registry: &Registry) -> bool {
    forall|m: int|
        0 <= m < g.len() ==> {
            &&& registry.knows_module((#[trigger] g[m]).template.resource_name@)
            &&& registry.prototype(g[m].template.resource_name@).fresh() == g[m].fresh()
        }
}

/// Saving a graph and restoring the snapshot gives the graph back: the same
/// modules of the same templates, in the same places, with the same
/// connections, automation and control values.
pub proof fn lemma_save_then_restore(g: Seq<ModuleView>, registry: &Registry)
    requires
        well_formed(g),
        registered(g, registry),
    ensures
        restorable(saved_graph(g), registry),
        restored_graph(saved_graph(g), registry) == g,
{
    let saved = saved_graph(g);
    let back = restored_graph(saved, registry);
    assert forall|m: int| 0 <= m < g.len() implies fits(
        registry.prototype((#[trigger] saved[m]).resource_name),
        saved[m],
    ) && back[m] == g[m] by {
        let module = g[m];
        let prototype = registry.prototype(module.template.resource_name@);
        assert(registry.knows_module(g[m].template.resource_name@));
        assert(prototype.fresh() == module.fresh());
        assert(crate::engine::parts::module_ok(g, g[m]));
        assert(prototype.fresh().controls.len() == module.fresh().controls.len());
        assert(prototype.fresh().complex_controls.len() == module.fresh().complex_controls.len());
        assert(prototype.fresh().inputs.len() == module.fresh().inputs.len());
        let now = restored_module(prototype, saved[m]);
        assert forall|c: int| 0 <= c < module.controls.len() implies now.controls[c] == module.controls[c] by {
            assert(prototype.fresh().controls[c] == module.fresh().controls[c]);
            assert(prototype.controls[c].reset() == module.controls[c].reset());
        }
        assert(now.controls =~= module.controls);
        assert forall|c: int| 0 <= c < module.complex_controls.len() implies now.complex_controls[c]
            == module.complex_controls[c] by {
            assert(prototype.fresh().complex_controls[c] == module.fresh().complex_controls[c]);
        }
        assert(now.complex_controls =~= module.complex_controls);
        assert(now.template == module.template);
        assert(now.default_inputs == module.default_inputs);
    }
    assert(back =~= g);
    assert forall|m: int| 0 <= m < saved.len() implies registry.knows_module((#[trigger] saved[m]).resource_name) by {
        assert(registry.knows_module(g[m].template.resource_name@));
    }
}

/// The graph a snapshot stands for is made of instances of the registry's
/// prototypes.
pub proof fn lemma_restored_is_registered(saved: Seq<SavedModuleView>, registry: &Registry)
    requires
        registry.wf(),
        all_resolve(saved, registry),
    ensures
        registered(restored_graph(saved, registry), registry),
{
    let g = restored_graph(saved, registry);
    assert forall|m: int| 0 <= m < g.len() implies {
        &&& registry.knows_module((#[trigger] g[m]).template.resource_name@)
        &&& registry.prototype(g[m].template.resource_name@).fresh() == g[m].fresh()
    } by {
        let name = saved[m].resource_name;
        assert(registry.knows_module(name));
        let at = index_of_key(registry.modules@, name);
        assert(crate::registry::is_first_match(registry.modules@, name, at));
        let prototype = registry.prototype(name);
        assert(prototype == registry.modules@[at].1@);
        assert(registry.modules@[at].1.template.resource_name@ == registry.modules@[at].0@);
        assert(g[m] == restored_module(prototype, saved[m]));
        assert(g[m].template == prototype.template);
        assert(g[m].fresh().controls =~= prototype.fresh().controls);
        assert(g[m].fresh().complex_controls =~= prototype.fresh().complex_controls);
        assert(g[m].fresh().inputs =~= prototype.fresh().inputs);
    }
}

/// Whether a graph is made of instances of a registry's prototypes depends
/// on the registry's modules alone.
pub proof fn lemma_registered_by_modules(g: Seq<ModuleView>, before: &Registry, after: &Registry)
    requires
        registered(g, before),
        after.modules@ == before.modules@,
    ensures
        registered(g, after),
{
    assert forall|m: int| 0 <= m < g.len() implies {
        &&& after.knows_module((#[trigger] g[m]).template.resource_name@)
        &&& after.prototype(g[m].template.resource_name@).fresh() == g[m].fresh()
    } by {
        assert(before.knows_module(g[m].template.resource_name@));
    }
}

/// Replacing a module by one that differs from it only in what a user can
/// change leaves the graph made of instances of the registry's prototypes.
pub proof fn lemma_edit_keeps_registered(g: Seq<ModuleView>, registry: &Registry, at: int, by: ModuleView)
    requires
        registered(g, registry),
        0 <= at < g.len(),
        by.fresh() == g[at].fresh(),
    ensures
        registered(g.update(at, by), registry),
{
    let h = g.update(at, by);
    assert forall|m: int| 0 <= m < h.len() implies {
        &&& registry.knows_module((#[trigger] h[m]).template.resource_name@)
        &&& registry.prototype(h[m].template.resource_name@).fresh() == h[m].fresh()
    } by {
        assert(registry.knows_module(g[m].template.resource_name@));
        if m == at {
            assert(by.fresh().template == g[at].fresh().template);
        }
    }
}

/// Wiring an input changes nothing that a fresh instance would not undo.
pub proof fn lemma_input_is_an_edit(module: ModuleView, input: int, connection: InputConnection)
    requires
        0 <= input < module.inputs.len(),
    ensures
        module.with_input(input, connection).fresh() == module.fresh(),
{
    assert(module.with_input(input, connection).fresh().controls =~= module.fresh().controls);
    assert(module.with_input(input, connection).fresh().complex_controls =~= module.fresh().complex_controls);
    assert(module.with_input(input, connection).fresh().inputs =~= module.fresh().inputs);
}

/// Setting a control, or changing what automates it, changes nothing that a
/// fresh instance would not undo.
pub proof fn lemma_control_is_an_edit(module: ModuleView, control: int, by: ControlView)
    requires
        0 <= control < module.controls.len(),
        by.reset() == module.controls[control].reset(),
    ensures
        module.with_control(control, by).fresh() == module.fresh(),
{
    let edited = module.with_control(control, by);
    assert forall|c: int| 0 <= c < module.controls.len() implies edited.fresh().controls[c]
        == module.fresh().controls[c] by {}
    assert(edited.fresh().controls =~= module.fresh().controls);
    assert(edited.fresh().complex_controls =~= module.fresh().complex_controls);
    assert(edited.fresh().inputs =~= module.fresh().inputs);
}

/// Taking a module out leaves the graph made of instances of the registry's
/// prototypes.
pub proof fn lemma_removal_keeps_registered(g: Seq<ModuleView>, registry: &Registry, removed: usize)
    requires
        registered(g, registry),
        removed < g.len(),
    ensures
        registered(crate::engine::parts::without_module(g, removed), registry),
{
    let h = crate::engine::parts::without_module(g, removed);
    assert forall|m: int| 0 <= m < h.len() implies {
        &&& registry.knows_module((#[trigger] h[m]).template.resource_name@)
        &&& registry.prototype(h[m].template.resource_name@).fresh() == h[m].fresh()
    } by {
        let from = if m < removed {
            m
        } else {
            m + 1
        };
        let was = g[from];
        assert(registry.knows_module(g[from].template.resource_name@));
        assert(h[m] == was.without(removed));
        assert forall|c: int| 0 <= c < was.controls.len() implies h[m].fresh().controls[c]
            == was.fresh().controls[c] by {}
        assert(h[m].fresh().controls =~= was.fresh().controls);
        assert(h[m].fresh().complex_controls =~= was.fresh().complex_controls);
        assert(h[m].fresh().inputs =~= was.fresh().inputs);
    }
}

/// Adding a new instance of a prototype leaves the graph made of instances
/// of the registry's prototypes.
pub proof fn lemma_addition_keeps_registered(g: Seq<ModuleView>, registry: &Registry, name: Seq<char>)
    requires
        registry.wf(),
        registered(g, registry),
        registry.knows_module(name),
    ensures
        registered(g.push(registry.prototype(name).fresh()), registry),
{
    let added = registry.prototype(name).fresh();
    let h = g.push(added);
    let at = index_of_key(registry.modules@, name);
    assert(crate::registry::is_first_match(registry.modules@, name, at));
    assert(registry.modules@[at].1.template.resource_name@ == registry.modules@[at].0@);
    assert forall|m: int| 0 <= m < h.len() implies {
        &&& registry.knows_module((#[trigger] h[m]).template.resource_name@)
        &&& registry.prototype(h[m].template.resource_name@).fresh() == h[m].fresh()
    } by {
        if m < g.len() {
            assert(registry.knows_module(g[m].template.resource_name@));
        } else {
            assert(registry.modules@[at].1@.fresh() == registry.modules@[at].1@);
        }
    }
}

/// A patch written to bytes, read back and restored gives the graph it was
/// saved from: the same modules, connections and control values.
pub proof fn lemma_patch_round_trip(g: Seq<ModuleView>, registry: &Registry, name: Seq<char>)
    requires
        well_formed(g),
        registered(g, registry),
        patch_storable(PatchView { name, writable: true, note_graph: saved_graph(g) }),
    ensures
        patch_from_bytes(patch_bytes(PatchView { name, writable: true, note_graph: saved_graph(g) })) == Some(
            (name, saved_graph(g)),
        ),
        restorable(saved_graph(g), registry),
        restored_graph(saved_graph(g), registry) == g,
{
    lemma_serialize_then_load(PatchView { name, writable: true, note_graph: saved_graph(g) });
    lemma_save_then_restore(g, registry);
}

/// Why a snapshot could not be turned back into a graph.
#[derive(Debug)]
pub enum PatchError {
    /// The registry knows no template of this name.
    UnresolvedTemplate { resource_name: String },
    /// A saved module does not fit its template, or something would dangle.
    Malformed,
}

/// A graph snapshot with a name.
#[derive(Debug)]
pub struct Patch {
    pub name: String,
    pub writable: bool,
    pub note_graph: Vec<SavedModule>,
}

/// A patch as a value.
pub struct PatchView {
    pub name: Seq<char>,
    pub writable: bool,
    pub note_graph: Seq<SavedModuleView>,
}

impl View for Patch {
    type V = PatchView;

    open spec fn view(&self) -> PatchView {
        PatchView {
            name: self.name@,
            writable: self.writable,
            note_graph: saved_module_views(self.note_graph@),
        }
    }
}

fn copy_lanes(lanes: &Vec<AutomationLane>) -> (copy: Vec<AutomationLane>)
    ensures
        copy@ == lanes@,
{
    let mut copy: Vec<AutomationLane> = Vec::new();
    let mut l: usize = 0;
    while l < lanes.len()
        invariant
            l <= lanes.len(),
            copy@.len() == l,
            forall|j: int| 0 <= j < l ==> copy@[j] == lanes@[j],
        decreases lanes.len() - l,
    {
        copy.push(lanes[l]);
        l += 1;
    }
    assert(copy@ =~= lanes@);
    copy
}

fn copy_inputs(inputs: &Vec<InputConnection>) -> (copy: Vec<InputConnection>)
    ensures
        copy@ == inputs@,
{
    let mut copy: Vec<InputConnection> = Vec::new();
    let mut i: usize = 0;
    while i < inputs.len()
        invariant
            i <= inputs.len(),
            copy@.len() == i,
            forall|j: int| 0 <= j < i ==> copy@[j] == inputs@[j],
        decreases inputs.len() - i,
    {
        copy.push(inputs[i]);
        i += 1;
    }
    assert(copy@ =~= inputs@);
    copy
}

impl SavedModule {
    /// What a patch keeps of `module`.
    pub fn capture(module: &Module) -> (saved: SavedModule)
        ensures
            saved@ == saved_module(module@),
    {
        let mut controls: Vec<SavedControl> = Vec::new();
        let mut c: usize = 0;
        while c < module.controls.len()
            invariant
                c <= module.controls.len(),
                controls@.len() == c,
                forall|j: int| 0 <= j < c ==> (#[trigger] controls@[j])@ == saved_control(module.controls@[j]@),
            decreases module.controls.len() - c,
        {
            let control = &module.controls[c];
            controls.push(SavedControl { value: control.value, automation: copy_lanes(&control.automation) });
            c += 1;
        }
        let mut complex_controls: Vec<String> = Vec::new();
        let mut x: usize = 0;
        while x < module.complex_controls.len()
            invariant
                x <= module.complex_controls.len(),
                complex_controls@.len() == x,
                forall|j: int| 0 <= j < x ==> (#[trigger] complex_controls@[j])@ == module.complex_controls@[j].value@,
            decreases module.complex_controls.len() - x,
        {
            complex_controls.push(module.complex_controls[x].value.clone());
            x += 1;
        }
        let saved: SavedModule = SavedModule {
            resource_name: module.template.resource_name.clone(),
            pos: module.pos,
            controls,
            complex_controls,
            inputs: copy_inputs(&module.inputs),
        };
        assert(saved@.controls =~= saved_module(module@).controls);
        assert(saved@.complex_controls =~= saved_module(module@).complex_controls);
        saved
    }

    /// An instance of `prototype` with everything this snapshot keeps put
    /// back, if the snapshot fits the prototype.
    pub fn revive(&self, prototype: &Module) -> (module: Option<Module>)
        ensures
            module is Some <==> fits(prototype@, self@),
            module matches Some(m) ==> m@ == restored_module(prototype@, self@),
    {
        if self.controls.len() != prototype.controls.len() || self.complex_controls.len()
            != prototype.complex_controls.len() || self.inputs.len() != prototype.default_inputs.len() {
            return None;
        }
        let mut module: Module = prototype.instantiate();
        let ghost fresh = module@;
        assert(module@.controls.len() == prototype@.controls.len());
        assert(module@.complex_controls.len() == prototype@.complex_controls.len());
        let mut c: usize = 0;
        while c < self.controls.len()
            invariant
                c <= self.controls.len(),
                fresh == prototype@.fresh(),
                self.controls@.len() == prototype.controls@.len(),
                module.controls@.len() == self.controls@.len(),
                module.template == fresh.template,
                module.complex_controls@.len() == prototype.complex_controls@.len(),
                module@.complex_controls == fresh.complex_controls,
                module.default_inputs@ == fresh.default_inputs,
                forall|j: int|
                    0 <= j < c ==> (#[trigger] module.controls@[j])@ == restored_control(
                        prototype.controls@[j]@,
                        self.controls@[j]@,
                    ),
                forall|j: int| c <= j < module.controls@.len() ==> (#[trigger] module.controls@[j])@ == fresh.controls[j],
            decreases self.controls.len() - c,
        {
            let lanes: Vec<AutomationLane> = copy_lanes(&self.controls[c].automation);
            assert(module.controls@[c as int]@ == fresh.controls[c as int]);
            module.controls[c].value = self.controls[c].value;
            module.controls[c].automation = lanes;
            c += 1;
        }
        let mut x: usize = 0;
        while x < self.complex_controls.len()
            invariant
                x <= self.complex_controls.len(),
                fresh == prototype@.fresh(),
                self.complex_controls@.len() == prototype.complex_controls@.len(),
                module.complex_controls@.len() == self.complex_controls@.len(),
                module.template == fresh.template,
                module.default_inputs@ == fresh.default_inputs,
                module.controls@.len() == prototype.controls@.len(),
                forall|j: int|
                    0 <= j < module.controls@.len() ==> (#[trigger] module.controls@[j])@ == restored_control(
                        prototype.controls@[j]@,
                        self.controls@[j]@,
                    ),
                forall|j: int|
                    0 <= j < x ==> (#[trigger] module.complex_controls@[j])@ == (ComplexControlView {
                        value: self.complex_controls@[j]@,
                        ..prototype.complex_controls@[j]@
                    }),
                forall|j: int|
                    x <= j < module.complex_controls@.len() ==> (#[trigger] module.complex_controls@[j])@
                        == fresh.complex_controls[j],
            decreases self.complex_controls.len() - x,
        {
            assert(module.complex_controls@[x as int]@ == fresh.complex_controls[x as int]);
            module.complex_controls[x].value = self.complex_controls[x].clone();
            x += 1;
        }
        module.inputs = copy_inputs(&self.inputs);
        module.pos = self.pos;
        assert(module@.controls =~= restored_module(prototype@, self@).controls);
        assert(module@.complex_controls =~= restored_module(prototype@, self@).complex_controls);
        Some(module)
    }
}

/// The bytes a patch is written as: its name, then its snapshot.
pub open spec fn patch_bytes(patch: PatchView) -> Seq<u8> {
    String::put(patch.name) + Vec::<SavedModule>::put(patch.note_graph)
}

/// The name and the snapshot that `bytes` are the byte form of, if they are
/// the byte form of any.
pub open spec fn patch_from_bytes(bytes: Seq<u8>) -> Option<(Seq<char>, Seq<SavedModuleView>)> {
    match String::take(bytes) {
        Some((name, rest)) => match Vec::<SavedModule>::take(rest) {
            Some((note_graph, end)) => if end.len() == 0 {
                Some((name, note_graph))
            } else {
                None
            },
            None => None,
        },
        None => None,
    }
}

/// Every length in the patch can be written down.
pub open spec fn patch_storable(patch: PatchView) -> bool {
    String::storable(patch.name) && Vec::<SavedModule>::storable(patch.note_graph)
}

/// Reading the bytes a patch was written as gives back its name and its
/// snapshot.
pub proof fn lemma_serialize_then_load(patch: PatchView)
    requires
        patch_storable(patch),
    ensures
        patch_from_bytes(patch_bytes(patch)) == Some((patch.name, patch.note_graph)),
{
    let tail = Vec::<SavedModule>::put(patch.note_graph);
    String::lemma_round(patch.name, tail);
    Vec::<SavedModule>::lemma_round(patch.note_graph, Seq::empty());
    assert(tail + Seq::<u8>::empty() =~= tail);
}

impl Patch {
    /// A patch with no name and no modules that may be written to.
    pub open spec fn blank() -> PatchView {
        PatchView { name: Seq::empty(), writable: true, note_graph: Seq::empty() }
    }

    /// A new, empty patch that may be written to.
    pub fn writable() -> (patch: Patch)
        ensures
            patch@ == Patch::blank(),
    {
        let patch: Patch = Patch { name: String::new(), writable: true, note_graph: Vec::new() };
        assert(patch@.note_graph =~= Seq::empty());
        patch
    }

    /// Whether the patch may be written to. Factory patches may not.
    pub fn is_writable(&self) -> (yes: bool)
        ensures
            yes == self@.writable,
    {
        self.writable
    }

    /// The patch's name.
    pub fn borrow_name(&self) -> (name: &str)
        ensures
            name@ == self@.name,
    {
        self.name.as_str()
    }

    /// Gives the patch another name.
    pub fn set_name(&mut self, name: String)
        ensures
            final(self)@ == (PatchView { name: name@, ..old(self)@ }),
    {
        self.name = name;
    }

    /// The patch as bytes.
    pub fn serialize(&self) -> (bytes: Vec<u8>)
        ensures
            bytes@ == patch_bytes(self@),
            patch_storable(self@),
            patch_from_bytes(bytes@) == Some((self@.name, self@.note_graph)),
    {
        let mut bytes: Vec<u8> = Vec::new();
        self.name.write(&mut bytes);
        self.note_graph.write(&mut bytes);
        assert(self.note_graph.model() =~= self@.note_graph);
        assert(bytes@ =~= patch_bytes(self@));
        proof {
            lemma_serialize_then_load(self@);
        }
        bytes
    }

    /// Takes name and snapshot from bytes that a patch was written as. If the
    /// bytes are no patch, the patch is left as it was.
    pub fn load_from_serialized_data(&mut self, data: &[u8]) -> (result: Result<(), PatchError>)
        ensures
            match patch_from_bytes(data@) {
                Some((name, note_graph)) => result is Ok && final(self)@ == (PatchView {
                    name,
                    note_graph,
                    writable: old(self)@.writable,
                }),
                None => result matches Err(PatchError::Malformed) && *final(self) == *old(self),
            },
    {
        assert(data@.skip(0) =~= data@);
        let (name, at) = match String::read(data, 0) {
            Some(found) => found,
            None => {
                return Err(PatchError::Malformed);
            },
        };
        let (note_graph, end) = match Vec::<SavedModule>::read(data, at) {
            Some(found) => found,
            None => {
                return Err(PatchError::Malformed);
            },
        };
        if end != data.len() {
            return Err(PatchError::Malformed);
        }
        assert(note_graph.model() =~= saved_module_views(note_graph@));
        self.name = name;
        self.note_graph = note_graph;
        Ok(())
    }

    /// Replaces the patch's snapshot by one of `graph`.
    pub fn save_note_graph(&mut self, graph: &ModuleGraph)
        ensures
            final(self)@ == (PatchView { note_graph: saved_graph(graph@), ..old(self)@ }),
    {
        let mut note_graph: Vec<SavedModule> = Vec::new();
        let mut m: usize = 0;
        while m < graph.modules.len()
            invariant
                m <= graph.modules.len(),
                note_graph@.len() == m,
                forall|j: int| 0 <= j < m ==> (#[trigger] note_graph@[j])@ == saved_module(graph@[j]),
            decreases graph.modules.len() - m,
        {
            note_graph.push(SavedModule::capture(&graph.modules[m]));
            m += 1;
        }
        self.note_graph = note_graph;
        assert(self@.note_graph =~= saved_graph(graph@));
    }

    /// Turns the patch's snapshot back into a graph and puts it in place of
    /// `graph`. Either all of it succeeds or `graph` is left as it was.
    pub fn restore_note_graph(&self, graph: &mut ModuleGraph, registry: &Registry) -> (result: Result<
        (),
        PatchError,
    >)
        ensures
            result is Ok <==> restorable(self@.note_graph, registry),
            match result {
                Ok(_) => {
                    &&& final(graph)@ == restored_graph(self@.note_graph, registry)
                    &&& well_formed(final(graph)@)
                    &&& registry.wf() ==> registered(final(graph)@, registry)
                },
                Err(PatchError::UnresolvedTemplate { resource_name }) => {
                    &&& *final(graph) == *old(graph)
                    &&& exists|m: int|
                        first_unresolved(self@.note_graph, registry, m) && resource_name@
                            == self@.note_graph[m].resource_name
                },
                Err(PatchError::Malformed) => {
                    &&& *final(graph) == *old(graph)
                    &&& all_resolve(self@.note_graph, registry)
                },
            },
    {
        let ghost saved = self@.note_graph;
        let mut places: Vec<usize> = Vec::new();
        let mut m: usize = 0;
        while m < self.note_graph.len()
            invariant
                m <= self.note_graph.len(),
                saved == self@.note_graph,
                places@.len() == m,
                forall|j: int| 0 <= j < m ==> registry.knows_module((#[trigger] saved[j]).resource_name),
                forall|j: int|
                    0 <= j < m ==> (#[trigger] places@[j]) == index_of_key(registry.modules@, saved[j].resource_name)
                        && places@[j] < registry.modules@.len(),
            decreases self.note_graph.len() - m,
        {
            let name: &String = &self.note_graph[m].resource_name;
            assert(name@ == saved[m as int].resource_name);
            match find_key(&registry.modules, name.as_str()) {
                Some(at) => {
                    places.push(at);
                },
                None => {
                    assert(first_unresolved(saved, registry, m as int));
                    return Err(PatchError::UnresolvedTemplate { resource_name: name.clone() });
                },
            }
            m += 1;
        }
        assert(all_resolve(saved, registry));
        let mut modules: Vec<Module> = Vec::new();
        let mut m: usize = 0;
        while m < self.note_graph.len()
            invariant
                m <= self.note_graph.len(),
                saved == self@.note_graph,
                places@.len() == self.note_graph@.len(),
                all_resolve(saved, registry),
                forall|j: int|
                    0 <= j < places@.len() ==> (#[trigger] places@[j]) == index_of_key(
                        registry.modules@,
                        saved[j].resource_name,
                    ) && places@[j] < registry.modules@.len(),
                modules@.len() == m,
                forall|j: int| 0 <= j < m ==> fits(registry.prototype((#[trigger] saved[j]).resource_name), saved[j]),
                forall|j: int|
                    0 <= j < m ==> (#[trigger] modules@[j])@ == restored_module(
                        registry.prototype(saved[j].resource_name),
                        saved[j],
                    ),
            decreases self.note_graph.len() - m,
        {
            let at: usize = places[m];
            let prototype: &Module = &registry.modules[at].1;
            assert(prototype@ == registry.prototype(saved[m as int].resource_name));
            match self.note_graph[m].revive(prototype) {
                Some(module) => {
                    modules.push(module);
                },
                None => {
                    assert(!fits(registry.prototype(saved[m as int].resource_name), saved[m as int]));
                    return Err(PatchError::Malformed);
                },
            }
            m += 1;
        }
        let candidate: ModuleGraph = ModuleGraph { modules };
        assert(candidate@ =~= restored_graph(saved, registry));
        if !candidate.is_well_formed() {
            return Err(PatchError::Malformed);
        }
        proof {
            if registry.wf() {
                lemma_restored_is_registered(saved, registry);
            }
        }
        *graph = candidate;
        Ok(())
    }
}

} // verus!
