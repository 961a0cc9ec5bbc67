//! The registry of everything a library brings: module prototypes, scripts,
//! icons and patches.

pub mod archive;
pub mod filing;
pub mod library_preload;
pub mod prototype;
pub mod save_data;
pub mod storage;
pub mod yaml;
pub mod yaml_text;

use crate::engine::parts::{Module, ModuleView};
use crate::registry::archive::{
    archive_entries,
    archive_len,
    entry_data,
    entry_name,
    is_near,
    near,
    open_archive,
    unzipped,
    zip_error_text,
    Entry,
};
use crate::registry::filing::{
    entry_fault,
    entry_key,
    filed,
    EntryFault,
    is_faulty_tree,
    is_filed_module,
    lemma_module_filed,
    lemma_modules_kept,
    lemma_patch_filed,
    lemma_patches_kept,
    lemma_script_filed,
    lemma_scripts_kept,
    no_modules,
    place_named,
    none_at_fault,
    stops_at,
};
use crate::registry::prototype::{create_module_prototype_from_yaml, describes, prototype_fault};
use crate::registry::save_data::{patch_from_bytes, Patch, PatchView};
use crate::registry::storage::{text_from_utf8, utf8_error_text};
use crate::registry::yaml::{DescriptorError, YamlNode};
use crate::registry::yaml_text::{is_tree_of, parse_yaml, TextError};
use crate::scalar::Scalar;
use crate::text::{ends_with, find_last, is_suffix, last_index_of, last_place_of, last_stand, same_text};
use std::io::Cursor;
use vstd::prelude::*;
use vstd::string::*;
use vstd::utf8::{decode_utf8, valid_utf8};
use zip::read::ZipArchive;

verus! {

/// `at` is the first entry of `entries` filed under `key`.
pub open spec fn is_first_match<T>(entries: Seq<(String, T)>, key: Seq<char>, at: int) -> bool {
    &&& 0 <= at < entries.len()
    &&& entries[at].0@ == key
    &&& forall|j: int| 0 <= j < at ==> (#[trigger] entries[j]).0@ != key
}

/// Something is filed under `key`.
pub open spec fn has_key<T>(entries: Seq<(String, T)>, key: Seq<char>) -> bool {
    exists|at: int| is_first_match(entries, key, at)
}

/// Where the first entry filed under `key` stands.
pub open spec fn index_of_key<T>(entries: Seq<(String, T)>, key: Seq<char>) -> int {
    choose|at: int| is_first_match(entries, key, at)
}

/// No two entries are filed under the same key.
pub open spec fn keys_unique<T>(entries: Seq<(String, T)>) -> bool {
    forall|i: int, j: int|
        0 <= i < j < entries.len() ==> (#[trigger] entries[i]).0@ != (#[trigger] entries[j]).0@
}

/// Finds the first entry filed under `key`.
pub fn find_key<T>(entries: &Vec<(String, T)>, key: &str) -> (found: Option<usize>)
    ensures
        found is Some <==> has_key(entries@, key@),
        found matches Some(at) ==> at == index_of_key(entries@, key@) && is_first_match(
            entries@,
            key@,
            at as int,
        ),
        found is None ==> forall|j: int| 0 <= j < entries@.len() ==> (#[trigger] entries@[j]).0@ != key@,
{
    let mut at: usize = 0;
    while at < entries.len()
        invariant
            at <= entries.len(),
            forall|j: int| 0 <= j < at ==> (#[trigger] entries@[j]).0@ != key@,
        decreases entries.len() - at,
    {
        if same_text(entries[at].0.as_str(), key) {
            assert(is_first_match(entries@, key@, at as int));
            return Some(at);
        }
        at += 1;
    }
    assert(!has_key(entries@, key@)) by {
        if has_key(entries@, key@) {
            let w = choose|w: int| is_first_match(entries@, key@, w);
            assert(entries@[w].0@ == key@);
        }
    }
    None
}

/// Whether no two entries are filed under the same key.
pub fn has_unique_keys<T>(entries: &Vec<(String, T)>) -> (ok: bool)
    ensures
        ok == keys_unique(entries@),
{
    let mut j: usize = 0;
    while j < entries.len()
        invariant
            j <= entries.len(),
            forall|a: int, b: int|
                0 <= a < b < j ==> (#[trigger] entries@[a]).0@ != (#[trigger] entries@[b]).0@,
        decreases entries.len() - j,
    {
        let mut i: usize = 0;
        while i < j
            invariant
                i <= j,
                j < entries.len(),
                forall|a: int| 0 <= a < i ==> (#[trigger] entries@[a]).0@ != entries@[j as int].0@,
            decreases j - i,
        {
            if same_text(entries[i].0.as_str(), entries[j].0.as_str()) {
                return false;
            }
            i += 1;
        }
        j += 1;
    }
    true
}

/// What is filed under `key`.
pub open spec fn value_at<T>(entries: Seq<(String, T)>, key: Seq<char>) -> T {
    entries[index_of_key(entries, key)].1
}

/// No key has two first entries.
pub proof fn lemma_first_match_unique<T>(entries: Seq<(String, T)>, key: Seq<char>, a: int, b: int)
    requires
        is_first_match(entries, key, a),
        is_first_match(entries, key, b),
    ensures
        a == b,
{
    if a < b {
        assert(entries[a].0@ != key);
    } else if b < a {
        assert(entries[b].0@ != key);
    }
}

/// Files `value` under `key`, in place of what was filed there before, if
/// anything was. Returns where it stands. What is filed under other keys
/// stays.
pub fn put_key<T>(entries: &mut Vec<(String, T)>, key: String, value: T) -> (at: usize)
    ensures
        match find_spec(old(entries)@, key@) {
            Some(was) => at == was && final(entries)@ == old(entries)@.update(was, (key, value)),
            None => at == old(entries)@.len() && final(entries)@ == old(entries)@.push((key, value)),
        },
        keys_unique(old(entries)@) ==> keys_unique(final(entries)@),
        forall|name: Seq<char>|
            #![trigger has_key(final(entries)@, name)]
            has_key(final(entries)@, name) <==> (name == key@ || has_key(old(entries)@, name)),
        forall|name: Seq<char>|
            #![trigger value_at(final(entries)@, name)]
            has_key(final(entries)@, name) ==> value_at(final(entries)@, name) == if name == key@ {
                value
            } else {
                value_at(old(entries)@, name)
            },
{
    let ghost before = entries@;
    match find_key(entries, key.as_str()) {
        Some(at) => {
            entries[at] = (key, value);
            proof {
                let after = entries@;
                assert forall|name: Seq<char>, i: int| is_first_match(after, name, i) <==> is_first_match(
                    before,
                    name,
                    i,
                ) by {
                    if is_first_match(after, name, i) {
                        assert forall|j: int| 0 <= j < i implies (#[trigger] before[j]).0@ != name by {
                            assert(after[j].0@ != name);
                        }
                    }
                    if is_first_match(before, name, i) {
                        assert forall|j: int| 0 <= j < i implies (#[trigger] after[j]).0@ != name by {
                            assert(before[j].0@ != name);
                        }
                    }
                }
                assert forall|name: Seq<char>| #![trigger has_key(after, name)] has_key(after, name) <==> (name
                    == key@ || has_key(before, name)) by {
                    if has_key(after, name) {
                        let i = choose|i: int| is_first_match(after, name, i);
                        assert(is_first_match(before, name, i));
                    }
                    if has_key(before, name) {
                        let i = choose|i: int| is_first_match(before, name, i);
                        assert(is_first_match(after, name, i));
                    }
                    if name == key@ {
                        assert(is_first_match(after, name, at as int));
                    }
                }
                assert forall|name: Seq<char>| #![trigger value_at(after, name)] has_key(after, name) implies value_at(
                    after,
                    name,
                ) == if name == key@ {
                    value
                } else {
                    value_at(before, name)
                } by {
                    let i = index_of_key(after, name);
                    assert(is_first_match(after, name, i));
                    assert(is_first_match(before, name, i));
                    lemma_first_match_unique(before, name, i, index_of_key(before, name));
                    if name == key@ {
                        lemma_first_match_unique(after, name, i, at as int);
                    }
                }
                assert(keys_unique(before) ==> keys_unique(after)) by {
                    if keys_unique(before) {
                        assert forall|i: int, j: int| 0 <= i < j < after.len() implies (#[trigger] after[i]).0@ != (
                        #[trigger] after[j]).0@ by {
                            assert(before[i].0@ != before[j].0@);
                        }
                    }
                }
            }
            at
        },
        None => {
            let at: usize = entries.len();
            entries.push((key, value));
            proof {
                let after = entries@;
                assert forall|name: Seq<char>| #![trigger has_key(after, name)] has_key(after, name) <==> (name
                    == key@ || has_key(before, name)) by {
                    if has_key(after, name) {
                        let i = choose|i: int| is_first_match(after, name, i);
                        if i < before.len() {
                            assert forall|j: int| 0 <= j < i implies (#[trigger] before[j]).0@ != name by {
                                assert(after[j].0@ != name);
                            }
                            assert(is_first_match(before, name, i));
                        }
                    }
                    if has_key(before, name) {
                        let i = choose|i: int| is_first_match(before, name, i);
                        assert forall|j: int| 0 <= j < i implies (#[trigger] after[j]).0@ != name by {
                            assert(before[j].0@ != name);
                        }
                        assert(is_first_match(after, name, i));
                    }
                    if name == key@ {
                        assert forall|j: int| 0 <= j < at implies (#[trigger] after[j]).0@ != name by {
                            assert(before[j].0@ != name);
                        }
                        assert(is_first_match(after, name, at as int));
                    }
                }
                assert forall|name: Seq<char>| #![trigger value_at(after, name)] has_key(after, name) implies value_at(
                    after,
                    name,
                ) == if name == key@ {
                    value
                } else {
                    value_at(before, name)
                } by {
                    let i = index_of_key(after, name);
                    assert(is_first_match(after, name, i));
                    if name == key@ {
                        assert forall|j: int| 0 <= j < at implies (#[trigger] after[j]).0@ != name by {
                            assert(before[j].0@ != name);
                        }
                        assert(is_first_match(after, name, at as int));
                        lemma_first_match_unique(after, name, i, at as int);
                    } else {
                        assert(i < before.len());
                        assert forall|j: int| 0 <= j < i implies (#[trigger] before[j]).0@ != name by {
                            assert(after[j].0@ != name);
                        }
                        assert(is_first_match(before, name, i));
                        lemma_first_match_unique(before, name, i, index_of_key(before, name));
                    }
                }
                assert(keys_unique(before) ==> keys_unique(after)) by {
                    if keys_unique(before) {
                        assert forall|i: int, j: int| 0 <= i < j < after.len() implies (#[trigger] after[i]).0@ != (
                        #[trigger] after[j]).0@ by {
                            if j < before.len() {
                                assert(before[i].0@ != before[j].0@);
                            } else {
                                assert(before[i].0@ != key@);
                            }
                        }
                    }
                }
            }
            at
        },
    }
}

/// Where the first entry filed under `key` stands, if there is one.
pub open spec fn find_spec<T>(entries: Seq<(String, T)>, key: Seq<char>) -> Option<int> {
    if has_key(entries, key) {
        Some(index_of_key(entries, key))
    } else {
        None
    }
}

/// Everything the loaded libraries provide.
pub struct Registry {
    pub modules: Vec<(String, Module)>,
    pub scripts: Vec<(String, String)>,
    pub icon_indexes: Vec<(String, usize)>,
    pub icons: Vec<Vec<u8>>,
    pub patches: Vec<Patch>,
    pub patch_paths: Vec<(String, usize)>,
}

impl Registry {
    /// A module prototype is filed under `id`.
    pub open spec fn knows_module(&self, id: Seq<char>) -> bool {
        has_key(self.modules@, id)
    }

    /// The module prototype filed under `id`.
    pub open spec fn prototype(&self, id: Seq<char>) -> ModuleView {
        self.modules@[index_of_key(self.modules@, id)].1@
    }

    /// The place of the icon filed under `name`, if there is one.
    pub open spec fn icon_named(&self, name: Seq<char>) -> Option<usize> {
        if has_key(self.icon_indexes@, name) {
            Some(self.icon_indexes@[index_of_key(self.icon_indexes@, name)].1)
        } else {
            None
        }
    }

    /// The place of the patch filed under `name`, if there is one.
    pub open spec fn patch_named(&self, name: Seq<char>) -> Option<usize> {
        if has_key(self.patch_paths@, name) {
            Some(self.patch_paths@[index_of_key(self.patch_paths@, name)].1)
        } else {
            None
        }
    }

    /// Nothing is filed twice, every prototype is well shaped and as its
    /// template makes it, and every index leads somewhere.
    pub open spec fn wf(&self) -> bool {
        &&& keys_unique(self.modules@)
        &&& keys_unique(self.scripts@)
        &&& keys_unique(self.icon_indexes@)
        &&& keys_unique(self.patch_paths@)
        &&& forall|i: int|
            0 <= i < self.modules@.len() ==> {
                &&& (#[trigger] self.modules@[i]).1@.shaped()
                &&& self.modules@[i].1@.fresh() == self.modules@[i].1@
                &&& self.modules@[i].1.template.resource_name@ == self.modules@[i].0@
            }
        &&& forall|i: int| 0 <= i < self.icon_indexes@.len() ==> (#[trigger] self.icon_indexes@[i]).1 < self.icons@.len()
        &&& forall|i: int| 0 <= i < self.patch_paths@.len() ==> (#[trigger] self.patch_paths@[i]).1 < self.patches@.len()
    }

    /// Whether the registry is in order.
    pub fn is_wf(&self) -> (ok: bool)
        ensures
            ok == self.wf(),
    {
        if !(has_unique_keys(&self.modules) && has_unique_keys(&self.scripts) && has_unique_keys(
            &self.icon_indexes,
        ) && has_unique_keys(&self.patch_paths)) {
            return false;
        }
        let mut m: usize = 0;
        while m < self.modules.len()
            invariant
                m <= self.modules.len(),
                forall|i: int|
                    0 <= i < m ==> {
                        &&& (#[trigger] self.modules@[i]).1@.shaped()
                        &&& self.modules@[i].1@.fresh() == self.modules@[i].1@
                        &&& self.modules@[i].1.template.resource_name@ == self.modules@[i].0@
                    },
            decreases self.modules.len() - m,
        {
            let module: &Module = &self.modules[m].1;
            if !module.is_shaped() || !module.is_fresh() || !same_text(
                module.template.resource_name.as_str(),
                self.modules[m].0.as_str(),
            ) {
                return false;
            }
            m += 1;
        }
        let mut k: usize = 0;
        while k < self.icon_indexes.len()
            invariant
                k <= self.icon_indexes.len(),
                forall|i: int| 0 <= i < k ==> (#[trigger] self.icon_indexes@[i]).1 < self.icons@.len(),
            decreases self.icon_indexes.len() - k,
        {
            if self.icon_indexes[k].1 >= self.icons.len() {
                return false;
            }
            k += 1;
        }
        let mut p: usize = 0;
        while p < self.patch_paths.len()
            invariant
                p <= self.patch_paths.len(),
                forall|i: int| 0 <= i < p ==> (#[trigger] self.patch_paths@[i]).1 < self.patches@.len(),
            decreases self.patch_paths.len() - p,
        {
            if self.patch_paths[p].1 >= self.patches.len() {
                return false;
            }
            p += 1;
        }
        true
    }

    /// A registry with nothing in it.
    pub fn new() -> (registry: Registry)
        ensures
            registry.wf(),
            registry.modules@.len() == 0,
            registry.scripts@.len() == 0,
            registry.icon_indexes@.len() == 0,
            registry.icons@.len() == 0,
            registry.patches@.len() == 0,
            registry.patch_paths@.len() == 0,
    {
        Registry {
            modules: Vec::new(),
            scripts: Vec::new(),
            icon_indexes: Vec::new(),
            icons: Vec::new(),
            patches: Vec::new(),
            patch_paths: Vec::new(),
        }
    }

    /// The module prototype filed under `id`.
    pub fn borrow_module(&self, id: &str) -> (module: Option<&Module>)
        ensures
            module is Some <==> self.knows_module(id@),
            module matches Some(m) ==> m@ == self.prototype(id@),
    {
        match find_key(&self.modules, id) {
            Some(at) => Some(&self.modules[at].1),
            None => None,
        }
    }

    /// All module prototypes, in the order they were filed.
    pub fn iterate_over_modules(&self) -> (modules: Vec<&Module>)
        ensures
            modules@.len() == self.modules@.len(),
            forall|i: int| 0 <= i < modules@.len() ==> *modules@[i] == self.modules@[i].1,
    {
        let mut modules: Vec<&Module> = Vec::new();
        let mut i: usize = 0;
        while i < self.modules.len()
            invariant
                i <= self.modules.len(),
                modules@.len() == i,
                forall|j: int| 0 <= j < i ==> *modules@[j] == self.modules@[j].1,
            decreases self.modules.len() - i,
        {
            modules.push(&self.modules[i].1);
            i += 1;
        }
        modules
    }

    /// All scripts, each with the name it is filed under.
    pub fn borrow_scripts(&self) -> (scripts: &Vec<(String, String)>)
        ensures
            *scripts == self.scripts,
    {
        &self.scripts
    }

    /// The place of the icon filed under `name`.
    pub fn lookup_icon(&self, name: &str) -> (icon: Option<usize>)
        ensures
            icon == self.icon_named(name@),
    {
        match find_key(&self.icon_indexes, name) {
            Some(at) => Some(self.icon_indexes[at].1),
            None => None,
        }
    }

    /// Number of icons.
    pub fn get_num_icons(&self) -> (n: usize)
        ensures
            n == self.icons@.len(),
    {
        self.icons.len()
    }

    /// The image data of the icon at `index`.
    pub fn borrow_icon_data(&self, index: usize) -> (data: &[u8])
        requires
            index < self.icons@.len(),
        ensures
            data@ == self.icons@[index as int]@,
    {
        self.icons[index].as_slice()
    }

    /// The place of the patch filed under `name`.
    pub fn get_patch_by_name(&self, name: &str) -> (patch: Option<usize>)
        ensures
            patch == self.patch_named(name@),
    {
        match find_key(&self.patch_paths, name) {
            Some(at) => Some(self.patch_paths[at].1),
            None => None,
        }
    }

    /// The patch at `place`.
    pub fn borrow_patch(&self, place: usize) -> (patch: &Patch)
        requires
            place < self.patches@.len(),
        ensures
            *patch == self.patches@[place as int],
    {
        &self.patches[place]
    }

    /// Adds an empty patch that can be written to, and returns its place.
    pub fn create_new_user_patch(&mut self) -> (place: usize)
        requires
            old(self).wf(),
        ensures
            final(self).wf(),
            place == old(self).patches@.len(),
            final(self).patches@.len() == place + 1,
            forall|i: int| 0 <= i < place ==> final(self).patches@[i] == old(self).patches@[i],
            final(self).patches@[place as int]@ == Patch::blank(),
            final(self).modules == old(self).modules,
            final(self).scripts == old(self).scripts,
            final(self).icon_indexes == old(self).icon_indexes,
            final(self).icons == old(self).icons,
            final(self).patch_paths == old(self).patch_paths,
    {
        let place: usize = self.patches.len();
        self.patches.push(Patch::writable());
        place
    }
}

/// What a file of a library is, by its name.
#[derive(Clone, Copy, Debug, PartialEq, Eq, Structural)]
pub enum FileKind {
    Directory,
    Icon,
    Module,
    Script,
    Document,
    Patch,
    Other,
}

/// What a file called `name` is.
pub open spec fn kind_of(name: Seq<char>) -> FileKind {
    if is_suffix(name, "/"@) {
        FileKind::Directory
    } else if is_suffix(name, ".icon.svg"@) {
        FileKind::Icon
    } else if is_suffix(name, ".module.yaml"@) {
        FileKind::Module
    } else if is_suffix(name, ".ns"@) {
        FileKind::Script
    } else if is_suffix(name, ".md"@) {
        FileKind::Document
    } else if is_suffix(name, ".abpatch"@) {
        FileKind::Patch
    } else {
        FileKind::Other
    }
}

/// Tells what a file is by its name.
pub fn classify(name: &str) -> (kind: FileKind)
    ensures
        kind == kind_of(name@),
{
    if ends_with(name, "/") {
        FileKind::Directory
    } else if ends_with(name, ".icon.svg") {
        FileKind::Icon
    } else if ends_with(name, ".module.yaml") {
        FileKind::Module
    } else if ends_with(name, ".ns") {
        FileKind::Script
    } else if ends_with(name, ".md") {
        FileKind::Document
    } else if ends_with(name, ".abpatch") {
        FileKind::Patch
    } else {
        FileKind::Other
    }
}

/// Where the last part of a path begins: after its last slash.
pub open spec fn stem_start(path: Seq<char>) -> int {
    match last_place_of(path, '/') {
        Some(at) => at + 1,
        None => 0,
    }
}

/// Where the extension of a path begins: where `extension` stands last in
/// it, or at its end if it stands nowhere.
pub open spec fn stem_end(path: Seq<char>, extension: Seq<char>) -> int {
    match last_stand(path, extension) {
        Some(at) => at,
        None => path.len() as int,
    }
}

/// The last part of a path without its extension: what stands between the
/// last slash and the extension. Nothing, if the extension begins before the
/// last slash ends.
pub open spec fn stem_of(path: Seq<char>, extension: Seq<char>) -> Seq<char> {
    if stem_start(path) <= stem_end(path, extension) {
        path.subrange(stem_start(path), stem_end(path, extension))
    } else {
        Seq::empty()
    }
}

/// A name within a library: the library's name, a colon, the name.
pub open spec fn qualified(lib_name: Seq<char>, name: Seq<char>) -> Seq<char> {
    lib_name + seq![':'] + name
}

/// A name within a library.
pub fn qualify(lib_name: &str, name: &str) -> (full: String)
    ensures
        full@ == qualified(lib_name@, name@),
{
    let mut full: String = lib_name.to_owned();
    full.append(":");
    full.append(name);
    proof {
        reveal_strlit(":");
        assert(":"@ =~= seq![':']);
    }
    full
}

/// Why a library could not be loaded.
#[derive(Debug)]
pub enum LibraryError {
    /// The bytes hold a directory entry that places its file beyond what
    /// four bytes can say. Such archives are not read.
    UnsupportedArchive,
    /// The bytes hold no archive.
    NotAnArchive { reason: String },
    /// The entry at this place cannot be opened, or its data cannot be read.
    UnreadableEntry { index: usize },
    /// The file is no text. `reason` is what the standard library says of
    /// its bytes.
    NotUtf8 { name: String, reason: String },
    /// The file is no descriptor.
    Unparsable { name: String, fault: TextError },
    /// The descriptor is at fault.
    Descriptor { name: String, error: DescriptorError },
    /// The file is no patch.
    BadPatch { name: String },
    /// Nothing is known to do with the file.
    UnrecognizedFile { name: String },
}

/// The entry can be opened and, unless it is a directory, read.
pub open spec fn readable(entry: Option<Entry>) -> bool {
    entry matches Some(e) && (kind_of(e.name) == FileKind::Directory || e.data is Some)
}

/// The first `n` entries are all readable.
pub open spec fn all_readable(entries: Seq<Option<Entry>>, n: int) -> bool {
    forall|i: int| 0 <= i < n ==> readable(#[trigger] entries[i])
}

/// Entry `at` is the first that is not readable.
pub open spec fn is_first_unreadable(entries: Seq<Option<Entry>>, at: int) -> bool {
    0 <= at < entries.len() && !readable(entries[at]) && all_readable(entries, at)
}

/// The entry is an icon.
pub open spec fn is_icon(entry: Option<Entry>) -> bool {
    entry matches Some(e) && kind_of(e.name) == FileKind::Icon
}

/// The names that the icons among the first `n` entries are filed under, in
/// order.
pub open spec fn icon_ids(entries: Seq<Option<Entry>>, lib_name: Seq<char>, n: nat) -> Seq<Seq<char>>
    decreases n,
{
    if n == 0 {
        Seq::empty()
    } else if is_icon(entries[n - 1]) {
        icon_ids(entries, lib_name, (n - 1) as nat).push(
            qualified(lib_name, stem_of(entries[n - 1]->0.name, ".icon.svg"@)),
        )
    } else {
        icon_ids(entries, lib_name, (n - 1) as nat)
    }
}

/// The data of the icons among the first `n` entries, in order.
pub open spec fn icon_data(entries: Seq<Option<Entry>>, n: nat) -> Seq<Seq<u8>>
    decreases n,
{
    if n == 0 {
        Seq::empty()
    } else if is_icon(entries[n - 1]) {
        icon_data(entries, (n - 1) as nat).push(entries[n - 1]->0.data->0)
    } else {
        icon_data(entries, (n - 1) as nat)
    }
}

/// Where the icon called `name` is found after icons with the names `ids`
/// were filed, the first of them at place `base`: at the last of them that
/// is called so, or where it was found before.
pub open spec fn place_after(before: Option<usize>, ids: Seq<Seq<char>>, base: nat, name: Seq<char>) -> Option<
    usize,
>
    decreases ids.len(),
{
    if ids.len() == 0 {
        before
    } else if ids.last() == name {
        Some((base + ids.len() - 1) as usize)
    } else {
        place_after(before, ids.drop_last(), base, name)
    }
}

/// The images of a sequence, each as bytes.
pub open spec fn image_views(icons: Seq<Vec<u8>>) -> Seq<Seq<u8>> {
    Seq::new(icons.len(), |i: int| icons[i]@)
}

impl Registry {
    /// The last part of a path without its extension.
    pub fn strip_path_and_extension<'a>(full_path: &'a str, extension: &str) -> (stem: &'a str)
        ensures
            stem@ == stem_of(full_path@, extension@),
    {
        let len: usize = full_path.unicode_len();
        let start: usize = match last_index_of(full_path, '/') {
            Some(at) => at + 1,
            None => 0,
        };
        let end: usize = match find_last(full_path, extension) {
            Some(at) => at,
            None => len,
        };
        if start <= end {
            full_path.substring_char(start, end)
        } else {
            full_path.substring_char(0, 0)
        }
    }

    /// Files an icon under a name.
    pub fn insert_icon(&mut self, icon_id: String, data: Vec<u8>)
        requires
            old(self).wf(),
        ensures
            final(self).wf(),
            final(self).icons@ == old(self).icons@.push(data),
            forall|name: Seq<char>|
                #![trigger final(self).icon_named(name)]
                final(self).icon_named(name) == if name == icon_id@ {
                    Some(old(self).icons@.len() as usize)
                } else {
                    old(self).icon_named(name)
                },
            final(self).modules == old(self).modules,
            final(self).scripts == old(self).scripts,
            final(self).patches == old(self).patches,
            final(self).patch_paths == old(self).patch_paths,
    {
        let place: usize = self.icons.len();
        let ghost before = self.icon_indexes@;
        let at: usize = put_key(&mut self.icon_indexes, icon_id, place);
        self.icons.push(data);
        proof {
            let after = self.icon_indexes@;
            assert forall|i: int| 0 <= i < after.len() implies (#[trigger] after[i]).1 < self.icons@.len() by {
                if i != at {
                    assert(before[i].1 < old(self).icons@.len());
                }
            }
            assert forall|name: Seq<char>| #![trigger self.icon_named(name)] self.icon_named(name) == if name
                == icon_id@ {
                Some(old(self).icons@.len() as usize)
            } else {
                old(self).icon_named(name)
            } by {
                assert(has_key(after, name) <==> (name == icon_id@ || has_key(before, name)));
                if has_key(after, name) {
                    assert(value_at(after, name) == if name == icon_id@ {
                        place
                    } else {
                        value_at(before, name)
                    });
                }
            }
        }
    }

    /// Files a script under the name of its file.
    pub fn load_script_resource(&mut self, name: &str, buffer: Vec<u8>) -> (result: Result<(), LibraryError>)
        requires
            old(self).wf(),
        ensures
            final(self).wf(),
            result is Ok <==> valid_utf8(buffer@),
            match result {
                Ok(_) => {
                    &&& has_key(final(self).scripts@, name@)
                    &&& value_at(final(self).scripts@, name@)@ == decode_utf8(buffer@)
                    &&& forall|other: Seq<char>|
                        other != name@ ==> (has_key(final(self).scripts@, other) <==> has_key(
                            old(self).scripts@,
                            other,
                        ))
                    &&& forall|other: Seq<char>|
                        other != name@ && has_key(old(self).scripts@, other) ==> #[trigger] value_at(
                            final(self).scripts@,
                            other,
                        ) == value_at(old(self).scripts@, other)
                },
                Err(error) => error matches LibraryError::NotUtf8 { name: at, .. } && at@ == name@ && final(self).scripts
                    == old(self).scripts,
            },
            final(self).modules == old(self).modules,
            final(self).icons == old(self).icons,
            final(self).icon_indexes == old(self).icon_indexes,
            final(self).patches == old(self).patches,
            final(self).patch_paths == old(self).patch_paths,
    {
        let buffer_as_text: String = match text_from_utf8(buffer) {
            Ok(text) => text,
            Err(error) => {
                return Err(LibraryError::NotUtf8 { name: name.to_owned(), reason: utf8_error_text(&error) });
            },
        };
        proof {
            vstd::utf8::encode_utf8_decode_utf8(buffer_as_text@);
        }
        let ghost before = self.scripts@;
        put_key(&mut self.scripts, name.to_owned(), buffer_as_text);
        proof {
            assert(has_key(self.scripts@, name@));
            assert forall|other: Seq<char>| other != name@ implies (has_key(self.scripts@, other) <==> has_key(
                before,
                other,
            )) by {}
        }
        Ok(())
    }

    /// Makes the prototype a descriptor describes and files it under
    /// `module_id`. `name` is what the descriptor's file is called.
    pub fn load_module_resource(&mut self, name: &str, module_id: &str, yaml: &YamlNode) -> (result: Result<
        (),
        LibraryError,
    >)
        requires
            old(self).wf(),
        ensures
            final(self).wf(),
            result is Ok <==> prototype_fault(*yaml, old(self).icon_indexes@) is None,
            match result {
                Ok(_) => {
                    &&& final(self).knows_module(module_id@)
                    &&& describes(
                        value_at(final(self).modules@, module_id@),
                        *yaml,
                        old(self).icon_indexes@,
                        module_id@,
                    )
                    &&& forall|other: Seq<char>|
                        other != module_id@ ==> (final(self).knows_module(other) <==> old(self).knows_module(other))
                    &&& forall|other: Seq<char>|
                        other != module_id@ && old(self).knows_module(other) ==> #[trigger] value_at(
                            final(self).modules@,
                            other,
                        ) == value_at(old(self).modules@, other)
                },
                Err(error) => {
                    &&& error matches LibraryError::Descriptor { name: at, error: fault }
                    &&& at@ == name@
                    &&& prototype_fault(*yaml, old(self).icon_indexes@) == Some(fault@)
                    &&& final(self).modules == old(self).modules
                },
            },
            final(self).scripts == old(self).scripts,
            final(self).icons == old(self).icons,
            final(self).icon_indexes == old(self).icon_indexes,
            final(self).patches == old(self).patches,
            final(self).patch_paths == old(self).patch_paths,
    {
        let module: Module = match create_module_prototype_from_yaml(&self.icon_indexes, module_id.to_owned(), yaml) {
            Ok(module) => module,
            Err(error) => {
                return Err(LibraryError::Descriptor { name: name.to_owned(), error });
            },
        };
        let ghost before = self.modules@;
        let at: usize = put_key(&mut self.modules, module_id.to_owned(), module);
        proof {
            let after = self.modules@;
            assert forall|i: int| 0 <= i < after.len() implies {
                &&& (#[trigger] after[i]).1@.shaped()
                &&& after[i].1@.fresh() == after[i].1@
                &&& after[i].1.template.resource_name@ == after[i].0@
            } by {
                if i != at {
                    assert(before[i].1@.shaped());
                }
            }
            assert(has_key(after, module_id@));
            assert forall|other: Seq<char>| other != module_id@ implies (has_key(after, other) <==> has_key(
                before,
                other,
            )) by {}
            assert forall|other: Seq<char>| other != module_id@ && has_key(before, other) implies #[trigger] value_at(
                after,
                other,
            ) == value_at(before, other) by {
                assert(has_key(after, other));
            }
        }
        Ok(())
    }

    /// Files a patch that may not be written to under the name of its file.
    pub fn load_patch_resource(&mut self, name: &str, buffer: &[u8]) -> (result: Result<(), LibraryError>)
        requires
            old(self).wf(),
        ensures
            final(self).wf(),
            result is Ok <==> patch_from_bytes(buffer@) is Some,
            match result {
                Ok(_) => {
                    &&& final(self).patches@.len() == old(self).patches@.len() + 1
                    &&& forall|i: int|
                        0 <= i < old(self).patches@.len() ==> final(self).patches@[i] == old(self).patches@[i]
                    &&& final(self).patches@[old(self).patches@.len() as int]@ == (PatchView {
                        name: (patch_from_bytes(buffer@)->0).0,
                        writable: false,
                        note_graph: (patch_from_bytes(buffer@)->0).1,
                    })
                    &&& final(self).patch_named(name@) == Some(old(self).patches@.len() as usize)
                    &&& forall|other: Seq<char>|
                        other != name@ ==> #[trigger] final(self).patch_named(other) == old(self).patch_named(other)
                },
                Err(error) => {
                    &&& error matches LibraryError::BadPatch { name: at }
                    &&& at@ == name@
                    &&& final(self).patches == old(self).patches
                    &&& final(self).patch_paths == old(self).patch_paths
                },
            },
            final(self).modules == old(self).modules,
            final(self).scripts == old(self).scripts,
            final(self).icons == old(self).icons,
            final(self).icon_indexes == old(self).icon_indexes,
    {
        let mut patch: Patch = Patch::writable();
        match patch.load_from_serialized_data(buffer) {
            Ok(_) => {},
            Err(_) => {
                return Err(LibraryError::BadPatch { name: name.to_owned() });
            },
        }
        patch.writable = false;
        let place: usize = self.patches.len();
        let ghost before = self.patch_paths@;
        let at: usize = put_key(&mut self.patch_paths, name.to_owned(), place);
        self.patches.push(patch);
        proof {
            let after = self.patch_paths@;
            assert forall|i: int| 0 <= i < after.len() implies (#[trigger] after[i]).1 < self.patches@.len() by {
                if i != at {
                    assert(before[i].1 < old(self).patches@.len());
                }
            }
            assert(has_key(after, name@));
            assert(value_at(after, name@) == place);
            assert forall|other: Seq<char>| other != name@ implies #[trigger] self.patch_named(other) == old(
                self,
            ).patch_named(other) by {
                assert(has_key(after, other) <==> has_key(before, other));
                if has_key(after, other) {
                    assert(value_at(after, other) == value_at(before, other));
                }
            }
        }
        Ok(())
    }
}

impl Registry {
    /// Files every icon of an archive, in the order of the archive's
    /// directory. Stops at the first entry that cannot be opened or read.
    pub fn load_icons(&mut self, lib_name: &str, archive: &mut ZipArchive<Cursor<Vec<u8>>>) -> (result: Result<
        (),
        LibraryError,
    >)
        requires
            old(self).wf(),
        ensures
            final(self).wf(),
            archive_entries(*final(archive)) == archive_entries(*old(archive)),
            result is Ok <==> all_readable(
                archive_entries(*old(archive)),
                archive_entries(*old(archive)).len() as int,
            ),
            match result {
                Ok(_) => {
                    &&& image_views(final(self).icons@) == image_views(old(self).icons@) + icon_data(
                        archive_entries(*old(archive)),
                        archive_entries(*old(archive)).len(),
                    )
                    &&& forall|name: Seq<char>|
                        #![trigger final(self).icon_named(name)]
                        final(self).icon_named(name) == place_after(
                            old(self).icon_named(name),
                            icon_ids(archive_entries(*old(archive)), lib_name@, archive_entries(*old(archive)).len()),
                            old(self).icons@.len(),
                            name,
                        )
                },
                Err(error) => error matches LibraryError::UnreadableEntry { index } && is_first_unreadable(
                    archive_entries(*old(archive)),
                    index as int,
                ),
            },
            final(self).modules == old(self).modules,
            final(self).scripts == old(self).scripts,
            final(self).patches == old(self).patches,
            final(self).patch_paths == old(self).patch_paths,
    {
        let ghost entries = archive_entries(*archive);
        let ghost base = self.icons@.len();
        let n: usize = archive_len(archive);
        let mut index: usize = 0;
        assert(image_views(self.icons@) =~= image_views(old(self).icons@) + icon_data(entries, 0));
        while index < n
            invariant
                index <= n,
                n == entries.len(),
                entries == archive_entries(*archive),
                entries == archive_entries(*old(archive)),
                base == old(self).icons@.len(),
                self.wf(),
                all_readable(entries, index as int),
                image_views(self.icons@) == image_views(old(self).icons@) + icon_data(entries, index as nat),
                self.icons@.len() == base + icon_ids(entries, lib_name@, index as nat).len(),
                forall|name: Seq<char>|
                    #![trigger self.icon_named(name)]
                    self.icon_named(name) == place_after(
                        old(self).icon_named(name),
                        icon_ids(entries, lib_name@, index as nat),
                        base,
                        name,
                    ),
                self.modules == old(self).modules,
                self.scripts == old(self).scripts,
                self.patches == old(self).patches,
                self.patch_paths == old(self).patch_paths,
            decreases n - index,
        {
            let name: String = match entry_name(archive, index) {
                Some(name) => name,
                None => {
                    return Err(LibraryError::UnreadableEntry { index });
                },
            };
            let kind: FileKind = classify(name.as_str());
            if kind != FileKind::Directory {
                let data: Vec<u8> = match entry_data(archive, index) {
                    Some(data) => data,
                    None => {
                        return Err(LibraryError::UnreadableEntry { index });
                    },
                };
                if kind == FileKind::Icon {
                    let file_name: &str = Self::strip_path_and_extension(name.as_str(), ".icon.svg");
                    let icon_id: String = qualify(lib_name, file_name);
                    let ghost icons_before = self.icons@;
                    let ghost ids_before = icon_ids(entries, lib_name@, index as nat);
                    let ghost data_before = data@;
                    proof {
                        assert(entries[index as int]->0.data->0 == data@);
                    }
                    self.insert_icon(icon_id, data);
                    proof {
                        let ids_after = icon_ids(entries, lib_name@, (index + 1) as nat);
                        assert(is_icon(entries[index as int]));
                        assert(ids_after == ids_before.push(icon_id@));
                        assert(ids_after.drop_last() =~= ids_before);
                        assert(icon_data(entries, (index + 1) as nat) == icon_data(entries, index as nat).push(
                            data_before,
                        ));
                        assert(image_views(self.icons@) =~= image_views(icons_before).push(data_before));
                        assert(image_views(self.icons@) =~= image_views(old(self).icons@) + icon_data(
                            entries,
                            (index + 1) as nat,
                        ));
                    }
                }
            }
            index += 1;
        }
        Ok(())
    }

    /// Files everything but the icons of an archive: module prototypes,
    /// scripts and patches, in the order of the archive's directory.
    /// Documents, icons and directories are passed over. Stops at the first
    /// entry that cannot be read, is not what its name says, or is a file
    /// that nothing is known to do with; what the entries before it brought
    /// stays filed.
    ///
    /// `read_number` is asked of every value in a descriptor what number it
    /// reads as. Whether a descriptor that reads as a tree describes a
    /// prototype depends on its answers; everything else the entries alone
    /// decide.
    pub fn load_resources<F: Fn(&String) -> Option<Scalar>>(
        &mut self,
        lib_name: &str,
        archive: &mut ZipArchive<Cursor<Vec<u8>>>,
        read_number: &F,
    ) -> (result: Result<(), LibraryError>)
        requires
            old(self).wf(),
            forall|v: &String| read_number.requires((v,)),
        ensures
            final(self).wf(),
            archive_entries(*final(archive)) == archive_entries(*old(archive)),
            final(self).icons == old(self).icons,
            final(self).icon_indexes == old(self).icon_indexes,
            none_at_fault(archive_entries(*old(archive)), archive_entries(*old(archive)).len() as int) && no_modules(
                archive_entries(*old(archive)),
            ) ==> result is Ok,
            match result {
                Ok(_) => {
                    &&& none_at_fault(archive_entries(*old(archive)), archive_entries(*old(archive)).len() as int)
                    &&& filed(
                        *old(self),
                        *final(self),
                        archive_entries(*old(archive)),
                        lib_name@,
                        old(self).icon_indexes@,
                        *read_number,
                        archive_entries(*old(archive)).len(),
                    )
                },
                Err(error) => exists|at: int|
                    {
                        &&& #[trigger] stops_at(
                            archive_entries(*old(archive)),
                            lib_name@,
                            old(self).icon_indexes@,
                            *read_number,
                            at,
                            error,
                        )
                        &&& filed(
                            *old(self),
                            *final(self),
                            archive_entries(*old(archive)),
                            lib_name@,
                            old(self).icon_indexes@,
                            *read_number,
                            at as nat,
                        )
                    },
            },
    {
        let ghost entries = archive_entries(*archive);
        let ghost icons = self.icon_indexes@;
        let n: usize = archive_len(archive);
        let mut index: usize = 0;
        while index < n
            invariant
                index <= n,
                n == entries.len(),
                entries == archive_entries(*archive),
                entries == archive_entries(*old(archive)),
                icons == old(self).icon_indexes@,
                self.wf(),
                forall|v: &String| read_number.requires((v,)),
                none_at_fault(entries, index as int),
                filed(*old(self), *self, entries, lib_name@, icons, *read_number, index as nat),
                self.icons == old(self).icons,
                self.icon_indexes == old(self).icon_indexes,
            decreases n - index,
        {
            let ghost mid = *self;
            let file_name: String = match entry_name(archive, index) {
                Some(name) => name,
                None => {
                    let error = LibraryError::UnreadableEntry { index };
                    assert(stops_at(entries, lib_name@, icons, *read_number, index as int, error));
                    return Err(error);
                },
            };
            let kind: FileKind = classify(file_name.as_str());
            if kind != FileKind::Directory {
                let name: String = qualify(lib_name, file_name.as_str());
                let buffer: Vec<u8> = match entry_data(archive, index) {
                    Some(data) => data,
                    None => {
                        let error = LibraryError::UnreadableEntry { index };
                        assert(stops_at(entries, lib_name@, icons, *read_number, index as int, error));
                        return Err(error);
                    },
                };
                let ghost data = buffer@;
                assert(entries[index as int]->0.data == Some(data));
                match kind {
                    FileKind::Module => {
                        let stem: &str = Self::strip_path_and_extension(file_name.as_str(), ".module.yaml");
                        let module_id: String = qualify(lib_name, stem);
                        let text: String = match text_from_utf8(buffer) {
                            Ok(text) => text,
                            Err(cause) => {
                                let error = LibraryError::NotUtf8 { name, reason: utf8_error_text(&cause) };
                                assert(stops_at(entries, lib_name@, icons, *read_number, index as int, error));
                                return Err(error);
                            },
                        };
                        proof {
                            vstd::utf8::encode_utf8_decode_utf8(text@);
                        }
                        let yaml: YamlNode = match parse_yaml(text.as_str(), name.as_str(), read_number) {
                            Ok(yaml) => yaml,
                            Err(fault) => {
                                let error = LibraryError::Unparsable { name, fault };
                                assert(stops_at(entries, lib_name@, icons, *read_number, index as int, error));
                                return Err(error);
                            },
                        };
                        assert(is_tree_of(yaml, decode_utf8(data), name@, *read_number));
                        assert(entry_fault(entries[index as int]) is None);
                        match self.load_module_resource(name.as_str(), module_id.as_str(), &yaml) {
                            Ok(_) => {},
                            Err(error) => {
                                proof {
                                    assert(is_faulty_tree(
                                        yaml,
                                        entries[index as int]->0,
                                        lib_name@,
                                        icons,
                                        *read_number,
                                        error,
                                    ));
                                    assert(stops_at(entries, lib_name@, icons, *read_number, index as int, error));
                                }
                                return Err(error);
                            },
                        }
                        proof {
                            assert(module_id@ == entry_key(entries[index as int]->0, lib_name@));
                            assert forall|other: Seq<char>| other != module_id@ implies (has_key(
                                self.modules@,
                                other,
                            ) <==> has_key(mid.modules@, other)) by {
                                assert(self.knows_module(other) <==> mid.knows_module(other));
                            }
                            assert(is_filed_module(
                                value_at(self.modules@, module_id@),
                                yaml,
                                entries[index as int]->0,
                                lib_name@,
                                icons,
                                *read_number,
                            ));
                            lemma_module_filed(
                                old(self).modules@,
                                mid.modules@,
                                self.modules@,
                                entries,
                                lib_name@,
                                icons,
                                *read_number,
                                index as nat,
                                yaml,
                            );
                            lemma_scripts_kept(old(self).scripts@, self.scripts@, entries, lib_name@, index as nat);
                            lemma_patches_kept(
                                old(self).patches@,
                                old(self).patch_paths@,
                                self.patches@,
                                self.patch_paths@,
                                entries,
                                lib_name@,
                                index as nat,
                            );
                        }
                    },
                    FileKind::Script => {
                        match self.load_script_resource(name.as_str(), buffer) {
                            Ok(_) => {},
                            Err(error) => {
                                assert(stops_at(entries, lib_name@, icons, *read_number, index as int, error));
                                return Err(error);
                            },
                        }
                        proof {
                            lemma_modules_kept(
                                old(self).modules@,
                                self.modules@,
                                entries,
                                lib_name@,
                                icons,
                                *read_number,
                                index as nat,
                            );
                            lemma_script_filed(
                                old(self).scripts@,
                                mid.scripts@,
                                self.scripts@,
                                entries,
                                lib_name@,
                                index as nat,
                            );
                            lemma_patches_kept(
                                old(self).patches@,
                                old(self).patch_paths@,
                                self.patches@,
                                self.patch_paths@,
                                entries,
                                lib_name@,
                                index as nat,
                            );
                        }
                    },
                    FileKind::Patch => {
                        match self.load_patch_resource(name.as_str(), buffer.as_slice()) {
                            Ok(_) => {},
                            Err(error) => {
                                assert(stops_at(entries, lib_name@, icons, *read_number, index as int, error));
                                return Err(error);
                            },
                        }
                        proof {
                            lemma_modules_kept(
                                old(self).modules@,
                                self.modules@,
                                entries,
                                lib_name@,
                                icons,
                                *read_number,
                                index as nat,
                            );
                            lemma_scripts_kept(old(self).scripts@, self.scripts@, entries, lib_name@, index as nat);
                            assert forall|other: Seq<char>|
                                other != name@ implies #[trigger] place_named(self.patch_paths@, other)
                                == place_named(mid.patch_paths@, other) by {
                                assert(self.patch_named(other) == mid.patch_named(other));
                            }
                            assert(self.patch_named(name@) == place_named(self.patch_paths@, name@));
                            lemma_patch_filed(
                                old(self).patches@,
                                old(self).patch_paths@,
                                mid.patches@,
                                mid.patch_paths@,
                                self.patches@,
                                self.patch_paths@,
                                entries,
                                lib_name@,
                                index as nat,
                            );
                        }
                    },
                    FileKind::Other => {
                        let error = LibraryError::UnrecognizedFile { name };
                        assert(stops_at(entries, lib_name@, icons, *read_number, index as int, error));
                        return Err(error);
                    },
                    _ => {
                        proof {
                            lemma_modules_kept(
                                old(self).modules@,
                                self.modules@,
                                entries,
                                lib_name@,
                                icons,
                                *read_number,
                                index as nat,
                            );
                            lemma_scripts_kept(old(self).scripts@, self.scripts@, entries, lib_name@, index as nat);
                            lemma_patches_kept(
                                old(self).patches@,
                                old(self).patch_paths@,
                                self.patches@,
                                self.patch_paths@,
                                entries,
                                lib_name@,
                                index as nat,
                            );
                        }
                    },
                }
            } else {
                proof {
                    lemma_modules_kept(
                        old(self).modules@,
                        self.modules@,
                        entries,
                        lib_name@,
                        icons,
                        *read_number,
                        index as nat,
                    );
                    lemma_scripts_kept(old(self).scripts@, self.scripts@, entries, lib_name@, index as nat);
                    lemma_patches_kept(
                                old(self).patches@,
                                old(self).patch_paths@,
                                self.patches@,
                                self.patch_paths@,
                                entries,
                                lib_name@,
                                index as nat,
                            );
                }
            }
            assert(entry_fault(entries[index as int]) is None);
            index += 1;
        }
        Ok(())
    }

    /// Loads the library that `bytes` hold as a zip archive: first all its
    /// icons, since modules refer to them, then everything else.
    ///
    /// Bytes that are refused, or hold no archive, leave the registry as it
    /// is. An entry that cannot be read is found while the icons are filed,
    /// before anything else is looked into. After that loading stops at the
    /// first entry at fault, and what came before it stays filed.
    ///
    /// `read_number` is asked of every value in a descriptor what number it
    /// reads as.
    pub fn load_library<F: Fn(&String) -> Option<Scalar>>(
        &mut self,
        lib_name: &str,
        bytes: Vec<u8>,
        read_number: &F,
    ) -> (result: Result<(), LibraryError>)
        requires
            old(self).wf(),
            forall|v: &String| read_number.requires((v,)),
        ensures
            final(self).wf(),
            result matches Err(LibraryError::UnsupportedArchive) <==> !near(bytes@),
            result matches Err(LibraryError::NotAnArchive { .. }) <==> near(bytes@) && unzipped(bytes@) is None,
            !near(bytes@) || unzipped(bytes@) is None ==> *final(self) == *old(self),
            unzipped(bytes@) matches Some(entries) ==> (near(bytes@) ==> if !all_readable(
                entries,
                entries.len() as int,
            ) {
                &&& result matches Err(LibraryError::UnreadableEntry { index })
                &&& is_first_unreadable(entries, index as int)
                &&& final(self).modules == old(self).modules
                &&& final(self).scripts == old(self).scripts
                &&& final(self).patches == old(self).patches
                &&& final(self).patch_paths == old(self).patch_paths
            } else {
                &&& image_views(final(self).icons@) == image_views(old(self).icons@) + icon_data(
                    entries,
                    entries.len(),
                )
                &&& forall|name: Seq<char>|
                    #![trigger final(self).icon_named(name)]
                    final(self).icon_named(name) == place_after(
                        old(self).icon_named(name),
                        icon_ids(entries, lib_name@, entries.len()),
                        old(self).icons@.len(),
                        name,
                    )
                &&& none_at_fault(entries, entries.len() as int) && no_modules(entries) ==> result is Ok
                &&& match result {
                    Ok(_) => {
                        &&& none_at_fault(entries, entries.len() as int)
                        &&& filed(
                            *old(self),
                            *final(self),
                            entries,
                            lib_name@,
                            final(self).icon_indexes@,
                            *read_number,
                            entries.len(),
                        )
                    },
                    Err(error) => exists|at: int|
                        {
                            &&& #[trigger] stops_at(
                                entries,
                                lib_name@,
                                final(self).icon_indexes@,
                                *read_number,
                                at,
                                error,
                            )
                            &&& filed(
                                *old(self),
                                *final(self),
                                entries,
                                lib_name@,
                                final(self).icon_indexes@,
                                *read_number,
                                at as nat,
                            )
                        },
                }
            }),
    {
        if !is_near(&bytes) {
            return Err(LibraryError::UnsupportedArchive);
        }
        let mut archive: ZipArchive<Cursor<Vec<u8>>> = match open_archive(bytes) {
            Ok(archive) => archive,
            Err(error) => {
                return Err(LibraryError::NotAnArchive { reason: zip_error_text(&error) });
            },
        };
        let ghost entries = archive_entries(archive);
        match self.load_icons(lib_name, &mut archive) {
            Ok(_) => {},
            Err(error) => {
                return Err(error);
            },
        }
        let ghost with_icons = *self;
        let result: Result<(), LibraryError> = self.load_resources(lib_name, &mut archive, read_number);
        proof {
            assert forall|name: Seq<char>| #![trigger self.icon_named(name)] self.icon_named(name) == place_after(
                old(self).icon_named(name),
                icon_ids(entries, lib_name@, entries.len()),
                old(self).icons@.len(),
                name,
            ) by {
                assert(self.icon_named(name) == with_icons.icon_named(name));
            }
            if result is Err {
                let error = result->Err_0;
                {
                    let at = choose|at: int|
                        {
                            &&& #[trigger] stops_at(entries, lib_name@, with_icons.icon_indexes@, *read_number, at, error)
                            &&& filed(
                                with_icons,
                                *self,
                                entries,
                                lib_name@,
                                with_icons.icon_indexes@,
                                *read_number,
                                at as nat,
                            )
                        };
                    assert(stops_at(entries, lib_name@, self.icon_indexes@, *read_number, at, error));
                    assert(filed(*old(self), *self, entries, lib_name@, self.icon_indexes@, *read_number, at as nat));
                    assert(entry_fault(entries[at]) != Some(EntryFault::Unreadable));
                }
            }
        }
        result
    }
}

} // verus!
