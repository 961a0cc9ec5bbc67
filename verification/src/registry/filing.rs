//! What loading a library files, and where it stops: stated over the entries
//! of the library's archive.

use crate::engine::parts::Module;
use crate::registry::archive::Entry;
use crate::registry::prototype::{describes, prototype_fault};
use crate::registry::save_data::{patch_from_bytes, Patch, PatchView};
use crate::registry::yaml::YamlNode;
use crate::registry::yaml_text::{is_tree_of, text_outline, TextError};
use crate::registry::{has_key, kind_of, qualified, readable, stem_of, value_at, FileKind, LibraryError, Registry};
use crate::scalar::Scalar;
use vstd::prelude::*;
use vstd::utf8::{decode_utf8, valid_utf8};

verus! {

/// What is wrong with an entry, as far as the entry alone decides it.
pub enum EntryFault {
    /// It cannot be opened, or its data cannot be read.
    Unreadable,
    /// It should be text and is none.
    NotUtf8,
    /// It should be a descriptor, and its text reads as none.
    Unparsable(TextError),
    /// It should be a patch, and its bytes hold none.
    BadPatch,
    /// Nothing is known to do with it.
    Unrecognized,
}

/// What is wrong with an entry, as far as the entry alone decides it. An
/// entry is read before it is looked into; a descriptor has to be text before
/// its text is read.
pub open spec fn entry_fault(entry: Option<Entry>) -> Option<EntryFault> {
    if !readable(entry) {
        Some(EntryFault::Unreadable)
    } else {
        match kind_of(entry->0.name) {
            FileKind::Module => if !valid_utf8(entry->0.data->0) {
                Some(EntryFault::NotUtf8)
            } else {
                match text_outline(decode_utf8(entry->0.data->0)) {
                    Err(fault) => Some(EntryFault::Unparsable(fault)),
                    Ok(_) => None,
                }
            },
            FileKind::Script => if !valid_utf8(entry->0.data->0) {
                Some(EntryFault::NotUtf8)
            } else {
                None
            },
            FileKind::Patch => if patch_from_bytes(entry->0.data->0) is None {
                Some(EntryFault::BadPatch)
            } else {
                None
            },
            FileKind::Other => Some(EntryFault::Unrecognized),
            _ => None,
        }
    }
}

/// The entry is a file of this kind.
pub open spec fn is_kind(entry: Option<Entry>, kind: FileKind) -> bool {
    entry matches Some(e) && kind_of(e.name) == kind
}

/// What an entry is filed under: a module under the name of its library and
/// the last part of its path without the extension, anything else under the
/// name of its library and its whole path.
pub open spec fn entry_key(entry: Entry, lib_name: Seq<char>) -> Seq<char> {
    if kind_of(entry.name) == FileKind::Module {
        qualified(lib_name, stem_of(entry.name, ".module.yaml"@))
    } else {
        qualified(lib_name, entry.name)
    }
}

/// The last of the first `n` entries that is of this kind and filed under
/// `key`.
pub open spec fn last_of_kind(
    entries: Seq<Option<Entry>>,
    lib_name: Seq<char>,
    kind: FileKind,
    n: nat,
    key: Seq<char>,
) -> Option<int>
    decreases n,
{
    if n == 0 {
        None
    } else if is_kind(entries[n - 1], kind) && entry_key(entries[n - 1]->0, lib_name) == key {
        Some(n - 1)
    } else {
        last_of_kind(entries, lib_name, kind, (n - 1) as nat, key)
    }
}

/// How many of the first `n` entries are patches.
pub open spec fn patches_among(entries: Seq<Option<Entry>>, n: nat) -> nat
    decreases n,
{
    if n == 0 {
        0
    } else if is_kind(entries[n - 1], FileKind::Patch) {
        patches_among(entries, (n - 1) as nat) + 1
    } else {
        patches_among(entries, (n - 1) as nat)
    }
}

/// Where the patch of entry `i` is filed when `base` patches were there
/// before: after them and after the patches of the entries before it.
pub open spec fn patch_place(base: nat, entries: Seq<Option<Entry>>, i: int) -> int {
    (base + patches_among(entries, i as nat)) as int
}

/// `module` is the prototype that the descriptor in `entry` describes, read
/// as `tree`.
pub open spec fn is_filed_module<F: Fn(&String) -> Option<Scalar>>(
    module: Module,
    tree: YamlNode,
    entry: Entry,
    lib_name: Seq<char>,
    icons: Seq<(String, usize)>,
    read_number: F,
) -> bool {
    &&& is_tree_of(tree, decode_utf8(entry.data->0), qualified(lib_name, entry.name), read_number)
    &&& prototype_fault(tree, icons) is None
    &&& describes(module, tree, icons, entry_key(entry, lib_name))
}

/// The descriptor in `entry`, read as `tree`, has this fault.
pub open spec fn is_faulty_tree<F: Fn(&String) -> Option<Scalar>>(
    tree: YamlNode,
    entry: Entry,
    lib_name: Seq<char>,
    icons: Seq<(String, usize)>,
    read_number: F,
    error: LibraryError,
) -> bool {
    &&& is_tree_of(tree, decode_utf8(entry.data->0), qualified(lib_name, entry.name), read_number)
    &&& error matches LibraryError::Descriptor { name, error: fault }
    &&& name@ == qualified(lib_name, entry.name)
    &&& prototype_fault(tree, icons) == Some(fault@)
}

/// The modules of the first `n` entries are filed: under each name that one
/// of them is filed under stands the prototype that the last of these
/// describes, and what stood under any other name still stands there.
pub open spec fn modules_filed<F: Fn(&String) -> Option<Scalar>>(
    before: Seq<(String, Module)>,
    after: Seq<(String, Module)>,
    entries: Seq<Option<Entry>>,
    lib_name: Seq<char>,
    icons: Seq<(String, usize)>,
    read_number: F,
    n: nat,
) -> bool {
    forall|id: Seq<char>|
        match #[trigger] last_of_kind(entries, lib_name, FileKind::Module, n, id) {
            Some(i) => {
                &&& has_key(after, id)
                &&& exists|tree: YamlNode|
                    is_filed_module(value_at(after, id), tree, entries[i]->0, lib_name, icons, read_number)
            },
            None => {
                &&& has_key(after, id) <==> has_key(before, id)
                &&& has_key(before, id) ==> value_at(after, id) == value_at(before, id)
            },
        }
}

/// The scripts of the first `n` entries are filed: under each name that one
/// of them is filed under stands the text of the last of these, and what
/// stood under any other name still stands there.
pub open spec fn scripts_filed(
    before: Seq<(String, String)>,
    after: Seq<(String, String)>,
    entries: Seq<Option<Entry>>,
    lib_name: Seq<char>,
    n: nat,
) -> bool {
    forall|key: Seq<char>|
        match #[trigger] last_of_kind(entries, lib_name, FileKind::Script, n, key) {
            Some(i) => {
                &&& has_key(after, key)
                &&& value_at(after, key)@ == decode_utf8(entries[i]->0.data->0)
            },
            None => {
                &&& has_key(after, key) <==> has_key(before, key)
                &&& has_key(before, key) ==> value_at(after, key) == value_at(before, key)
            },
        }
}

/// Where the name leads among the places that `paths` give.
pub open spec fn place_named(paths: Seq<(String, usize)>, name: Seq<char>) -> Option<usize> {
    if has_key(paths, name) {
        Some(value_at(paths, name))
    } else {
        None
    }
}

/// The patches of the first `n` entries are filed: they follow the patches
/// that were there, in the order of the entries, none of them writable, and
/// each name leads to the last patch filed under it.
pub open spec fn patches_filed(
    before: Seq<Patch>,
    before_paths: Seq<(String, usize)>,
    after: Seq<Patch>,
    after_paths: Seq<(String, usize)>,
    entries: Seq<Option<Entry>>,
    lib_name: Seq<char>,
    n: nat,
) -> bool {
    &&& after.len() == before.len() + patches_among(entries, n)
    &&& forall|i: int| 0 <= i < before.len() ==> after[i] == before[i]
    &&& forall|i: int|
        0 <= i < n && is_kind(entries[i], FileKind::Patch) ==> after[#[trigger] patch_place(before.len(), entries, i)]@
            == (PatchView {
            name: (patch_from_bytes(entries[i]->0.data->0)->0).0,
            writable: false,
            note_graph: (patch_from_bytes(entries[i]->0.data->0)->0).1,
        })
    &&& forall|key: Seq<char>|
        #![trigger place_named(after_paths, key)]
        place_named(after_paths, key) == match last_of_kind(entries, lib_name, FileKind::Patch, n, key) {
            Some(i) => Some(patch_place(before.len(), entries, i) as usize),
            None => place_named(before_paths, key),
        }
}

/// Everything but the icons of the first `n` entries is filed. `icons` are
/// the icons that the modules' descriptors may name.
pub open spec fn filed<F: Fn(&String) -> Option<Scalar>>(
    before: Registry,
    after: Registry,
    entries: Seq<Option<Entry>>,
    lib_name: Seq<char>,
    icons: Seq<(String, usize)>,
    read_number: F,
    n: nat,
) -> bool {
    &&& modules_filed(before.modules@, after.modules@, entries, lib_name, icons, read_number, n)
    &&& scripts_filed(before.scripts@, after.scripts@, entries, lib_name, n)
    &&& patches_filed(before.patches@, before.patch_paths@, after.patches@, after.patch_paths@, entries, lib_name, n)
}

/// None of the first `n` entries is at fault by itself.
pub open spec fn none_at_fault(entries: Seq<Option<Entry>>, n: int) -> bool {
    forall|i: int| 0 <= i < n ==> entry_fault(#[trigger] entries[i]) is None
}

/// None of the entries is a module descriptor.
pub open spec fn no_modules(entries: Seq<Option<Entry>>) -> bool {
    forall|i: int| 0 <= i < entries.len() ==> !is_kind(#[trigger] entries[i], FileKind::Module)
}

/// Loading stops at entry `at` with `error`: no entry before it is at fault
/// by itself, and `error` says what is wrong with this one. Where the entry
/// alone decides that, the error is its fault. Otherwise the entry is a
/// module whose descriptor, read as some tree, describes no prototype.
pub open spec fn stops_at<F: Fn(&String) -> Option<Scalar>>(
    entries: Seq<Option<Entry>>,
    lib_name: Seq<char>,
    icons: Seq<(String, usize)>,
    read_number: F,
    at: int,
    error: LibraryError,
) -> bool {
    &&& 0 <= at < entries.len()
    &&& none_at_fault(entries, at)
    &&& match entry_fault(entries[at]) {
        Some(EntryFault::Unreadable) => error matches LibraryError::UnreadableEntry { index } && index == at,
        Some(EntryFault::NotUtf8) => error matches LibraryError::NotUtf8 { name, .. } && name@ == qualified(
            lib_name,
            entries[at]->0.name,
        ),
        Some(EntryFault::Unparsable(fault)) => error matches LibraryError::Unparsable { name, fault: found }
            && name@ == qualified(lib_name, entries[at]->0.name) && found == fault,
        Some(EntryFault::BadPatch) => error matches LibraryError::BadPatch { name } && name@ == qualified(
            lib_name,
            entries[at]->0.name,
        ),
        Some(EntryFault::Unrecognized) => error matches LibraryError::UnrecognizedFile { name } && name@
            == qualified(lib_name, entries[at]->0.name),
        None => {
            &&& is_kind(entries[at], FileKind::Module)
            &&& exists|tree: YamlNode| is_faulty_tree(tree, entries[at]->0, lib_name, icons, read_number, error)
        },
    }
}

/// An entry that is no module leaves the modules as they are filed.
pub proof fn lemma_modules_kept<F: Fn(&String) -> Option<Scalar>>(
    before: Seq<(String, Module)>,
    after: Seq<(String, Module)>,
    entries: Seq<Option<Entry>>,
    lib_name: Seq<char>,
    icons: Seq<(String, usize)>,
    read_number: F,
    n: nat,
)
    requires
        modules_filed(before, after, entries, lib_name, icons, read_number, n),
        !is_kind(entries[n as int], FileKind::Module),
    ensures
        modules_filed(before, after, entries, lib_name, icons, read_number, n + 1),
{
    assert forall|id: Seq<char>|
        #[trigger] last_of_kind(entries, lib_name, FileKind::Module, n + 1, id) == last_of_kind(
            entries,
            lib_name,
            FileKind::Module,
            n,
            id,
        ) by {}
}

/// A module entry whose prototype was put under its name is filed.
pub proof fn lemma_module_filed<F: Fn(&String) -> Option<Scalar>>(
    before: Seq<(String, Module)>,
    mid: Seq<(String, Module)>,
    after: Seq<(String, Module)>,
    entries: Seq<Option<Entry>>,
    lib_name: Seq<char>,
    icons: Seq<(String, usize)>,
    read_number: F,
    n: nat,
    tree: YamlNode,
)
    requires
        modules_filed(before, mid, entries, lib_name, icons, read_number, n),
        is_kind(entries[n as int], FileKind::Module),
        has_key(after, entry_key(entries[n as int]->0, lib_name)),
        is_filed_module(
            value_at(after, entry_key(entries[n as int]->0, lib_name)),
            tree,
            entries[n as int]->0,
            lib_name,
            icons,
            read_number,
        ),
        forall|other: Seq<char>|
            other != entry_key(entries[n as int]->0, lib_name) ==> (has_key(after, other) <==> has_key(mid, other)),
        forall|other: Seq<char>|
            other != entry_key(entries[n as int]->0, lib_name) && has_key(mid, other) ==> #[trigger] value_at(
                after,
                other,
            ) == value_at(mid, other),
    ensures
        modules_filed(before, after, entries, lib_name, icons, read_number, n + 1),
{
    let id0 = entry_key(entries[n as int]->0, lib_name);
    assert forall|id: Seq<char>|
        match #[trigger] last_of_kind(entries, lib_name, FileKind::Module, n + 1, id) {
            Some(i) => {
                &&& has_key(after, id)
                &&& exists|tree: YamlNode|
                    is_filed_module(value_at(after, id), tree, entries[i]->0, lib_name, icons, read_number)
            },
            None => {
                &&& has_key(after, id) <==> has_key(before, id)
                &&& has_key(before, id) ==> value_at(after, id) == value_at(before, id)
            },
        } by {
        if id != id0 {
            let earlier = last_of_kind(entries, lib_name, FileKind::Module, n, id);
            assert(last_of_kind(entries, lib_name, FileKind::Module, n + 1, id) == earlier);
            if earlier is Some {
                assert(value_at(after, id) == value_at(mid, id));
            }
        }
    }
}

/// An entry that is no script leaves the scripts as they are filed.
pub proof fn lemma_scripts_kept(
    before: Seq<(String, String)>,
    after: Seq<(String, String)>,
    entries: Seq<Option<Entry>>,
    lib_name: Seq<char>,
    n: nat,
)
    requires
        scripts_filed(before, after, entries, lib_name, n),
        !is_kind(entries[n as int], FileKind::Script),
    ensures
        scripts_filed(before, after, entries, lib_name, n + 1),
{
    assert forall|key: Seq<char>|
        #[trigger] last_of_kind(entries, lib_name, FileKind::Script, n + 1, key) == last_of_kind(
            entries,
            lib_name,
            FileKind::Script,
            n,
            key,
        ) by {}
}

/// A script entry whose text was put under its name is filed.
pub proof fn lemma_script_filed(
    before: Seq<(String, String)>,
    mid: Seq<(String, String)>,
    after: Seq<(String, String)>,
    entries: Seq<Option<Entry>>,
    lib_name: Seq<char>,
    n: nat,
)
    requires
        scripts_filed(before, mid, entries, lib_name, n),
        is_kind(entries[n as int], FileKind::Script),
        has_key(after, entry_key(entries[n as int]->0, lib_name)),
        value_at(after, entry_key(entries[n as int]->0, lib_name))@ == decode_utf8(entries[n as int]->0.data->0),
        forall|other: Seq<char>|
            other != entry_key(entries[n as int]->0, lib_name) ==> (has_key(after, other) <==> has_key(mid, other)),
        forall|other: Seq<char>|
            other != entry_key(entries[n as int]->0, lib_name) && has_key(mid, other) ==> #[trigger] value_at(
                after,
                other,
            ) == value_at(mid, other),
    ensures
        scripts_filed(before, after, entries, lib_name, n + 1),
{
    let key0 = entry_key(entries[n as int]->0, lib_name);
    assert forall|key: Seq<char>|
        match #[trigger] last_of_kind(entries, lib_name, FileKind::Script, n + 1, key) {
            Some(i) => {
                &&& has_key(after, key)
                &&& value_at(after, key)@ == decode_utf8(entries[i]->0.data->0)
            },
            None => {
                &&& has_key(after, key) <==> has_key(before, key)
                &&& has_key(before, key) ==> value_at(after, key) == value_at(before, key)
            },
        } by {
        if key != key0 {
            let earlier = last_of_kind(entries, lib_name, FileKind::Script, n, key);
            assert(last_of_kind(entries, lib_name, FileKind::Script, n + 1, key) == earlier);
            if earlier is Some {
                assert(value_at(after, key) == value_at(mid, key));
            }
        }
    }
}

/// An entry that is no patch leaves the patches as they are filed.
pub proof fn lemma_patches_kept(
    before: Seq<Patch>,
    before_paths: Seq<(String, usize)>,
    after: Seq<Patch>,
    after_paths: Seq<(String, usize)>,
    entries: Seq<Option<Entry>>,
    lib_name: Seq<char>,
    n: nat,
)
    requires
        patches_filed(before, before_paths, after, after_paths, entries, lib_name, n),
        !is_kind(entries[n as int], FileKind::Patch),
    ensures
        patches_filed(before, before_paths, after, after_paths, entries, lib_name, n + 1),
{
    assert forall|key: Seq<char>|
        #[trigger] last_of_kind(entries, lib_name, FileKind::Patch, n + 1, key) == last_of_kind(
            entries,
            lib_name,
            FileKind::Patch,
            n,
            key,
        ) by {}
}

/// A patch entry whose patch was put after the others, under its name, is
/// filed.
pub proof fn lemma_patch_filed(
    before: Seq<Patch>,
    before_paths: Seq<(String, usize)>,
    mid: Seq<Patch>,
    mid_paths: Seq<(String, usize)>,
    after: Seq<Patch>,
    after_paths: Seq<(String, usize)>,
    entries: Seq<Option<Entry>>,
    lib_name: Seq<char>,
    n: nat,
)
    requires
        patches_filed(before, before_paths, mid, mid_paths, entries, lib_name, n),
        is_kind(entries[n as int], FileKind::Patch),
        after.len() == mid.len() + 1,
        forall|i: int| 0 <= i < mid.len() ==> after[i] == mid[i],
        after[mid.len() as int]@ == (PatchView {
            name: (patch_from_bytes(entries[n as int]->0.data->0)->0).0,
            writable: false,
            note_graph: (patch_from_bytes(entries[n as int]->0.data->0)->0).1,
        }),
        place_named(after_paths, entry_key(entries[n as int]->0, lib_name)) == Some(mid.len() as usize),
        forall|other: Seq<char>|
            other != entry_key(entries[n as int]->0, lib_name) ==> #[trigger] place_named(after_paths, other)
                == place_named(mid_paths, other),
    ensures
        patches_filed(before, before_paths, after, after_paths, entries, lib_name, n + 1),
{
    let key0 = entry_key(entries[n as int]->0, lib_name);
    let base = before.len();
    assert(patch_place(base, entries, n as int) == mid.len());
    assert forall|i: int| 0 <= i < n + 1 && is_kind(entries[i], FileKind::Patch) implies after[#[trigger] patch_place(
        base,
        entries,
        i,
    )]@ == (PatchView {
        name: (patch_from_bytes(entries[i]->0.data->0)->0).0,
        writable: false,
        note_graph: (patch_from_bytes(entries[i]->0.data->0)->0).1,
    }) by {
        if i < n {
            lemma_patches_among_grows(entries, i as nat, n);
            assert(patch_place(base, entries, i) < mid.len());
        }
    }
    assert forall|key: Seq<char>| #![trigger place_named(after_paths, key)] place_named(after_paths, key)
        == match last_of_kind(entries, lib_name, FileKind::Patch, n + 1, key) {
        Some(i) => Some(patch_place(base, entries, i) as usize),
        None => place_named(before_paths, key),
    } by {
        if key != key0 {
            assert(place_named(after_paths, key) == place_named(mid_paths, key));
        }
    }
}

/// A patch entry is followed by more patches than stand before it.
pub proof fn lemma_patches_among_grows(entries: Seq<Option<Entry>>, i: nat, n: nat)
    requires
        i < n,
        is_kind(entries[i as int], FileKind::Patch),
    ensures
        patches_among(entries, i) < patches_among(entries, n),
    decreases n,
{
    if n > i + 1 {
        lemma_patches_among_grows(entries, i, (n - 1) as nat);
    }
}

} // verus!
