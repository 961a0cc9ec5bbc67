//! What is known of a library before its content is loaded: its description,
//! and a way to get at its files.

use crate::registry::archive::{
    archive_entries,
    archive_len,
    entry_data,
    entry_name,
    is_near,
    near,
    open_archive,
    unzipped,
    Entry,
};
use crate::registry::prototype::{first_of, text_fault};
use crate::registry::storage::{text_from_utf8, utf8_error_text};
use crate::registry::yaml::{count_named, DescriptorError, Fault, Problem, YamlNode};
use crate::registry::yaml_text::{is_tree_of, parse_yaml, text_outline, TextError};
use crate::scalar::Scalar;
use crate::registry::{classify, kind_of, zip_error_text, FileKind, LibraryError};
use crate::text::{all_digits, digits_value, parse_digits, same_text};
use std::io::Cursor;
use vstd::prelude::*;
use vstd::string::*;
use vstd::utf8::{decode_utf8, encode_utf8, valid_utf8};
use zip::read::ZipArchive;

verus! {

/// The version of a library or of the engine.
#[derive(Clone, Copy, Debug, PartialEq, Eq, Structural)]
pub struct Version {
    pub major: u16,
    pub minor: u16,
    pub patch: u16,
}

/// Where `b` stands first in `s` at or after `from`; the length of `s` if it
/// does not.
pub open spec fn first_byte_at(s: Seq<u8>, b: u8, from: int) -> int
    decreases s.len() - from,
{
    if from < 0 || from >= s.len() {
        s.len() as int
    } else if s[from] == b {
        from
    } else {
        first_byte_at(s, b, from + 1)
    }
}

proof fn lemma_first_byte_skips(s: Seq<u8>, b: u8, from: int, to: int)
    requires
        0 <= from <= to <= s.len(),
        forall|k: int| from <= k < to ==> s[k] != b,
    ensures
        first_byte_at(s, b, from) == first_byte_at(s, b, to),
    decreases to - from,
{
    if from < to {
        lemma_first_byte_skips(s, b, from + 1, to);
    }
}

fn find_byte(bytes: &[u8], b: u8, from: usize) -> (at: usize)
    requires
        from <= bytes@.len(),
    ensures
        at == first_byte_at(bytes@, b, from as int),
        from <= at <= bytes@.len(),
{
    let mut at: usize = from;
    while at < bytes.len() && bytes[at] != b
        invariant
            from <= at <= bytes@.len(),
            forall|k: int| from <= k < at ==> bytes@[k] != b,
        decreases bytes.len() - at,
    {
        at += 1;
    }
    proof {
        lemma_first_byte_skips(bytes@, b, from as int, at as int);
    }
    at
}

/// The number that part `s[from..to]` of a version writes, if it writes one.
pub open spec fn version_part(s: Seq<u8>, from: int, to: int) -> Option<u16> {
    if 0 <= from <= to <= s.len() && all_digits(s.subrange(from, to)) && digits_value(s.subrange(from, to))
        <= u16::MAX {
        Some(digits_value(s.subrange(from, to)) as u16)
    } else {
        None
    }
}

/// The version that `s` writes as three numbers with points between them, if
/// it writes one.
pub open spec fn version_of(s: Seq<u8>) -> Option<Version> {
    let first = first_byte_at(s, 0x2E, 0);
    let second = first_byte_at(s, 0x2E, first + 1);
    if first < s.len() && second < s.len() && version_part(s, 0, first) is Some && version_part(
        s,
        first + 1,
        second,
    ) is Some && version_part(s, second + 1, s.len() as int) is Some {
        Some(
            Version {
                major: version_part(s, 0, first)->0,
                minor: version_part(s, first + 1, second)->0,
                patch: version_part(s, second + 1, s.len() as int)->0,
            },
        )
    } else {
        None
    }
}

fn parse_part(bytes: &[u8], from: usize, to: usize) -> (part: Option<u16>)
    requires
        from <= to <= bytes@.len(),
    ensures
        part == version_part(bytes@, from as int, to as int),
{
    match parse_digits(bytes, from, to, 0xFFFF) {
        Some(v) => Some(v as u16),
        None => None,
    }
}

impl Version {
    pub fn new(major: u16, minor: u16, patch: u16) -> (version: Version)
        ensures
            version == (Version { major, minor, patch }),
    {
        Version { major, minor, patch }
    }

    /// Reads a version written as three numbers with points between them.
    pub fn parse(text: &str) -> (version: Option<Version>)
        ensures
            version == version_of(text.spec_bytes()),
    {
        let bytes: &[u8] = text.as_bytes();
        let len: usize = bytes.len();
        let first: usize = find_byte(bytes, 0x2E, 0);
        if first >= len {
            return None;
        }
        let second: usize = find_byte(bytes, 0x2E, first + 1);
        if second >= len {
            return None;
        }
        let major: u16 = match parse_part(bytes, 0, first) {
            Some(v) => v,
            None => {
                return None;
            },
        };
        let minor: u16 = match parse_part(bytes, first + 1, second) {
            Some(v) => v,
            None => {
                return None;
            },
        };
        let patch: u16 = match parse_part(bytes, second + 1, len) {
            Some(v) => v,
            None => {
                return None;
            },
        };
        Some(Version { major, minor, patch })
    }
}

/// What a library says of itself.
#[derive(Debug)]
pub struct LibraryInfo {
    pub internal_name: String,
    pub pretty_name: String,
    pub description: String,
    pub version: Version,
    pub dependencies: Vec<(String, Version)>,
}

/// The version a node's value writes.
pub open spec fn node_version(node: YamlNode) -> Option<Version> {
    version_of(encode_utf8(node.value@))
}

/// What is wrong with a node that is to hold a version.
pub open spec fn version_fault(node: YamlNode) -> Option<Fault> {
    if node_version(node) is None {
        Some(Fault { problem: Problem::NotAVersion, at: node.full_name@, what: node.value@ })
    } else {
        None
    }
}

/// What is wrong first with the first `n` entries of a list of dependencies.
pub open spec fn dependencies_fault(entries: Seq<YamlNode>, n: nat) -> Option<Fault>
    decreases n,
{
    if n == 0 {
        None
    } else {
        first_of(dependencies_fault(entries, (n - 1) as nat), version_fault(entries[n - 1]))
    }
}

proof fn lemma_dependencies_fault_stays(entries: Seq<YamlNode>, n: nat, m: nat)
    requires
        n <= m,
        dependencies_fault(entries, n) is Some,
    ensures
        dependencies_fault(entries, m) == dependencies_fault(entries, n),
    decreases m,
{
    if n < m {
        lemma_dependencies_fault_stays(entries, n, (m - 1) as nat);
    }
}

/// The entries of a library's list of dependencies; none if it has no list.
pub open spec fn dependency_entries(yaml: YamlNode) -> Seq<YamlNode> {
    if yaml.has_unique("dependencies"@) {
        yaml.child("dependencies"@).children@
    } else {
        Seq::empty()
    }
}

/// The library need not say that it depends on the factory library: it is
/// the factory library, or the user's own.
pub open spec fn is_base_library(internal_name: Seq<char>) -> bool {
    internal_name == "User"@ || internal_name == "Factory"@
}

/// What is wrong first with what a library says of itself.
pub open spec fn library_info_fault(yaml: YamlNode) -> Option<Fault> {
    first_of(
        text_fault(yaml, "internal_name"@),
        first_of(
            text_fault(yaml, "pretty_name"@),
            first_of(
                text_fault(yaml, "description"@),
                first_of(
                    text_fault(yaml, "version"@),
                    first_of(
                        version_fault(yaml.child("version"@)),
                        first_of(
                            dependencies_fault(dependency_entries(yaml), dependency_entries(yaml).len()),
                            if count_named(dependency_entries(yaml), "Factory"@) > 0 || is_base_library(
                                yaml.child("internal_name"@).value@,
                            ) {
                                None
                            } else {
                                Some(
                                    Fault {
                                        problem: Problem::MissingFactoryDependency,
                                        at: yaml.full_name@,
                                        what: yaml.child("internal_name"@).value@,
                                    },
                                )
                            },
                        ),
                    ),
                ),
            ),
        ),
    )
}

/// The dependencies of a sequence, each as a value.
pub open spec fn dependency_views(dependencies: Seq<(String, Version)>) -> Seq<(Seq<char>, Version)> {
    Seq::new(dependencies.len(), |i: int| (dependencies[i].0@, dependencies[i].1))
}

/// `info` is what the library's description says.
pub open spec fn info_of(info: LibraryInfo, yaml: YamlNode) -> bool {
    &&& info.internal_name@ == yaml.child("internal_name"@).value@
    &&& info.pretty_name@ == yaml.child("pretty_name"@).value@
    &&& info.description@ == yaml.child("description"@).value@
    &&& Some(info.version) == node_version(yaml.child("version"@))
    &&& dependency_views(info.dependencies@) == Seq::new(
        dependency_entries(yaml).len(),
        |i: int| (dependency_entries(yaml)[i].name@, node_version(dependency_entries(yaml)[i])->0),
    )
}

fn read_version(node: &YamlNode) -> (read: Result<Version, DescriptorError>)
    ensures
        match read {
            Ok(version) => version_fault(*node) is None && node_version(*node) == Some(version),
            Err(error) => version_fault(*node) == Some(error@),
        },
{
    match Version::parse(node.value.as_str()) {
        Some(version) => Ok(version),
        None => Err(DescriptorError::create(Problem::NotAVersion, node.full_name.as_str(), node.value.as_str())),
    }
}

fn read_dependencies(entries: &Vec<YamlNode>) -> (read: Result<(Vec<(String, Version)>, bool), DescriptorError>)
    ensures
        match read {
            Ok((dependencies, on_factory)) => {
                &&& dependencies_fault(entries@, entries@.len()) is None
                &&& dependency_views(dependencies@) == Seq::new(
                    entries@.len(),
                    |i: int| (entries@[i].name@, node_version(entries@[i])->0),
                )
                &&& on_factory == (count_named(entries@, "Factory"@) > 0)
            },
            Err(error) => dependencies_fault(entries@, entries@.len()) == Some(error@),
        },
{
    let mut dependencies: Vec<(String, Version)> = Vec::new();
    let mut on_factory: bool = false;
    let mut i: usize = 0;
    assert(entries@.subrange(0, 0) =~= Seq::<YamlNode>::empty());
    while i < entries.len()
        invariant
            i <= entries.len(),
            dependencies@.len() == i,
            dependencies_fault(entries@, i as nat) is None,
            on_factory == (count_named(entries@.subrange(0, i as int), "Factory"@) > 0),
            forall|j: int|
                0 <= j < i ==> (#[trigger] dependencies@[j]).0@ == entries@[j].name@ && Some(dependencies@[j].1)
                    == node_version(entries@[j]),
        decreases entries.len() - i,
    {
        proof {
            let upto = entries@.subrange(0, i + 1);
            assert(upto.drop_last() =~= entries@.subrange(0, i as int));
            assert(upto.last() == entries@[i as int]);
        }
        let version: Version = match read_version(&entries[i]) {
            Ok(version) => version,
            Err(error) => {
                proof {
                    assert(dependencies_fault(entries@, (i + 1) as nat) == Some(error@));
                    lemma_dependencies_fault_stays(entries@, (i + 1) as nat, entries@.len());
                }
                return Err(error);
            },
        };
        if same_text(entries[i].name.as_str(), "Factory") {
            on_factory = true;
        }
        dependencies.push((entries[i].name.clone(), version));
        i += 1;
    }
    assert(entries@.subrange(0, entries@.len() as int) =~= entries@);
    assert(dependency_views(dependencies@) =~= Seq::new(
        entries@.len(),
        |i: int| (entries@[i].name@, node_version(entries@[i])->0),
    ));
    Ok((dependencies, on_factory))
}

/// Reads what a library says of itself from its description.
pub fn parse_library_info(yaml: &YamlNode) -> (read: Result<LibraryInfo, DescriptorError>)
    ensures
        match read {
            Ok(info) => library_info_fault(*yaml) is None && info_of(info, *yaml),
            Err(error) => library_info_fault(*yaml) == Some(error@),
        },
{
    let internal_name: String = match yaml.unique_child("internal_name") {
        Ok(node) => node.value.clone(),
        Err(error) => {
            return Err(error);
        },
    };
    let pretty_name: String = match yaml.unique_child("pretty_name") {
        Ok(node) => node.value.clone(),
        Err(error) => {
            return Err(error);
        },
    };
    let description: String = match yaml.unique_child("description") {
        Ok(node) => node.value.clone(),
        Err(error) => {
            return Err(error);
        },
    };
    let version: Version = match yaml.unique_child("version") {
        Ok(node) => match read_version(node) {
            Ok(version) => version,
            Err(error) => {
                return Err(error);
            },
        },
        Err(error) => {
            return Err(error);
        },
    };
    let (dependencies, on_factory) = match yaml.unique_child("dependencies") {
        Ok(child) => match read_dependencies(&child.children) {
            Ok(read) => read,
            Err(error) => {
                return Err(error);
            },
        },
        Err(_) => {
            let none: Vec<(String, Version)> = Vec::new();
            assert(dependency_views(none@) =~= Seq::new(
                dependency_entries(*yaml).len(),
                |i: int| (dependency_entries(*yaml)[i].name@, node_version(dependency_entries(*yaml)[i])->0),
            ));
            (none, false)
        },
    };
    if !on_factory && !same_text(internal_name.as_str(), "User") && !same_text(internal_name.as_str(), "Factory") {
        return Err(
            DescriptorError::create(
                Problem::MissingFactoryDependency,
                yaml.full_name.as_str(),
                internal_name.as_str(),
            ),
        );
    }
    Ok(LibraryInfo { internal_name, pretty_name, description, version, dependencies })
}

/// A way to get at the files of a library. Libraries in zip files are
/// provided for here; a host can provide for others.
///
/// A provider whose files are a matter of the provider alone says so by
/// being `settled`: it then has its files' names and data as `names` and
/// `data`, and its methods give what these say. Of a provider that is not
/// settled, as one that reads from disk, nothing is known.
pub trait LibraryContentProvider: Sized {
    /// The provider's files are a matter of the provider alone.
    open spec fn settled(&self) -> bool {
        false
    }

    /// The names of the files of a settled provider.
    open spec fn names(&self) -> Seq<Seq<char>> {
        Seq::empty()
    }

    /// The data of the files of a settled provider; `None` for a file that
    /// cannot be read.
    open spec fn data(&self) -> Seq<Option<Seq<u8>>> {
        Seq::empty()
    }

    /// Number of files.
    fn get_num_files(&self) -> (n: usize)
        ensures
            self.settled() ==> n == self.names().len() && n == self.data().len(),
    ;

    /// The name of the file at `index`, if there is one.
    fn get_file_name(&mut self, index: usize) -> (name: Option<String>)
        ensures
            old(self).settled() ==> {
                &&& final(self).settled()
                &&& final(self).names() == old(self).names()
                &&& final(self).data() == old(self).data()
                &&& match name {
                    Some(text) => index < old(self).names().len() && text@ == old(self).names()[index as int],
                    None => index >= old(self).names().len(),
                }
            },
    ;

    /// Where on disk the file at `index` is, if it is on disk.
    fn get_full_path(&mut self, index: usize) -> (path: Option<String>)
        ensures
            old(self).settled() ==> {
                &&& final(self).settled()
                &&& final(self).names() == old(self).names()
                &&& final(self).data() == old(self).data()
            },
    ;

    /// The content of the file at `index`.
    fn read_file_contents(&mut self, index: usize) -> (content: Result<Vec<u8>, LibraryError>)
        ensures
            old(self).settled() ==> {
                &&& final(self).settled()
                &&& final(self).names() == old(self).names()
                &&& final(self).data() == old(self).data()
                &&& match content {
                    Ok(bytes) => index < old(self).data().len() && old(self).data()[index as int] == Some(bytes@),
                    Err(_) => index >= old(self).data().len() || old(self).data()[index as int] is None,
                }
            },
    ;
}

/// The places of the files among the first `n` entries of an archive: of
/// the entries that are no directories.
pub open spec fn file_places(entries: Seq<Option<Entry>>, n: nat) -> Seq<usize>
    decreases n,
{
    if n == 0 {
        Seq::empty()
    } else if kind_of(entries[n - 1]->0.name) == FileKind::Directory {
        file_places(entries, (n - 1) as nat)
    } else {
        file_places(entries, (n - 1) as nat).push((n - 1) as usize)
    }
}

/// Every entry of the archive can be opened.
pub open spec fn all_open(entries: Seq<Option<Entry>>, n: int) -> bool {
    forall|i: int| 0 <= i < n ==> (#[trigger] entries[i]) is Some
}

/// Entry `at` is the first that cannot be opened.
pub open spec fn is_first_closed(entries: Seq<Option<Entry>>, at: int) -> bool {
    0 <= at < entries.len() && entries[at] is None && all_open(entries, at)
}

/// Allows loading a library from a zip file.
pub struct ZippedLibraryContentProvider {
    pub archive: ZipArchive<Cursor<Vec<u8>>>,
    pub non_directory_files: Vec<usize>,
}

impl ZippedLibraryContentProvider {
    /// The entries of the archive.
    pub open spec fn entries(&self) -> Seq<Option<Entry>> {
        archive_entries(self.archive)
    }

    /// Opens the archive that `bytes` hold and lists its files.
    pub fn new(bytes: Vec<u8>) -> (made: Result<Self, LibraryError>)
        ensures
            made is Ok <==> near(bytes@) && unzipped(bytes@) is Some && all_open(
                unzipped(bytes@)->0,
                unzipped(bytes@)->0.len() as int,
            ),
            match made {
                Ok(provider) => {
                    &&& unzipped(bytes@) == Some(provider.entries())
                    &&& provider.valid()
                },
                Err(LibraryError::UnsupportedArchive) => !near(bytes@),
                Err(LibraryError::NotAnArchive { .. }) => near(bytes@) && unzipped(bytes@) is None,
                Err(LibraryError::UnreadableEntry { index }) => unzipped(bytes@) matches Some(entries)
                    && is_first_closed(entries, index as int),
                Err(_) => false,
            },
    {
        let ghost raw = bytes@;
        if !is_near(&bytes) {
            return Err(LibraryError::UnsupportedArchive);
        }
        let mut archive: ZipArchive<Cursor<Vec<u8>>> = match open_archive(bytes) {
            Ok(archive) => archive,
            Err(error) => {
                return Err(LibraryError::NotAnArchive { reason: zip_error_text(&error) });
            },
        };
        let ghost entries = archive_entries(archive);
        let n: usize = archive_len(&archive);
        let mut non_directory_files: Vec<usize> = Vec::new();
        let mut index: usize = 0;
        while index < n
            invariant
                index <= n,
                n == entries.len(),
                raw == bytes@,
                unzipped(raw) == Some(entries),
                entries == archive_entries(archive),
                all_open(entries, index as int),
                non_directory_files@ == file_places(entries, index as nat),
            decreases n - index,
        {
            let name: String = match entry_name(&mut archive, index) {
                Some(name) => name,
                None => {
                    return Err(LibraryError::UnreadableEntry { index });
                },
            };
            if classify(name.as_str()) != FileKind::Directory {
                non_directory_files.push(index);
            }
            index += 1;
        }
        Ok(Self { archive, non_directory_files })
    }
}

proof fn lemma_file_places(entries: Seq<Option<Entry>>, n: nat)
    requires
        n <= entries.len(),
        n <= usize::MAX,
    ensures
        forall|k: int|
            0 <= k < file_places(entries, n).len() ==> (#[trigger] file_places(entries, n)[k]) < n,
    decreases n,
{
    if n > 0 {
        lemma_file_places(entries, (n - 1) as nat);
        let before = file_places(entries, (n - 1) as nat);
        let now = file_places(entries, n);
        assert forall|k: int| 0 <= k < now.len() implies (#[trigger] now[k]) < n by {
            if k < before.len() {
                assert(now[k] == before[k]);
            }
        }
    }
}

impl ZippedLibraryContentProvider {
    /// The archive's entries all open, and the provider lists those that are
    /// no directories.
    pub open spec fn valid(&self) -> bool {
        &&& self.entries().len() <= usize::MAX
        &&& all_open(self.entries(), self.entries().len() as int)
        &&& self.non_directory_files@ == file_places(self.entries(), self.entries().len())
    }

    /// The names of the provider's files.
    pub open spec fn file_names(&self) -> Seq<Seq<char>> {
        Seq::new(
            self.non_directory_files@.len(),
            |i: int| self.entries()[self.non_directory_files@[i] as int]->0.name,
        )
    }

    /// The data of the provider's files; `None` for one that cannot be read.
    pub open spec fn file_data(&self) -> Seq<Option<Seq<u8>>> {
        Seq::new(
            self.non_directory_files@.len(),
            |i: int| self.entries()[self.non_directory_files@[i] as int]->0.data,
        )
    }
}

/// A library whose description has been read.
pub struct PreloadedLibrary<P: LibraryContentProvider> {
    pub content: P,
    pub info: LibraryInfo,
}

/// The name of the file in which a library says what it is.
pub open spec fn info_file_name() -> Seq<char> {
    "library_info.yaml"@
}

/// File `at` is the first that is called what a library's description is
/// called.
pub open spec fn is_info_file(names: Seq<Seq<char>>, at: int) -> bool {
    &&& 0 <= at < names.len()
    &&& names[at] == info_file_name()
    &&& forall|j: int| 0 <= j < at ==> #[trigger] names[j] != info_file_name()
}

/// Why a library could not be preloaded.
#[derive(Debug)]
pub enum PreloadError {
    /// The library has no description.
    MissingLibraryInfo,
    /// The description could not be read.
    Unreadable(LibraryError),
    /// The description is no text. With it comes what the standard library
    /// says of its bytes.
    NotUtf8(String),
    /// The description is no descriptor.
    Unparsable(TextError),
    /// The description is at fault.
    Invalid(DescriptorError),
}

/// `info` is what the description with this text says, read as the tree
/// `yaml`, which is not at fault.
pub open spec fn is_info_from<F: Fn(&String) -> Option<Scalar>>(
    info: LibraryInfo,
    yaml: YamlNode,
    text: Seq<char>,
    read_number: F,
) -> bool {
    &&& is_tree_of(yaml, text, info_file_name(), read_number)
    &&& library_info_fault(yaml) is None
    &&& info_of(info, yaml)
}

/// `fault` is what is wrong first with the description with this text, read
/// as the tree `yaml`.
pub open spec fn is_fault_of<F: Fn(&String) -> Option<Scalar>>(
    fault: Fault,
    yaml: YamlNode,
    text: Seq<char>,
    read_number: F,
) -> bool {
    &&& is_tree_of(yaml, text, info_file_name(), read_number)
    &&& library_info_fault(yaml) == Some(fault)
}

/// `info` is what the description with this text says, read as some tree
/// that is not at fault.
pub open spec fn is_read_info<F: Fn(&String) -> Option<Scalar>>(
    info: LibraryInfo,
    text: Seq<char>,
    read_number: F,
) -> bool {
    exists|yaml: YamlNode| is_info_from(info, yaml, text, read_number)
}

/// `fault` is what is wrong first with the description with this text, read
/// as some tree.
pub open spec fn is_read_fault<F: Fn(&String) -> Option<Scalar>>(
    fault: Fault,
    text: Seq<char>,
    read_number: F,
) -> bool {
    exists|yaml: YamlNode| is_fault_of(fault, yaml, text, read_number)
}

/// `result` is what reading a library's description from `bytes` gives.
/// Bytes that are no text are refused, then a text that reads as no tree,
/// with what is wrong first in it. Otherwise the text is read as some tree,
/// beside whose values stands what `read_number` made of them, and the
/// result is what that tree says: the library's description, or what is
/// wrong first with the tree.
pub open spec fn is_reading<F: Fn(&String) -> Option<Scalar>>(
    bytes: Seq<u8>,
    read_number: F,
    result: Result<LibraryInfo, PreloadError>,
) -> bool {
    if !valid_utf8(bytes) {
        result matches Err(PreloadError::NotUtf8(_))
    } else {
        match text_outline(decode_utf8(bytes)) {
            Err(fault) => result matches Err(PreloadError::Unparsable(error)) && error == fault,
            Ok(_) => match result {
                Ok(info) => is_read_info(info, decode_utf8(bytes), read_number),
                Err(PreloadError::Invalid(error)) => is_read_fault(error@, decode_utf8(bytes), read_number),
                Err(_) => false,
            },
        }
    }
}

/// What preloading gave, as what reading the description gave.
pub open spec fn reading_of<P: LibraryContentProvider>(result: Result<PreloadedLibrary<P>, PreloadError>) -> Result<
    LibraryInfo,
    PreloadError,
> {
    match result {
        Ok(library) => Ok(library.info),
        Err(error) => Err(error),
    }
}

/// Reads a library's description from the bytes of its file.
///
/// `read_number` is asked of every value in the description what number it
/// reads as.
pub fn read_library_info<F: Fn(&String) -> Option<Scalar>>(buffer: Vec<u8>, read_number: &F) -> (result:
    Result<LibraryInfo, PreloadError>)
    requires
        forall|v: &String| read_number.requires((v,)),
    ensures
        is_reading(buffer@, *read_number, result),
{
    let ghost bytes = buffer@;
    let text: String = match text_from_utf8(buffer) {
        Ok(text) => text,
        Err(error) => {
            return Err(PreloadError::NotUtf8(utf8_error_text(&error)));
        },
    };
    proof {
        vstd::utf8::encode_utf8_decode_utf8(text@);
        reveal_strlit("library_info.yaml");
    }
    let yaml: YamlNode = match parse_yaml(text.as_str(), "library_info.yaml", read_number) {
        Ok(yaml) => yaml,
        Err(error) => {
            return Err(PreloadError::Unparsable(error));
        },
    };
    match parse_library_info(&yaml) {
        Ok(info) => {
            assert(is_info_from(info, yaml, decode_utf8(bytes), *read_number));
            Ok(info)
        },
        Err(error) => {
            assert(is_fault_of(error@, yaml, decode_utf8(bytes), *read_number));
            Err(PreloadError::Invalid(error))
        },
    }
}

impl LibraryContentProvider for ZippedLibraryContentProvider {
    open spec fn settled(&self) -> bool {
        self.valid()
    }

    open spec fn names(&self) -> Seq<Seq<char>> {
        self.file_names()
    }

    open spec fn data(&self) -> Seq<Option<Seq<u8>>> {
        self.file_data()
    }

    fn get_num_files(&self) -> (n: usize)
        ensures
            n == self.file_names().len(),
    {
        self.non_directory_files.len()
    }

    fn get_file_name(&mut self, index: usize) -> (name: Option<String>)
        ensures
            final(self).entries() == old(self).entries(),
            final(self).non_directory_files == old(self).non_directory_files,
    {
        if index >= self.non_directory_files.len() {
            return None;
        }
        proof {
            if self.valid() {
                lemma_file_places(self.entries(), self.entries().len());
            }
        }
        entry_name(&mut self.archive, self.non_directory_files[index])
    }

    fn get_full_path(&mut self, index: usize) -> (path: Option<String>)
        ensures
            path is None,
            *final(self) == *old(self),
    {
        None
    }

    fn read_file_contents(&mut self, index: usize) -> (content: Result<Vec<u8>, LibraryError>)
        ensures
            final(self).entries() == old(self).entries(),
            final(self).non_directory_files == old(self).non_directory_files,
    {
        if index >= self.non_directory_files.len() {
            return Err(LibraryError::UnreadableEntry { index });
        }
        proof {
            if self.valid() {
                lemma_file_places(self.entries(), self.entries().len());
            }
        }
        let place: usize = self.non_directory_files[index];
        match entry_data(&mut self.archive, place) {
            Some(data) => Ok(data),
            None => Err(LibraryError::UnreadableEntry { index: place }),
        }
    }
}

/// Finds a library's description among its files and reads it. The files are
/// looked through in the provider's order; the first that is called what a
/// description is called is read.
///
/// Whatever the provider, a description that was found and could be read was
/// read from some bytes as `is_reading` says. Of a settled provider more is
/// known: which file is read, and that the provider comes back with the same
/// files.
///
/// `read_number` is asked of every value in the description what number it
/// reads as.
pub fn preload_library<P: LibraryContentProvider, F: Fn(&String) -> Option<Scalar>>(
    provider: P,
    read_number: &F,
) -> (result: Result<PreloadedLibrary<P>, PreloadError>)
    requires
        forall|v: &String| read_number.requires((v,)),
    ensures
        match result {
            Err(PreloadError::MissingLibraryInfo) => true,
            Err(PreloadError::Unreadable(_)) => true,
            _ => exists|bytes: Seq<u8>| is_reading(bytes, *read_number, reading_of(result)),
        },
        provider.settled() ==> {
            &&& (result matches Err(PreloadError::MissingLibraryInfo)) <==> !exists|at: int|
                is_info_file(provider.names(), at)
            &&& forall|at: int|
                #[trigger] is_info_file(provider.names(), at) ==> match provider.data()[at] {
                    None => result matches Err(PreloadError::Unreadable(_)),
                    Some(bytes) => is_reading(bytes, *read_number, reading_of(result)),
                }
            &&& result matches Ok(library) ==> {
                &&& library.content.settled()
                &&& library.content.names() == provider.names()
                &&& library.content.data() == provider.data()
            }
        },
{
    let ghost names = provider.names();
    let mut content: P = provider;
    let n: usize = content.get_num_files();
    let mut index: usize = 0;
    while index < n
        invariant
            forall|v: &String| read_number.requires((v,)),
            provider.settled() ==> {
                &&& content.settled()
                &&& content.names() == provider.names()
                &&& content.data() == provider.data()
                &&& n == names.len()
                &&& n == provider.data().len()
                &&& index <= n
                &&& forall|j: int| 0 <= j < index ==> #[trigger] names[j] != info_file_name()
            },
            names == provider.names(),
        decreases n - index,
    {
        let found: bool = match content.get_file_name(index) {
            Some(name) => same_text(name.as_str(), "library_info.yaml"),
            None => false,
        };
        if found {
            proof {
                if provider.settled() {
                    assert(is_info_file(names, index as int));
                    assert forall|at: int| #[trigger] is_info_file(names, at) implies at == index by {
                        if at < index {
                            assert(names[at] != info_file_name());
                        } else if at > index {
                            assert(names[index as int] != info_file_name());
                        }
                    }
                }
            }
            let buffer: Vec<u8> = match content.read_file_contents(index) {
                Ok(buffer) => buffer,
                Err(error) => {
                    return Err(PreloadError::Unreadable(error));
                },
            };
            let ghost bytes = buffer@;
            let info: LibraryInfo = match read_library_info(buffer, read_number) {
                Ok(info) => info,
                Err(error) => {
                    assert(is_reading(bytes, *read_number, Err(error)));
                    return Err(error);
                },
            };
            assert(is_reading(bytes, *read_number, Ok(info)));
            return Ok(PreloadedLibrary { content, info });
        }
        index += 1;
    }
    proof {
        if provider.settled() {
            assert(!exists|at: int| is_info_file(names, at)) by {
                if exists|at: int| is_info_file(names, at) {
                    let at = choose|at: int| is_info_file(names, at);
                    assert(names[at] != info_file_name());
                }
            }
        }
    }
    Err(PreloadError::MissingLibraryInfo)
}

/// Finds the description of a library in a zip file among its files and
/// reads it.
pub fn preload_zipped_library<F: Fn(&String) -> Option<Scalar>>(
    provider: ZippedLibraryContentProvider,
    read_number: &F,
) -> (result: Result<PreloadedLibrary<ZippedLibraryContentProvider>, PreloadError>)
    requires
        provider.valid(),
        forall|v: &String| read_number.requires((v,)),
    ensures
        result matches Err(PreloadError::MissingLibraryInfo) <==> !exists|at: int|
            is_info_file(provider.file_names(), at),
        forall|at: int|
            #[trigger] is_info_file(provider.file_names(), at) ==> match provider.file_data()[at] {
                None => result matches Err(PreloadError::Unreadable(_)),
                Some(bytes) => is_reading(bytes, *read_number, reading_of(result)),
            },
        result matches Ok(library) ==> {
            &&& library.content.valid()
            &&& library.content.file_names() == provider.file_names()
            &&& library.content.file_data() == provider.file_data()
        },
{
    let result = preload_library(provider, read_number);
    proof {
        assert(provider.settled());
        assert(provider.names() == provider.file_names());
        assert(provider.data() == provider.file_data());
    }
    result
}

} // verus!
