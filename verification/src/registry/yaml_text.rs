//! The text form of descriptors.
//!
//! A descriptor is written one entry per line: a name, a colon, and a value
//! that may be empty. An entry is indented by two spaces for each entry it
//! lies within. Blank lines and lines that begin with `#` say nothing. This
//! module cuts a text into its entries; what tree they make is decided
//! elsewhere.

use crate::registry::yaml::YamlNode;
use crate::scalar::Scalar;
use vstd::prelude::*;
use vstd::string::*;

verus! {

/// The characters of a text.
pub fn to_chars(text: &str) -> (chars: Vec<char>)
    ensures
        chars@ == text@,
{
    broadcast use group_string_axioms;

    let mut chars: Vec<char> = Vec::new();
    for c in iter: text.chars()
        invariant
            iter.seq() == text@,
            chars@ == iter.seq().take(iter.index() as int),
    {
        chars.push(c);
        assert(chars@ =~= iter.seq().take(iter.index() + 1));
    }
    assert(chars@ =~= text@);
    chars
}

/// Where `c` stands first in `s[from..to]`; `to` if it does not.
pub open spec fn find_char(s: Seq<char>, c: char, from: int, to: int) -> int
    decreases to - from,
{
    if from >= to {
        to
    } else if s[from] == c {
        from
    } else {
        find_char(s, c, from + 1, to)
    }
}

/// The character is a space, a tab or a carriage return.
pub open spec fn is_blank(c: char) -> bool {
    c == ' ' || c == '\t' || c == '\r'
}

/// Where the first character of `s[from..to]` stands that is no space; `to`
/// if there is none.
pub open spec fn skip_spaces(s: Seq<char>, from: int, to: int) -> int
    decreases to - from,
{
    if from >= to {
        to
    } else if s[from] != ' ' {
        from
    } else {
        skip_spaces(s, from + 1, to)
    }
}

/// Where the first character of `s[from..to]` stands that is not blank;
/// `to` if there is none.
pub open spec fn skip_blank(s: Seq<char>, from: int, to: int) -> int
    decreases to - from,
{
    if from >= to {
        to
    } else if !is_blank(s[from]) {
        from
    } else {
        skip_blank(s, from + 1, to)
    }
}

/// Where `s[from..to]` ends once the blank characters at its end are taken
/// off; `from` if all of it is blank.
pub open spec fn trim_blank(s: Seq<char>, from: int, to: int) -> int
    decreases to - from,
{
    if from >= to {
        from
    } else if !is_blank(s[to - 1]) {
        to
    } else {
        trim_blank(s, from, to - 1)
    }
}

proof fn lemma_find_char(s: Seq<char>, c: char, from: int, at: int, to: int)
    requires
        from <= at <= to,
        forall|k: int| from <= k < at ==> s[k] != c,
        at == to || s[at] == c,
    ensures
        find_char(s, c, from, to) == at,
    decreases at - from,
{
    if from < at {
        lemma_find_char(s, c, from + 1, at, to);
    }
}

proof fn lemma_skip_spaces(s: Seq<char>, from: int, at: int, to: int)
    requires
        from <= at <= to,
        forall|k: int| from <= k < at ==> s[k] == ' ',
        at == to || s[at] != ' ',
    ensures
        skip_spaces(s, from, to) == at,
    decreases at - from,
{
    if from < at {
        lemma_skip_spaces(s, from + 1, at, to);
    }
}

proof fn lemma_skip_blank(s: Seq<char>, from: int, at: int, to: int)
    requires
        from <= at <= to,
        forall|k: int| from <= k < at ==> is_blank(s[k]),
        at == to || !is_blank(s[at]),
    ensures
        skip_blank(s, from, to) == at,
    decreases at - from,
{
    if from < at {
        lemma_skip_blank(s, from + 1, at, to);
    }
}

proof fn lemma_trim_blank(s: Seq<char>, from: int, at: int, to: int)
    requires
        from <= at <= to,
        forall|k: int| at <= k < to ==> is_blank(s[k]),
        at == from || !is_blank(s[at - 1]),
    ensures
        trim_blank(s, from, to) == at,
    decreases to - at,
{
    if at < to {
        lemma_trim_blank(s, from, at, to - 1);
    }
}

fn find(s: &Vec<char>, c: char, from: usize, to: usize) -> (at: usize)
    requires
        from <= to <= s@.len(),
    ensures
        at == find_char(s@, c, from as int, to as int),
        from <= at <= to,
{
    let mut at: usize = from;
    while at < to && s[at] != c
        invariant
            from <= at <= to <= s@.len(),
            forall|k: int| from <= k < at ==> s@[k] != c,
        decreases to - at,
    {
        at += 1;
    }
    proof {
        lemma_find_char(s@, c, from as int, at as int, to as int);
    }
    at
}

fn past_spaces(s: &Vec<char>, from: usize, to: usize) -> (at: usize)
    requires
        from <= to <= s@.len(),
    ensures
        at == skip_spaces(s@, from as int, to as int),
        from <= at <= to,
{
    let mut at: usize = from;
    while at < to && s[at] == ' '
        invariant
            from <= at <= to <= s@.len(),
            forall|k: int| from <= k < at ==> s@[k] == ' ',
        decreases to - at,
    {
        at += 1;
    }
    proof {
        lemma_skip_spaces(s@, from as int, at as int, to as int);
    }
    at
}

fn blank(c: char) -> (yes: bool)
    ensures
        yes == is_blank(c),
{
    c == ' ' || c == '\t' || c == '\r'
}

fn past_blank(s: &Vec<char>, from: usize, to: usize) -> (at: usize)
    requires
        from <= to <= s@.len(),
    ensures
        at == skip_blank(s@, from as int, to as int),
        from <= at <= to,
{
    let mut at: usize = from;
    while at < to && blank(s[at])
        invariant
            from <= at <= to <= s@.len(),
            forall|k: int| from <= k < at ==> is_blank(s@[k]),
        decreases to - at,
    {
        at += 1;
    }
    proof {
        lemma_skip_blank(s@, from as int, at as int, to as int);
    }
    at
}

fn before_blank(s: &Vec<char>, from: usize, to: usize) -> (at: usize)
    requires
        from <= to <= s@.len(),
    ensures
        at == trim_blank(s@, from as int, to as int),
        from <= at <= to,
{
    let mut at: usize = to;
    while at > from && blank(s[at - 1])
        invariant
            from <= at <= to <= s@.len(),
            forall|k: int| at <= k < to ==> is_blank(s@[k]),
        decreases at - from,
    {
        at -= 1;
    }
    proof {
        lemma_trim_blank(s@, from as int, at as int, to as int);
    }
    at
}

/// One entry as it stands in the text.
#[derive(Debug)]
pub struct Entry {
    /// Where the entry's line begins, counted in characters.
    pub at: usize,
    /// Number of spaces the entry is indented by.
    pub indent: usize,
    pub key: String,
    pub value: String,
}

/// An entry as a value.
pub struct EntryView {
    pub at: nat,
    pub indent: nat,
    pub key: Seq<char>,
    pub value: Seq<char>,
}

impl View for Entry {
    type V = EntryView;

    open spec fn view(&self) -> EntryView {
        EntryView { at: self.at as nat, indent: self.indent as nat, key: self.key@, value: self.value@ }
    }
}

/// What an entry says, wherever it stands: how deep it lies, its name and
/// its value.
pub struct Item {
    pub indent: nat,
    pub key: Seq<char>,
    pub value: Seq<char>,
}

/// What an entry says.
pub open spec fn item_of(entry: EntryView) -> Item {
    Item { indent: entry.indent, key: entry.key, value: entry.value }
}

/// What the entries of a sequence say.
pub open spec fn items_of(entries: Seq<EntryView>) -> Seq<Item> {
    Seq::new(entries.len(), |i: int| item_of(entries[i]))
}

/// What a line of a descriptor is.
pub enum LineView {
    /// A blank line or a comment.
    Nothing,
    /// A line that has text and no colon.
    NoColon,
    /// An entry.
    Entry(EntryView),
}

/// What the line `s[from..to]` is.
pub open spec fn line_at(s: Seq<char>, from: int, to: int) -> LineView {
    let start = skip_spaces(s, from, to);
    let end = trim_blank(s, start, to);
    let colon = find_char(s, ':', start, end);
    if start == end || s[start] == '#' {
        LineView::Nothing
    } else if colon == end {
        LineView::NoColon
    } else {
        LineView::Entry(
            EntryView {
                at: from as nat,
                indent: (start - from) as nat,
                key: s.subrange(start, trim_blank(s, start, colon)),
                value: s.subrange(skip_blank(s, colon + 1, end), end),
            },
        )
    }
}

/// What is wrong with the text of a descriptor.
#[derive(Clone, Copy, Debug, PartialEq, Eq, Structural)]
pub enum TextProblem {
    /// A line has text and no colon.
    NoColon,
    /// An entry is indented by an odd number of spaces.
    OddIndent,
    /// An entry is indented further than the entry before it allows.
    TooDeep,
}

/// A problem, and where the line that has it begins, counted in characters.
#[derive(Clone, Copy, Debug, PartialEq, Eq, Structural)]
pub struct TextError {
    pub problem: TextProblem,
    pub at: usize,
}

/// The entries of the text from `from` on, or the place of the first line
/// without a colon.
pub open spec fn entries_from(s: Seq<char>, from: int) -> Result<Seq<EntryView>, int>
    decreases s.len() - from,
{
    if from < 0 || from >= s.len() {
        Ok(Seq::empty())
    } else {
        let to = find_char(s, '\n', from, s.len() as int);
        let next = if from <= to < s.len() {
            to + 1
        } else {
            s.len() as int
        };
        match line_at(s, from, to) {
            LineView::Nothing => entries_from(s, next),
            LineView::NoColon => Err(from),
            LineView::Entry(entry) => match entries_from(s, next) {
                Ok(rest) => Ok(seq![entry] + rest),
                Err(at) => Err(at),
            },
        }
    }
}

/// The entries of a sequence, each as a value.
pub open spec fn entry_views(entries: Seq<Entry>) -> Seq<EntryView> {
    Seq::new(entries.len(), |i: int| entries[i]@)
}

/// Reads the line `s[from..to]` of `text`.
fn read_line(text: &str, s: &Vec<char>, from: usize, to: usize) -> (line: Option<Option<Entry>>)
    requires
        s@ == text@,
        from <= to <= s@.len(),
    ensures
        match line_at(s@, from as int, to as int) {
            LineView::Nothing => line == Some(None::<Entry>),
            LineView::NoColon => line is None,
            LineView::Entry(entry) => line matches Some(Some(read)) && read@ == entry,
        },
{
    let start: usize = past_spaces(s, from, to);
    let end: usize = before_blank(s, start, to);
    if start == end || s[start] == '#' {
        return Some(None);
    }
    let colon: usize = find(s, ':', start, end);
    if colon == end {
        return None;
    }
    let key_end: usize = before_blank(s, start, colon);
    let value_start: usize = past_blank(s, colon + 1, end);
    Some(
        Some(
            Entry {
                at: from,
                indent: start - from,
                key: text.substring_char(start, key_end).to_owned(),
                value: text.substring_char(value_start, end).to_owned(),
            },
        ),
    )
}

/// Cuts a text into its entries. Fails at the first line that has text and
/// no colon.
pub fn read_entries(text: &str) -> (read: Result<Vec<Entry>, TextError>)
    ensures
        match entries_from(text@, 0) {
            Ok(entries) => read matches Ok(found) && entry_views(found@) == entries,
            Err(at) => read == Err::<Vec<Entry>, TextError>(
                TextError { problem: TextProblem::NoColon, at: at as usize },
            ) && 0 <= at < text@.len(),
        },
{
    let s: Vec<char> = to_chars(text);
    let len: usize = s.len();
    let mut entries: Vec<Entry> = Vec::new();
    let mut from: usize = 0;
    let ghost whole = entries_from(s@, 0);
    proof {
        lemma_error_is_in_text(s@, 0);
    }
    assert(entry_views(entries@) =~= Seq::<EntryView>::empty());
    assert(whole == match entries_from(s@, from as int) {
        Ok(rest) => Ok::<Seq<EntryView>, int>(entry_views(entries@) + rest),
        Err(at) => Err::<Seq<EntryView>, int>(at),
    }) by {
        match entries_from(s@, from as int) {
            Ok(rest) => {
                assert(entry_views(entries@) + rest =~= rest);
            },
            Err(at) => {},
        }
    }
    while from < len
        invariant
            from <= len,
            len == s@.len(),
            s@ == text@,
            whole == entries_from(text@, 0),
            whole == match entries_from(s@, from as int) {
                Ok(rest) => Ok::<Seq<EntryView>, int>(entry_views(entries@) + rest),
                Err(at) => Err::<Seq<EntryView>, int>(at),
            },
            whole matches Err(at) ==> 0 <= at < len,
        decreases len - from,
    {
        let to: usize = find(&s, '\n', from, len);
        let next: usize = if to < len {
            to + 1
        } else {
            len
        };
        let ghost so_far = entry_views(entries@);

        match read_line(text, &s, from, to) {
            Some(Some(entry)) => {
                proof {
                    match entries_from(s@, next as int) {
                        Ok(rest) => {
                            assert(entry_views(entries@.push(entry)) =~= so_far.push(entry@));
                            assert(so_far.push(entry@) + rest =~= so_far + (seq![entry@] + rest));
                        },
                        Err(at) => {},
                    }
                }
                entries.push(entry);
            },
            Some(None) => {},
            None => {
                return Err(TextError { problem: TextProblem::NoColon, at: from });
            },
        }
        from = next;
    }
    assert(entry_views(entries@) + Seq::<EntryView>::empty() =~= entry_views(entries@));
    Ok(entries)
}

/// The place of a line without a colon lies in the text.
proof fn lemma_error_is_in_text(s: Seq<char>, from: int)
    ensures
        entries_from(s, from) matches Err(at) ==> from <= at < s.len(),
    decreases s.len() - from,
{
    if 0 <= from < s.len() {
        let to = find_char(s, '\n', from, s.len() as int);
        let next = if from <= to < s.len() {
            to + 1
        } else {
            s.len() as int
        };
        lemma_error_is_in_text(s, next);
    }
}

/// What is wrong with how deep entry `i` lies: it is indented by an odd
/// number of spaces, or by more than one step beyond the entry before it.
/// The first entry is not indented at all.
pub open spec fn nesting_fault_at(entries: Seq<EntryView>, i: int) -> Option<TextProblem> {
    if entries[i].indent % 2 != 0 {
        Some(TextProblem::OddIndent)
    } else if i == 0 && entries[i].indent != 0 {
        Some(TextProblem::TooDeep)
    } else if i > 0 && entries[i].indent > entries[i - 1].indent + 2 {
        Some(TextProblem::TooDeep)
    } else {
        None
    }
}

/// Entry `i` is the first that lies wrong.
pub open spec fn is_first_misplaced(entries: Seq<EntryView>, i: int) -> bool {
    &&& 0 <= i < entries.len()
    &&& nesting_fault_at(entries, i) is Some
    &&& forall|j: int| 0 <= j < i ==> nesting_fault_at(entries, j) is None
}

/// Every entry lies right.
pub open spec fn well_nested(entries: Seq<EntryView>) -> bool {
    forall|i: int| 0 <= i < entries.len() ==> nesting_fault_at(entries, i) is None
}

/// Checks how deep the entries lie.
fn check_nesting(entries: &Vec<Entry>) -> (checked: Result<(), TextError>)
    ensures
        match checked {
            Ok(_) => well_nested(entry_views(entries@)),
            Err(error) => exists|i: int|
                is_first_misplaced(entry_views(entries@), i) && Some(error.problem) == nesting_fault_at(
                    entry_views(entries@),
                    i,
                ) && error.at == entry_views(entries@)[i].at,
        },
{
    let ghost views = entry_views(entries@);
    let mut i: usize = 0;
    while i < entries.len()
        invariant
            i <= entries.len(),
            views == entry_views(entries@),
            forall|j: int| 0 <= j < i ==> nesting_fault_at(views, j) is None,
        decreases entries.len() - i,
    {
        let indent: usize = entries[i].indent;
        assert(views[i as int] == entries@[i as int]@);
        if indent % 2 != 0 {
            assert(is_first_misplaced(views, i as int));
            return Err(TextError { problem: TextProblem::OddIndent, at: entries[i].at });
        }
        if i == 0 {
            if indent != 0 {
                assert(is_first_misplaced(views, i as int));
                return Err(TextError { problem: TextProblem::TooDeep, at: entries[i].at });
            }
        } else {
            let before: usize = entries[i - 1].indent;
            assert(views[i - 1] == entries@[i - 1]@);
            if indent > before && indent - before > 2 {
                assert(is_first_misplaced(views, i as int));
                return Err(TextError { problem: TextProblem::TooDeep, at: entries[i].at });
            }
        }
        i += 1;
    }
    Ok(())
}

/// What a node and everything within it say, in the order of the text. The
/// node lies `indent` spaces deep, what lies within it two more.
pub open spec fn outline(node: YamlNode, indent: nat) -> Seq<Item>
    decreases node, 0nat,
{
    seq![Item { indent, key: node.name@, value: node.value@ }] + outline_all(node.children@, indent + 2)
}

/// What the nodes of a sequence and everything within them say.
pub open spec fn outline_all(nodes: Seq<YamlNode>, indent: nat) -> Seq<Item>
    decreases nodes, 1nat,
{
    if nodes.len() == 0 {
        Seq::empty()
    } else {
        outline_all(nodes.subrange(0, nodes.len() - 1), indent) + outline(nodes[nodes.len() - 1], indent)
    }
}

/// The full name of what lies within something: its full name, a point, the
/// name.
pub open spec fn joined(parent: Seq<char>, name: Seq<char>) -> Seq<char> {
    parent + seq!['.'] + name
}

/// The node and everything within it carry their full names, and beside
/// each value stands what `read_number` made of it.
pub open spec fn well_made<F: Fn(&String) -> Option<Scalar>>(node: YamlNode, full_name: Seq<char>, read_number: F) -> bool
    decreases node, 0nat,
{
    &&& node.full_name@ == full_name
    &&& read_number.ensures((&node.value,), node.number)
    &&& all_well_made(node.children@, full_name, read_number)
}

/// The nodes of a sequence, which lie within something called `parent`, are
/// well made.
pub open spec fn all_well_made<F: Fn(&String) -> Option<Scalar>>(
    nodes: Seq<YamlNode>,
    parent: Seq<char>,
    read_number: F,
) -> bool
    decreases nodes, 1nat,
{
    if nodes.len() == 0 {
        true
    } else {
        &&& all_well_made(nodes.subrange(0, nodes.len() - 1), parent, read_number)
        &&& well_made(
            nodes[nodes.len() - 1],
            joined(parent, nodes[nodes.len() - 1].name@),
            read_number,
        )
    }
}

fn join(parent: &str, name: &str) -> (full: String)
    ensures
        full@ == joined(parent@, name@),
{
    let mut full: String = parent.to_owned();
    full.append(".");
    full.append(name);
    proof {
        reveal_strlit(".");
        assert("."@ =~= seq!['.']);
    }
    full
}

/// Builds the nodes that the entries from `start` on describe, as far as
/// they lie `indent` spaces deep or deeper. Returns them with the place of
/// the first entry that lies less deep.
fn build_children<F: Fn(&String) -> Option<Scalar>>(
    entries: &Vec<Entry>,
    start: usize,
    indent: usize,
    parent: &str,
    read_number: &F,
) -> (built: (Vec<YamlNode>, usize))
    requires
        start <= entries@.len(),
        indent % 2 == 0,
        well_nested(entry_views(entries@)),
        start < entries@.len() ==> entries@[start as int].indent <= indent,
        forall|v: &String| read_number.requires((v,)),
    ensures
        start <= built.1 <= entries@.len(),
        built.1 < entries@.len() ==> entries@[built.1 as int].indent < indent,
        outline_all(built.0@, indent as nat) == items_of(entry_views(entries@).subrange(start as int, built.1 as int)),
        all_well_made(built.0@, parent@, *read_number),
    decreases entries@.len() - start,
{
    let ghost views = entry_views(entries@);
    let mut children: Vec<YamlNode> = Vec::new();
    let mut next: usize = start;
    assert(items_of(views.subrange(start as int, start as int)) =~= Seq::<Item>::empty());
    while next < entries.len() && entries[next].indent == indent
        invariant
            start <= next <= entries@.len(),
            indent % 2 == 0,
            views == entry_views(entries@),
            well_nested(views),
            next < entries@.len() ==> entries@[next as int].indent <= indent,
            forall|v: &String| read_number.requires((v,)),
            outline_all(children@, indent as nat) == items_of(views.subrange(start as int, next as int)),
            all_well_made(children@, parent@, *read_number),
        decreases entries@.len() - next,
    {
        let entry: &Entry = &entries[next];
        let full_name: String = join(parent, entry.key.as_str());
        let number: Option<Scalar> = read_number(&entry.value);
        let ghost here = next;
        proof {
            assert(views[next as int] == entries@[next as int]@);
            assert(nesting_fault_at(views, next as int) is None);
            if next + 1 < entries@.len() {
                assert(views[next + 1] == entries@[next + 1]@);
                assert(nesting_fault_at(views, next + 1) is None);
            }
        }
        let (kids, after) = if next + 1 < entries.len() && entries[next + 1].indent > indent {
            build_children(entries, next + 1, entries[next + 1].indent, full_name.as_str(), read_number)
        } else {
            let none: Vec<YamlNode> = Vec::new();
            assert(items_of(views.subrange(next + 1, next + 1)) =~= Seq::<Item>::empty());
            (none, next + 1)
        };
        let node: YamlNode = YamlNode {
            name: entry.key.clone(),
            full_name,
            value: entry.value.clone(),
            number,
            children: kids,
        };
        proof {
            let before = children@;
            let grown = before.push(node);
            assert(grown.subrange(0, grown.len() - 1) =~= before);
            assert(grown[grown.len() - 1] == node);
            assert(outline(node, indent as nat) =~= items_of(views.subrange(here as int, after as int))) by {
                assert(outline_all(node.children@, (indent + 2) as nat) == items_of(
                    views.subrange(here + 1, after as int),
                ));
                assert(seq![item_of(views[here as int])] + items_of(views.subrange(here + 1, after as int))
                    =~= items_of(views.subrange(here as int, after as int)));
            }
            assert(items_of(views.subrange(start as int, here as int)) + items_of(
                views.subrange(here as int, after as int),
            ) =~= items_of(views.subrange(start as int, after as int)));
            assert(well_made(node, joined(parent@, node.name@), *read_number));
            if after < entries@.len() {
                assert(views[after as int] == entries@[after as int]@);
                assert(nesting_fault_at(views, after as int) is None);
            }
        }
        children.push(node);
        next = after;
    }
    (children, next)
}

/// What reading the text of a descriptor gives: what its entries say, or
/// what is wrong first. A line without a colon is found before any entry
/// that lies wrong.
pub open spec fn text_outline(text: Seq<char>) -> Result<Seq<Item>, TextError> {
    match entries_from(text, 0) {
        Err(at) => Err(TextError { problem: TextProblem::NoColon, at: at as usize }),
        Ok(entries) => if well_nested(entries) {
            Ok(items_of(entries))
        } else {
            let i = choose|i: int| is_first_misplaced(entries, i);
            Err(TextError { problem: nesting_fault_at(entries, i)->0, at: entries[i].at as usize })
        },
    }
}

/// `root` is a tree of the descriptor called `name` whose text is `text`:
/// the text reads without fault, the tree says what its entries say, and
/// beside each value stands what `read_number` made of it.
pub open spec fn is_tree_of<F: Fn(&String) -> Option<Scalar>>(
    root: YamlNode,
    text: Seq<char>,
    name: Seq<char>,
    read_number: F,
) -> bool {
    &&& text_outline(text) matches Ok(items)
    &&& root.name@ == name
    &&& root.full_name@ == name
    &&& root.value@.len() == 0
    &&& root.number is None
    &&& outline_all(root.children@, 0) == items
    &&& all_well_made(root.children@, name, read_number)
}

/// Reads the text of a descriptor into its tree. `name` is what the
/// descriptor's file is called: the root of the tree carries it, and the
/// entries that are not indented lie within the root.
///
/// `read_number` is asked of every value what number it reads as.
pub fn parse_yaml<F: Fn(&String) -> Option<Scalar>>(text: &str, name: &str, read_number: &F) -> (parsed: Result<
    YamlNode,
    TextError,
>)
    requires
        forall|v: &String| read_number.requires((v,)),
    ensures
        match text_outline(text@) {
            Ok(items) => {
                &&& parsed matches Ok(root)
                &&& root.name@ == name@
                &&& root.full_name@ == name@
                &&& root.value@.len() == 0
                &&& root.number is None
                &&& outline_all(root.children@, 0) == items
                &&& all_well_made(root.children@, name@, *read_number)
            },
            Err(error) => parsed == Err::<YamlNode, TextError>(error),
        },
{
    let entries: Vec<Entry> = match read_entries(text) {
        Ok(entries) => entries,
        Err(error) => {
            return Err(error);
        },
    };
    let ghost views = entry_views(entries@);
    match check_nesting(&entries) {
        Ok(_) => {},
        Err(error) => {
            proof {
                let i = choose|i: int|
                    is_first_misplaced(views, i) && Some(error.problem) == nesting_fault_at(views, i) && error.at
                        == views[i].at;
                let w = choose|w: int| is_first_misplaced(views, w);
                assert(is_first_misplaced(views, i));
                if w < i {
                    assert(nesting_fault_at(views, w) is None);
                } else if i < w {
                    assert(nesting_fault_at(views, i) is None);
                }
            }
            return Err(error);
        },
    }
    proof {
        if entries@.len() > 0 {
            assert(views[0] == entries@[0]@);
            assert(nesting_fault_at(views, 0) is None);
        }
    }
    let (children, end) = build_children(&entries, 0, 0, name, read_number);
    proof {
        if end < entries@.len() {
            assert(entries@[end as int].indent < 0);
        }
        assert(views.subrange(0, end as int) =~= views);
    }
    Ok(
        YamlNode {
            name: name.to_owned(),
            full_name: name.to_owned(),
            value: String::new(),
            number: None,
            children,
        },
    )
}

} // verus!
