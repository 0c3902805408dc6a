//! A directory tree as it was found at one moment, and the document that
//! loading it gives.
//!
//! The tree holds what a walk would be told, failures included, so that the
//! meaning of a load can be said without a disk: `document_of` is that
//! meaning, and `load` runs the walker over a tree and arrives at it.

use vstd::prelude::*;
use crate::document::{Document, DocumentView, ValueView};
use crate::json::parsed_json;
use crate::names::{data_key_of, format_of, stem_of, Format};
use crate::walker::{
    close_entry, current_name, finish_entry, lemma_settle_phase, loaded_value, settle, texts,
    EntryKind, FrameView, Listed, LoadError, PhaseView, Reply, Request, Walker, WalkerView,
};

verus! {

/// What reading a file as text gave.
#[derive(Debug)]
pub enum FileText {
    /// The file could not be read, or does not hold text.
    Unreadable,
    /// Its text, whole.
    Text(String),
}

/// What stands behind a name in a directory.
#[derive(Debug)]
pub enum Node {
    /// Its metadata could not be read.
    Unknown,
    /// A directory.
    Directory(Directory),
    /// A plain file.
    File(FileText),
    /// Neither a directory nor a plain file.
    Other,
}

/// One entry of a directory.
#[derive(Debug)]
pub struct DirEntry {
    pub name: String,
    pub node: Node,
}

/// What listing a directory gave.
#[derive(Debug)]
pub enum Directory {
    /// There is no such directory.
    Missing,
    /// The directory is there and could not be listed.
    Unreadable,
    /// Its entries, in the order in which they came.
    Listed(Vec<DirEntry>),
}

/// What `entry` puts into the document of its directory: the key and the
/// value, or `None` for an entry that is passed over. A directory that can be
/// listed, or is gone, enters under its name; a `.json` file that parses and
/// a `.txt` file enter under their stem; every other entry, and every entry
/// that fails, puts nothing.
pub open spec fn contribution(entry: DirEntry) -> Option<(Seq<char>, ValueView)>
    decreases entry, 0nat,
{
    match entry.node {
        Node::Directory(directory) => match document_of(directory) {
            Some(nested) => Some((entry.name@, ValueView::Object(nested))),
            None => None,
        },
        Node::File(FileText::Text(text)) => match data_key_of(entry.name@) {
            Some((key, format)) => match loaded_value(text@, format) {
                Some(value) => Some((key, value)),
                None => None,
            },
            None => None,
        },
        _ => None,
    }
}

/// Whether `entry` puts a value under `key`.
pub open spec fn contributes_key(entry: DirEntry, key: Seq<char>) -> bool {
    contribution(entry) matches Some((put, _)) && put == key
}

/// The document `document` after `entry` has been dealt with.
pub open spec fn with_entry(document: DocumentView, entry: DirEntry) -> DocumentView
    decreases entry, 1nat,
{
    match contribution(entry) {
        Some((key, value)) => document.insert(key, value),
        None => document,
    }
}

/// The document that the first `n` of `entries` give, dealt with in their
/// order: where two of them ask for the same key, the later one prevails.
pub open spec fn with_entries(entries: Seq<DirEntry>, n: nat) -> DocumentView
    decreases entries, n,
{
    if n == 0 || n > entries.len() {
        Map::empty()
    } else {
        with_entry(with_entries(entries, (n - 1) as nat), entries[n - 1])
    }
}

/// The document that loading `directory` gives: empty for one that does not
/// exist, none for one that cannot be listed.
pub open spec fn document_of(directory: Directory) -> Option<DocumentView>
    decreases directory, 0nat,
{
    match directory {
        Directory::Missing => Some(Map::empty()),
        Directory::Unreadable => None,
        Directory::Listed(entries) => Some(with_entries(entries@, entries@.len())),
    }
}

/// The outcome of loading the tree below `root`.
pub open spec fn load_outcome(root: Directory) -> Result<DocumentView, LoadError> {
    match document_of(root) {
        Some(document) => Ok(document),
        None => Err(LoadError::RootUnreadable),
    }
}

/// Whether dealing with `entry` fails: its kind is unknown, it is a directory
/// that cannot be listed, a file that cannot be read, or a `.json` file whose
/// text is not valid JSON.
pub open spec fn fails(entry: DirEntry) -> bool {
    match entry.node {
        Node::Unknown => true,
        Node::Directory(directory) => directory is Unreadable,
        Node::File(FileText::Unreadable) => format_of(entry.name@) is Some,
        Node::File(FileText::Text(text)) => format_of(entry.name@) == Some(Format::Json)
            && parsed_json(text@) is None,
        Node::Other => false,
    }
}

/// Loading a root that does not exist gives the empty document, and the only
/// root that gives an error is one that is there and cannot be listed.
pub proof fn lemma_load_fails_only_on_unreadable_root(root: Directory)
    ensures
        root is Missing ==> load_outcome(root) == Ok::<DocumentView, LoadError>(Map::empty()),
        load_outcome(root) is Err <==> root is Unreadable,
{
}

/// An entry that fails puts nothing into the document.
pub proof fn lemma_failed_entry_puts_nothing(entry: DirEntry)
    requires
        fails(entry),
    ensures
        contribution(entry) is None,
{
}

/// Every key of a document comes from the name of an entry that put it
/// there, and every entry that puts something leaves its key in the document.
pub proof fn lemma_keys_are_contributed(entries: Seq<DirEntry>, n: nat)
    requires
        n <= entries.len(),
    ensures
        forall|key: Seq<char>| #[trigger]
            with_entries(entries, n).contains_key(key) <==> exists|i: int|
                0 <= i < n && contributes_key(entries[i], key),
    decreases n,
{
    if n > 0 {
        lemma_keys_are_contributed(entries, (n - 1) as nat);
        lemma_with_entries_step(entries, n);
        let before = with_entries(entries, (n - 1) as nat);
        assert forall|key: Seq<char>| #[trigger]
            with_entries(entries, n).contains_key(key) implies exists|i: int|
            0 <= i < n && contributes_key(entries[i], key) by {
            if contributes_key(entries[n - 1], key) {
            } else {
                assert(before.contains_key(key));
                let i = choose|i: int| 0 <= i < n - 1 && contributes_key(entries[i], key);
                assert(0 <= i < n && contributes_key(entries[i], key));
            }
        }
        assert forall|key: Seq<char>|
            (exists|i: int| 0 <= i < n && contributes_key(entries[i], key)) implies #[trigger] with_entries(
            entries,
            n,
        ).contains_key(key) by {
            let i = choose|i: int| 0 <= i < n && contributes_key(entries[i], key);
            if i < n - 1 {
                assert(before.contains_key(key));
            }
        }
    }
}

/// Every key of a loaded document is the name of a directory among the
/// entries, as it stands, or the stem of a `.json` or `.txt` file among them.
pub proof fn lemma_keys_come_from_names(entries: Seq<DirEntry>, key: Seq<char>)
    requires
        with_entries(entries, entries.len()).contains_key(key),
    ensures
        exists|i: int|
            0 <= i < entries.len() && ({
                ||| (#[trigger] entries[i]).node is Directory && key == entries[i].name@
                ||| entries[i].node is File && format_of(entries[i].name@) is Some && key
                    == stem_of(entries[i].name@)
            }),
{
    lemma_keys_are_contributed(entries, entries.len());
    let i = choose|i: int| 0 <= i < entries.len() && contributes_key(entries[i], key);
    assert(contributes_key(entries[i], key));
}

/// Where several entries put a value under one key, the last of them
/// prevails: the document holds its value.
pub proof fn lemma_last_entry_prevails(
    entries: Seq<DirEntry>,
    n: nat,
    i: int,
    key: Seq<char>,
    value: ValueView,
)
    requires
        0 <= i < n <= entries.len(),
        contribution(entries[i]) == Some((key, value)),
        forall|j: int| i < j < n ==> !contributes_key(entries[j], key),
    ensures
        with_entries(entries, n).contains_key(key),
        with_entries(entries, n)[key] == value,
    decreases n,
{
    lemma_with_entries_step(entries, n);
    if i < n - 1 {
        lemma_last_entry_prevails(entries, (n - 1) as nat, i, key, value);
        assert(!contributes_key(entries[n - 1], key));
    }
}

/// Whether two entries ask for the same key.
pub open spec fn collide(first: DirEntry, second: DirEntry) -> bool {
    match (contribution(first), contribution(second)) {
        (Some((one, _)), Some((other, _))) => one == other,
        _ => false,
    }
}

/// `entries` with the entries at `at` and `at + 1` in each other's place.
pub open spec fn swapped(entries: Seq<DirEntry>, at: int) -> Seq<DirEntry> {
    entries.update(at, entries[at + 1]).update(at + 1, entries[at])
}

/// The order in which a directory hands out two neighbouring entries does
/// not matter to the document, unless both ask for the same key.
pub proof fn lemma_order_is_immaterial(entries: Seq<DirEntry>, at: int)
    requires
        0 <= at,
        at + 1 < entries.len(),
        !collide(entries[at], entries[at + 1]),
    ensures
        with_entries(swapped(entries, at), entries.len()) == with_entries(entries, entries.len()),
{
    let other = swapped(entries, at);
    lemma_same_prefix_same_document(entries, other, at as nat);
    lemma_with_entries_step(entries, (at + 1) as nat);
    lemma_with_entries_step(entries, (at + 2) as nat);
    lemma_with_entries_step(other, (at + 1) as nat);
    lemma_with_entries_step(other, (at + 2) as nat);
    assert(with_entries(other, (at + 2) as nat) =~= with_entries(entries, (at + 2) as nat));
    lemma_same_rest_same_document(entries, other, (at + 2) as nat, entries.len());
}

/// Two lists of entries that give the same document up to place `from` and
/// agree from there on give the same document up to any later place.
proof fn lemma_same_rest_same_document(
    first: Seq<DirEntry>,
    second: Seq<DirEntry>,
    from: nat,
    n: nat,
)
    requires
        from <= n <= first.len(),
        first.len() == second.len(),
        with_entries(first, from) == with_entries(second, from),
        forall|i: int| from <= i < n ==> first[i] == second[i],
    ensures
        with_entries(first, n) == with_entries(second, n),
    decreases n,
{
    if n > from {
        lemma_same_rest_same_document(first, second, from, (n - 1) as nat);
        lemma_with_entries_step(first, n);
        lemma_with_entries_step(second, n);
    }
}

/// An entry that puts nothing is as good as absent: the document is the one
/// that the other entries give without it. So a failure at one entry never
/// costs a sibling its place.
pub proof fn lemma_silent_entry_is_as_if_absent(entries: Seq<DirEntry>, at: int)
    requires
        0 <= at < entries.len(),
        contribution(entries[at]) is None,
    ensures
        with_entries(entries.remove(at), (entries.len() - 1) as nat) == with_entries(
            entries,
            entries.len(),
        ),
{
    lemma_silent_entry_up_to(entries, at, entries.len());
}

/// `lemma_silent_entry_is_as_if_absent`, for the first `n` entries.
proof fn lemma_silent_entry_up_to(entries: Seq<DirEntry>, at: int, n: nat)
    requires
        0 <= at < n <= entries.len(),
        contribution(entries[at]) is None,
    ensures
        with_entries(entries.remove(at), (n - 1) as nat) == with_entries(entries, n),
    decreases n,
{
    let rest = entries.remove(at);
    lemma_with_entries_step(entries, n);
    if at == n - 1 {
        lemma_same_prefix_same_document(rest, entries, (n - 1) as nat);
    } else {
        lemma_silent_entry_up_to(entries, at, (n - 1) as nat);
        lemma_with_entries_step(rest, (n - 1) as nat);
        assert(rest[n - 2] == entries[n - 1]);
    }
}

/// What the first `n` entries give depends on those entries alone.
proof fn lemma_same_prefix_same_document(first: Seq<DirEntry>, second: Seq<DirEntry>, n: nat)
    requires
        n <= first.len(),
        n <= second.len(),
        forall|i: int| 0 <= i < n ==> first[i] == second[i],
    ensures
        with_entries(first, n) == with_entries(second, n),
    decreases n,
{
    if n > 0 {
        lemma_same_prefix_same_document(first, second, (n - 1) as nat);
        lemma_with_entries_step(first, n);
        lemma_with_entries_step(second, n);
    }
}

/// The names of `entries`, in their order.
spec fn names_of(entries: Seq<DirEntry>) -> Seq<Seq<char>> {
    Seq::new(entries.len(), |i: int| entries[i].name@)
}

/// The walk after the directory that was to be listed has been dealt with
/// whole and gave `outcome`: the root ends the walk, any other directory
/// ends the entry that it is.
spec fn entered(frames: Seq<FrameView>, outcome: Option<DocumentView>) -> WalkerView {
    if frames.len() == 0 {
        WalkerView {
            frames,
            phase: PhaseView::Done(
                match outcome {
                    Some(document) => Ok(document),
                    None => Err(LoadError::RootUnreadable),
                },
            ),
        }
    } else {
        finish_entry(
            frames,
            match outcome {
                Some(document) => Some((current_name(frames), ValueView::Object(document))),
                None => None,
            },
        )
    }
}

/// The directory of `entries` within a walk, when the first `i` of them are
/// dealt with.
spec fn frame_at(entries: Seq<DirEntry>, i: nat) -> FrameView {
    FrameView { document: with_entries(entries, i), names: names_of(entries), next: i }
}

/// One more entry is one more step of `with_entry`.
proof fn lemma_with_entries_step(entries: Seq<DirEntry>, n: nat)
    requires
        0 < n <= entries.len(),
    ensures
        with_entries(entries, n) == with_entry(
            with_entries(entries, (n - 1) as nat),
            entries[n - 1],
        ),
{
}

/// Within a walk, dealing with entry `i` of a directory leads from the
/// directory with `i` entries dealt with to the one with `i + 1`.
proof fn lemma_entry_closes(outer: Seq<FrameView>, entries: Seq<DirEntry>, i: nat)
    requires
        i < entries.len(),
    ensures
        settle(outer.push(frame_at(entries, i))) == (WalkerView {
            frames: outer.push(frame_at(entries, i)),
            phase: PhaseView::Inspect,
        }),
        current_name(outer.push(frame_at(entries, i))) == entries[i as int].name@,
        close_entry(outer.push(frame_at(entries, i)), contribution(entries[i as int]))
            == outer.push(frame_at(entries, i + 1)),
{
    lemma_with_entries_step(entries, i + 1);
    assert(close_entry(outer.push(frame_at(entries, i)), contribution(entries[i as int]))
        =~= outer.push(frame_at(entries, i + 1)));
}

/// Copies of the names of `entries`.
fn entry_names(entries: &Vec<DirEntry>) -> (names: Vec<String>)
    ensures
        texts(names@) == names_of(entries@),
{
    let mut names: Vec<String> = Vec::new();
    let mut i: usize = 0;
    while i < entries.len()
        invariant
            i <= entries.len(),
            names.len() == i,
            forall|j: int| 0 <= j < i ==> names[j]@ == entries[j].name@,
        decreases entries.len() - i,
    {
        names.push(entries[i].name.clone());
        i += 1;
    }
    proof {
        assert(texts(names@) =~= names_of(entries@));
    }
    names
}

/// What kind of entry `node` is.
pub fn kind_of(node: &Node) -> (kind: EntryKind)
    ensures
        kind == match node {
            Node::Unknown => EntryKind::Unknown,
            Node::Directory(_) => EntryKind::Directory,
            Node::File(_) => EntryKind::File,
            Node::Other => EntryKind::Other,
        },
{
    match node {
        Node::Unknown => EntryKind::Unknown,
        Node::Directory(_) => EntryKind::Directory,
        Node::File(_) => EntryKind::File,
        Node::Other => EntryKind::Other,
    }
}

/// Answers the walker's request to list a directory out of `directory`, and
/// every request that follows until that directory is left again.
fn walk_directory(walker: &mut Walker, directory: &Directory)
    requires
        old(walker)@.phase is List,
    ensures
        final(walker)@ == entered(old(walker)@.frames, document_of(*directory)),
    decreases directory,
{
    let ghost outer = walker@.frames;
    match directory {
        Directory::Missing => {
            walker.advance(Reply::Listed(Listed::Missing));
        },
        Directory::Unreadable => {
            walker.advance(Reply::Listed(Listed::Unreadable));
        },
        Directory::Listed(entries) => {
            walker.advance(Reply::Listed(Listed::Names(entry_names(entries))));
            let mut i: usize = 0;
            while i < entries.len()
                invariant
                    i <= entries.len(),
                    walker@ == settle(outer.push(frame_at(entries@, i as nat))),
                    *directory == Directory::Listed(*entries),
                decreases entries.len() - i,
            {
                let ghost inner = outer.push(frame_at(entries@, i as nat));
                proof {
                    lemma_entry_closes(outer, entries@, i as nat);
                }
                let entry = &entries[i];
                walker.advance(Reply::Kind(kind_of(&entry.node)));
                match &entry.node {
                    Node::Directory(nested) => {
                        proof {
                            assert(directory->Listed_0 == *entries);
                            assert(entries@[i as int].node->Directory_0 == *nested);
                        }
                        walk_directory(walker, nested);
                    },
                    Node::File(content) => {
                        proof {
                            lemma_settle_phase(close_entry(inner, None));
                        }
                        match walker.request() {
                            Request::Read(_) => {
                                let text = match content {
                                    FileText::Text(text) => Some(text.clone()),
                                    FileText::Unreadable => None,
                                };
                                walker.advance(Reply::Text(text));
                            },
                            _ => {},
                        }
                    },
                    _ => {},
                }
                i += 1;
            }
            proof {
                assert(outer.push(frame_at(entries@, entries@.len())).drop_last() =~= outer);
                if outer.len() == 0 {
                    assert(outer =~= Seq::<FrameView>::empty());
                }
            }
        },
    }
}

/// The outcome of a load, apart from how the document is stored.
pub open spec fn outcome_view(outcome: Result<Document, LoadError>) -> Result<
    DocumentView,
    LoadError,
> {
    match outcome {
        Ok(document) => Ok(document@),
        Err(error) => Err(error),
    }
}

/// Loads the tree below `root`: runs a walk from its beginning to its end,
/// answering each request out of the tree. A root that does not exist gives
/// the empty document; only a root that cannot be listed gives an error.
pub fn load(root: &Directory) -> (outcome: Result<Document, LoadError>)
    ensures
        outcome_view(outcome) == load_outcome(*root),
        outcome is Err <==> *root is Unreadable,
        *root is Missing ==> outcome_view(outcome) == Ok::<DocumentView, LoadError>(Map::empty()),
{
    let mut walker = Walker::new();
    walk_directory(&mut walker, root);
    match walker.finish() {
        Some(outcome) => outcome,
        None => Err(LoadError::RootUnreadable),
    }
}

/// Loading a tree twice gives the same document both times, or the same
/// error: the outcome depends on the tree alone.
pub proof fn lemma_load_is_repeatable(
    root: Directory,
    first: Result<Document, LoadError>,
    second: Result<Document, LoadError>,
)
    requires
        outcome_view(first) == load_outcome(root),
        outcome_view(second) == load_outcome(root),
    ensures
        outcome_view(first) == outcome_view(second),
        first is Ok ==> second is Ok && first->Ok_0@ == second->Ok_0@,
{
}

} // verus!
