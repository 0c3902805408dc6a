//! The walk over the data directory, as a machine that asks and is answered.
//!
//! The walker never touches the disk. It says what it needs to know next (the
//! entries of a directory, the kind of an entry, the text of a file), its
//! driver finds that out and hands it back, and the walker decides what
//! becomes of it. A failure at one entry leaves that entry out and nothing
//! else; only a root directory that exists and cannot be listed fails the load.

use vstd::prelude::*;
use crate::document::{ContextValue, Document, DocumentView, ValueView};
use crate::json::{parse_json, parsed_json};
use crate::names::{data_key, data_key_of, file_stem, stem_of, Format};

verus! {

/// Why a load as a whole gave no document.
#[derive(Clone, Copy, Debug, PartialEq, Eq, Structural)]
pub enum LoadError {
    /// The root directory exists and could not be listed.
    RootUnreadable,
}

/// What a directory entry turned out to be.
#[derive(Clone, Copy, Debug, PartialEq, Eq, Structural)]
pub enum EntryKind {
    /// A directory.
    Directory,
    /// A plain file.
    File,
    /// Something else: a socket, a device.
    Other,
    /// Its metadata could not be read.
    Unknown,
}

/// What listing a directory gave.
#[derive(Debug)]
pub enum Listed {
    /// There is no such directory.
    Missing,
    /// The directory is there and could not be listed.
    Unreadable,
    /// The names of its entries, in the order in which they came.
    Names(Vec<String>),
}

/// What the driver hands back to the walker.
#[derive(Debug)]
pub enum Reply {
    /// The answer to `Request::List`.
    Listed(Listed),
    /// The answer to `Request::Inspect`.
    Kind(EntryKind),
    /// The answer to `Request::Read`: the text, or `None` where the file could
    /// not be read as text.
    Text(Option<String>),
}

/// What the walker needs to know next. Each path is the list of names that
/// leads from the root directory to the entry; the root itself is the empty list.
#[derive(Debug)]
pub enum Request {
    /// List the directory at this path.
    List(Vec<String>),
    /// Say what kind of entry stands at this path.
    Inspect(Vec<String>),
    /// Read the file at this path as text.
    Read(Vec<String>),
    /// Nothing more: the walk is over.
    Done,
}

/// What became of the entry that a reply was about, for the driver to report.
#[derive(Clone, Copy, Debug, PartialEq, Eq, Structural)]
pub enum Note {
    /// Nothing that needs a line: the walk goes on, or the entry is one
    /// that is passed over in silence.
    Nothing,
    /// The file entered the document, taken in this format.
    Loaded(Format),
    /// The text of a `.json` file is not valid JSON: the file is left out.
    MalformedJson,
    /// The file could not be read as text: it is left out.
    UnreadableFile,
    /// The directory could not be listed: it is left out, or, if it is the
    /// root, the load fails.
    UnreadableDirectory,
    /// The directory is not there: it counts as empty.
    MissingDirectory,
    /// The kind of the entry could not be found out: it is left out.
    UnknownEntry,
}

/// A directory that the walk has entered and not yet left.
struct Frame {
    /// What its entries have given so far.
    document: Document,
    /// The names of its entries.
    names: Vec<String>,
    /// The place of the entry that is being dealt with.
    next: usize,
}

enum Phase {
    List,
    Inspect,
    Read(Format),
    Done(Result<Document, LoadError>),
}

/// The state of a walk.
pub struct Walker {
    frames: Vec<Frame>,
    phase: Phase,
}

/// A directory of the walk, apart from how it is stored.
pub struct FrameView {
    pub document: DocumentView,
    pub names: Seq<Seq<char>>,
    pub next: nat,
}

/// What the walker is waiting for.
pub enum PhaseView {
    /// The listing of the current entry, or of the root where no directory
    /// has been entered yet.
    List,
    /// The kind of the current entry.
    Inspect,
    /// The text of the current entry, to be taken in this format.
    Read(Format),
    /// Nothing: the walk has ended with this outcome.
    Done(Result<DocumentView, LoadError>),
}

/// A walk, apart from how it is stored: the directories entered, the root
/// first, and what the walker is waiting for.
pub struct WalkerView {
    pub frames: Seq<FrameView>,
    pub phase: PhaseView,
}

/// The texts of a list of strings.
pub open spec fn texts(names: Seq<String>) -> Seq<Seq<char>> {
    Seq::new(names.len(), |i: int| names[i]@)
}

/// The name of the entry that the innermost directory is dealing with.
pub open spec fn current_name(frames: Seq<FrameView>) -> Seq<char> {
    frames.last().names[frames.last().next as int]
}

/// The path from the root to the current entry: for each directory entered,
/// the name of the entry it is dealing with.
pub open spec fn current_path(frames: Seq<FrameView>) -> Seq<Seq<char>> {
    Seq::new(frames.len(), |k: int| frames[k].names[frames[k].next as int])
}

/// The directories after the current entry of the innermost one is done
/// with: `put`, if there is one, has entered its document, and the entry
/// behind it is the current one.
pub open spec fn close_entry(frames: Seq<FrameView>, put: Option<(Seq<char>, ValueView)>) -> Seq<
    FrameView,
> {
    let top = frames.last();
    frames.drop_last().push(
        FrameView {
            document: match put {
                Some((key, value)) => top.document.insert(key, value),
                None => top.document,
            },
            names: top.names,
            next: top.next + 1,
        },
    )
}

/// Leaves every directory whose entries are all done with. A directory that
/// is left enters its parent's document under its own name; when the root is
/// left the walk is over. Otherwise the walker goes on to inspect the entry
/// that has become the current one.
pub open spec fn settle(frames: Seq<FrameView>) -> WalkerView
    decreases frames.len(),
{
    if frames.len() == 0 || frames.last().next < frames.last().names.len() {
        WalkerView { frames, phase: PhaseView::Inspect }
    } else if frames.len() == 1 {
        WalkerView { frames: Seq::empty(), phase: PhaseView::Done(Ok(frames.last().document)) }
    } else {
        let outer = frames.drop_last();
        settle(
            close_entry(
                outer,
                Some((current_name(outer), ValueView::Object(frames.last().document))),
            ),
        )
    }
}

/// Leaving directories ends the walk or leads to the next entry to inspect;
/// it never leaves the walker waiting for a listing or a text.
pub proof fn lemma_settle_phase(frames: Seq<FrameView>)
    ensures
        settle(frames).phase is Inspect || settle(frames).phase is Done,
    decreases frames.len(),
{
    if frames.len() > 1 && frames.last().next >= frames.last().names.len() {
        let outer = frames.drop_last();
        lemma_settle_phase(
            close_entry(
                outer,
                Some((current_name(outer), ValueView::Object(frames.last().document))),
            ),
        );
    }
}

/// Leaving directories never fails a walk: where it ends the walk, it ends
/// it with a document.
pub proof fn lemma_settle_never_fails(frames: Seq<FrameView>)
    ensures
        settle(frames).phase matches PhaseView::Done(outcome) ==> outcome is Ok,
    decreases frames.len(),
{
    if frames.len() > 1 && frames.last().next >= frames.last().names.len() {
        let outer = frames.drop_last();
        lemma_settle_never_fails(
            close_entry(
                outer,
                Some((current_name(outer), ValueView::Object(frames.last().document))),
            ),
        );
    }
}

/// The walk after the current entry is done with.
pub open spec fn finish_entry(frames: Seq<FrameView>, put: Option<(Seq<char>, ValueView)>) -> WalkerView {
    settle(close_entry(frames, put))
}

/// What a file's text becomes in the given format: the text itself, or the
/// JSON value it parses to; `None` for text that is not valid JSON.
pub open spec fn loaded_value(text: Seq<char>, format: Format) -> Option<ValueView> {
    match format {
        Format::Text => Some(ValueView::String(text)),
        Format::Json => match parsed_json(text) {
            Some(json) => Some(ValueView::Json(json)),
            None => None,
        },
    }
}

/// The walk after `listed` has answered a request to list a directory.
pub open spec fn after_list(frames: Seq<FrameView>, listed: Option<Listed>) -> WalkerView {
    match listed {
        Some(Listed::Names(names)) => settle(
            frames.push(
                FrameView { document: Map::empty(), names: texts(names@), next: 0 },
            ),
        ),
        Some(Listed::Missing) => if frames.len() == 0 {
            WalkerView { frames, phase: PhaseView::Done(Ok(Map::empty())) }
        } else {
            finish_entry(frames, Some((current_name(frames), ValueView::Object(Map::empty()))))
        },
        _ => if frames.len() == 0 {
            WalkerView { frames, phase: PhaseView::Done(Err(LoadError::RootUnreadable)) }
        } else {
            finish_entry(frames, None)
        },
    }
}

/// The walk after `kind` has answered a request to inspect the current entry.
pub open spec fn after_inspect(frames: Seq<FrameView>, kind: EntryKind) -> WalkerView {
    match kind {
        EntryKind::Directory => WalkerView { frames, phase: PhaseView::List },
        EntryKind::File => match data_key_of(current_name(frames)) {
            Some((_, format)) => WalkerView { frames, phase: PhaseView::Read(format) },
            None => finish_entry(frames, None),
        },
        _ => finish_entry(frames, None),
    }
}

/// The walk after `text` has answered a request to read the current entry,
/// which is to be taken in `format`.
pub open spec fn after_read(frames: Seq<FrameView>, format: Format, text: Option<String>) -> WalkerView {
    match text {
        Some(text) => match loaded_value(text@, format) {
            Some(value) => finish_entry(frames, Some((stem_of(current_name(frames)), value))),
            None => finish_entry(frames, None),
        },
        None => finish_entry(frames, None),
    }
}

/// The walk after one reply. A reply of another kind than the one asked for
/// counts as a failure of what was asked; a walk that is over stays as it is.
pub open spec fn step(walker: WalkerView, reply: Reply) -> WalkerView {
    match walker.phase {
        PhaseView::List => after_list(
            walker.frames,
            match reply {
                Reply::Listed(listed) => Some(listed),
                _ => None,
            },
        ),
        PhaseView::Inspect => after_inspect(
            walker.frames,
            match reply {
                Reply::Kind(kind) => kind,
                _ => EntryKind::Unknown,
            },
        ),
        PhaseView::Read(format) => after_read(
            walker.frames,
            format,
            match reply {
                Reply::Text(text) => text,
                _ => None,
            },
        ),
        PhaseView::Done(_) => walker,
    }
}

/// What there is to report after one reply.
pub open spec fn note_of(walker: WalkerView, reply: Reply) -> Note {
    match walker.phase {
        PhaseView::List => match reply {
            Reply::Listed(Listed::Names(_)) => Note::Nothing,
            Reply::Listed(Listed::Missing) => Note::MissingDirectory,
            _ => Note::UnreadableDirectory,
        },
        PhaseView::Inspect => match reply {
            Reply::Kind(EntryKind::Directory) => Note::Nothing,
            Reply::Kind(EntryKind::File) => Note::Nothing,
            Reply::Kind(EntryKind::Other) => Note::Nothing,
            _ => Note::UnknownEntry,
        },
        PhaseView::Read(format) => match reply {
            Reply::Text(Some(text)) => match loaded_value(text@, format) {
                Some(_) => Note::Loaded(format),
                None => Note::MalformedJson,
            },
            _ => Note::UnreadableFile,
        },
        PhaseView::Done(_) => Note::Nothing,
    }
}

/// A walk fails in one way only: the root was to be listed and the reply was
/// neither its entries nor that it is missing. Whatever is said of any other
/// entry, the walk goes on or ends with a document.
pub proof fn lemma_walk_fails_only_at_root(walker: WalkerView, reply: Reply)
    requires
        !(walker.phase is Done),
        step(walker, reply).phase matches PhaseView::Done(outcome) && outcome is Err,
    ensures
        walker.phase is List,
        walker.frames.len() == 0,
        !(reply matches Reply::Listed(listed) && (listed is Names || listed is Missing)),
{
    match walker.phase {
        PhaseView::List => {
            match reply {
                Reply::Listed(Listed::Names(names)) => {
                    lemma_settle_never_fails(
                        walker.frames.push(
                            FrameView { document: Map::empty(), names: texts(names@), next: 0 },
                        ),
                    );
                },
                Reply::Listed(Listed::Missing) => {
                    if walker.frames.len() > 0 {
                        lemma_settle_never_fails(
                            close_entry(
                                walker.frames,
                                Some(
                                    (
                                        current_name(walker.frames),
                                        ValueView::Object(Map::empty()),
                                    ),
                                ),
                            ),
                        );
                    }
                },
                _ => {
                    if walker.frames.len() > 0 {
                        lemma_settle_never_fails(close_entry(walker.frames, None));
                    }
                },
            }
        },
        PhaseView::Inspect => {
            lemma_settle_never_fails(close_entry(walker.frames, None));
        },
        PhaseView::Read(format) => {
            lemma_settle_never_fails(close_entry(walker.frames, None));
            match reply {
                Reply::Text(Some(text)) => {
                    match loaded_value(text@, format) {
                        Some(value) => {
                            lemma_settle_never_fails(
                                close_entry(
                                    walker.frames,
                                    Some((stem_of(current_name(walker.frames)), value)),
                                ),
                            );
                        },
                        None => {},
                    }
                },
                _ => {},
            }
        },
        PhaseView::Done(_) => {},
    }
}

/// The walk before anything was asked: the root is to be listed.
pub open spec fn start() -> WalkerView {
    WalkerView { frames: Seq::empty(), phase: PhaseView::List }
}

impl View for Frame {
    type V = FrameView;

    closed spec fn view(&self) -> FrameView {
        FrameView { document: self.document@, names: texts(self.names@), next: self.next as nat }
    }
}

/// The directories of a walk, taken one by one.
spec fn frame_views(frames: Seq<Frame>) -> Seq<FrameView> {
    Seq::new(frames.len(), |k: int| frames[k]@)
}

/// Every directory but the innermost is dealing with one of its entries.
spec fn outer_frames_busy(frames: Seq<Frame>) -> bool {
    forall|k: int| 0 <= k < frames.len() - 1 ==> (#[trigger] frames[k]).next < frames[k].names.len()
}

/// Every directory is dealing with one of its entries.
spec fn frames_busy(frames: Seq<Frame>) -> bool {
    forall|k: int| 0 <= k < frames.len() ==> (#[trigger] frames[k]).next < frames[k].names.len()
}

/// What is to enter a document, apart from how it is stored.
spec fn put_view(put: Option<(String, ContextValue)>) -> Option<(Seq<char>, ValueView)> {
    match put {
        Some((key, value)) => Some((key@, value@)),
        None => None,
    }
}

impl View for Phase {
    type V = PhaseView;

    closed spec fn view(&self) -> PhaseView {
        match self {
            Phase::List => PhaseView::List,
            Phase::Inspect => PhaseView::Inspect,
            Phase::Read(format) => PhaseView::Read(*format),
            Phase::Done(Ok(document)) => PhaseView::Done(Ok(document@)),
            Phase::Done(Err(error)) => PhaseView::Done(Err(*error)),
        }
    }
}

impl View for Walker {
    type V = WalkerView;

    closed spec fn view(&self) -> WalkerView {
        WalkerView { frames: frame_views(self.frames@), phase: self.phase@ }
    }
}

/// A copy of the name of the current entry.
fn name_of_current(frames: &Vec<Frame>) -> (name: String)
    requires
        frames.len() > 0,
        frames_busy(frames@),
    ensures
        name@ == current_name(frame_views(frames@)),
{
    let top = &frames[frames.len() - 1];
    top.names[top.next].clone()
}

/// Leaves the directories that are done with, as `settle` says.
fn settle_frames(frames: Vec<Frame>) -> (walker: Walker)
    requires
        frames.len() > 0,
        outer_frames_busy(frames@),
        frames@.last().next <= frames@.last().names.len(),
    ensures
        walker@ == settle(frame_views(frames@)),
{
    let mut stack = frames;
    loop
        invariant
            stack.len() > 0,
            outer_frames_busy(stack@),
            stack@.last().next <= stack@.last().names.len(),
            settle(frame_views(stack@)) == settle(frame_views(frames@)),
        decreases stack.len(),
    {
        let innermost = &stack[stack.len() - 1];
        if innermost.next < innermost.names.len() {
            return Walker { frames: stack, phase: Phase::Inspect };
        }
        let ghost before = stack@;
        let top = stack.pop().unwrap();
        if stack.len() == 0 {
            proof {
                assert(frame_views(stack@) =~= Seq::<FrameView>::empty());
            }
            return Walker { frames: stack, phase: Phase::Done(Ok(top.document)) };
        }
        let ghost outer = stack@;
        assert(frame_views(outer) =~= frame_views(before).drop_last());
        let key = name_of_current(&stack);
        let mut parent = stack.pop().unwrap();
        parent.document.insert(key, ContextValue::Object(top.document));
        parent.next = parent.next + 1;
        stack.push(parent);
        proof {
            assert(frame_views(stack@) =~= close_entry(
                frame_views(outer),
                Some((current_name(frame_views(outer)), ValueView::Object(top.document@))),
            ));
        }
    }
}

/// Ends the dealing with the current entry, as `finish_entry` says.
fn finish_current(frames: Vec<Frame>, put: Option<(String, ContextValue)>) -> (walker: Walker)
    requires
        frames.len() > 0,
        frames_busy(frames@),
    ensures
        walker@ == finish_entry(frame_views(frames@), put_view(put)),
{
    let mut stack = frames;
    let mut top = stack.pop().unwrap();
    match put {
        Some((key, value)) => {
            top.document.insert(key, value);
        },
        None => {},
    }
    top.next = top.next + 1;
    stack.push(top);
    proof {
        assert(frame_views(stack@) =~= close_entry(frame_views(frames@), put_view(put)));
    }
    settle_frames(stack)
}

impl Walker {
    #[verifier::type_invariant]
    spec fn well_formed(&self) -> bool {
        &&& frames_busy(self.frames@)
        &&& (self.phase is Inspect || self.phase is Read) ==> self.frames@.len() > 0
        &&& self.phase is Done ==> self.frames@.len() == 0
    }

    /// A walk that has not begun: its first request is for the root's listing.
    pub fn new() -> (walker: Walker)
        ensures
            walker@ == start(),
    {
        let walker = Walker { frames: Vec::new(), phase: Phase::List };
        proof {
            assert(walker@.frames =~= Seq::<FrameView>::empty());
        }
        walker
    }

    /// Whether the walk is over.
    pub fn is_done(&self) -> (done: bool)
        ensures
            done == (self@.phase is Done),
    {
        match self.phase {
            Phase::Done(_) => true,
            _ => false,
        }
    }

    /// How many directories the walk has entered and not yet left.
    pub fn depth(&self) -> (depth: usize)
        ensures
            depth == self@.frames.len(),
    {
        self.frames.len()
    }

    /// The path from the root to the current entry.
    fn path(&self) -> (path: Vec<String>)
        ensures
            texts(path@) == current_path(self@.frames),
    {
        proof {
            use_type_invariant(self);
        }
        let mut path: Vec<String> = Vec::new();
        let mut k: usize = 0;
        while k < self.frames.len()
            invariant
                k <= self.frames.len(),
                frames_busy(self.frames@),
                path.len() == k,
                forall|j: int|
                    0 <= j < k ==> path[j]@ == self.frames[j].names[self.frames[j].next as int]@,
            decreases self.frames.len() - k,
        {
            let frame = &self.frames[k];
            path.push(frame.names[frame.next].clone());
            k += 1;
        }
        proof {
            assert(texts(path@) =~= current_path(self@.frames));
        }
        path
    }

    /// What the walker needs to know next.
    pub fn request(&self) -> (request: Request)
        ensures
            match request {
                Request::List(path) => self@.phase is List && texts(path@) == current_path(
                    self@.frames,
                ),
                Request::Inspect(path) => self@.phase is Inspect && texts(path@) == current_path(
                    self@.frames,
                ),
                Request::Read(path) => self@.phase is Read && texts(path@) == current_path(
                    self@.frames,
                ),
                Request::Done => self@.phase is Done,
            },
    {
        match self.phase {
            Phase::List => Request::List(self.path()),
            Phase::Inspect => Request::Inspect(self.path()),
            Phase::Read(_) => Request::Read(self.path()),
            Phase::Done(_) => Request::Done,
        }
    }

    /// Takes the answer to the last request and decides what becomes of it.
    /// Returns what there is to report about the entry that was answered for.
    pub fn advance(&mut self, reply: Reply) -> (note: Note)
        ensures
            final(self)@ == step(old(self)@, reply),
            note == note_of(old(self)@, reply),
    {
        let mut taken = Walker::new();
        std::mem::swap(self, &mut taken);
        proof {
            use_type_invariant(&taken);
        }
        let Walker { frames, phase } = taken;
        let (next, note) = match phase {
            Phase::List => {
                match reply {
                    Reply::Listed(Listed::Names(names)) => {
                        let mut frames = frames;
                        let ghost outer = frames@;
                        frames.push(Frame { document: Document::new(), names, next: 0 });
                        proof {
                            assert(frame_views(frames@) =~= frame_views(outer).push(
                                FrameView { document: Map::empty(), names: texts(names@), next: 0 },
                            ));
                        }
                        (settle_frames(frames), Note::Nothing)
                    },
                    Reply::Listed(Listed::Missing) => {
                        if frames.len() == 0 {
                            (
                                Walker { frames, phase: Phase::Done(Ok(Document::new())) },
                                Note::MissingDirectory,
                            )
                        } else {
                            let key = name_of_current(&frames);
                            let nested = ContextValue::Object(Document::new());
                            (finish_current(frames, Some((key, nested))), Note::MissingDirectory)
                        }
                    },
                    _ => {
                        if frames.len() == 0 {
                            (
                                Walker { frames, phase: Phase::Done(Err(LoadError::RootUnreadable)) },
                                Note::UnreadableDirectory,
                            )
                        } else {
                            (finish_current(frames, None), Note::UnreadableDirectory)
                        }
                    },
                }
            },
            Phase::Inspect => {
                match reply {
                    Reply::Kind(EntryKind::Directory) => (
                        Walker { frames, phase: Phase::List },
                        Note::Nothing,
                    ),
                    Reply::Kind(EntryKind::File) => {
                        let name = name_of_current(&frames);
                        match data_key(name.as_str()) {
                            Some((_, format)) => (
                                Walker { frames, phase: Phase::Read(format) },
                                Note::Nothing,
                            ),
                            None => (finish_current(frames, None), Note::Nothing),
                        }
                    },
                    Reply::Kind(EntryKind::Other) => (finish_current(frames, None), Note::Nothing),
                    _ => (finish_current(frames, None), Note::UnknownEntry),
                }
            },
            Phase::Read(format) => {
                match reply {
                    Reply::Text(Some(text)) => {
                        let name = name_of_current(&frames);
                        match load_value(text, format) {
                            Some(value) => {
                                let key = file_stem(name.as_str());
                                (finish_current(frames, Some((key, value))), Note::Loaded(format))
                            },
                            None => (finish_current(frames, None), Note::MalformedJson),
                        }
                    },
                    _ => (finish_current(frames, None), Note::UnreadableFile),
                }
            },
            Phase::Done(outcome) => (Walker { frames, phase: Phase::Done(outcome) }, Note::Nothing),
        };
        *self = next;
        note
    }

    /// The outcome of a walk that is over: the document, or why there is
    /// none. `None` while the walk is still under way.
    pub fn finish(self) -> (outcome: Option<Result<Document, LoadError>>)
        ensures
            match outcome {
                Some(Ok(document)) => self@.phase == PhaseView::Done(Ok(document@)),
                Some(Err(error)) => self@.phase == PhaseView::Done(Err(error)),
                None => !(self@.phase is Done),
            },
    {
        match self.phase {
            Phase::Done(outcome) => Some(outcome),
            _ => None,
        }
    }
}

/// Takes the text of a file into the context in the given format: a text
/// file gives its text, a JSON file the value it parses to. `None` for a JSON
/// file whose text is not valid JSON.
pub fn load_value(text: String, format: Format) -> (value: Option<ContextValue>)
    ensures
        value is Some <==> loaded_value(text@, format) is Some,
        value matches Some(loaded) ==> Some(loaded@) == loaded_value(text@, format),
{
    match format {
        Format::Text => Some(ContextValue::String(text)),
        Format::Json => match parse_json(text.as_str()) {
            Some(json) => Some(ContextValue::Json(json)),
            None => None,
        },
    }
}

} // verus!
