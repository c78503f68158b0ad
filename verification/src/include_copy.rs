//! Copying the files that `.worktreeinclude` selects into a new worktree: what to do next, and
//! what the outcome leads to. Nothing that is there already is replaced.
use vstd::prelude::*;

use crate::creation;
use crate::include_matcher;
use crate::include_matcher::IncludeMatcher;
use crate::path;
use crate::path::{join_text, TreePath};
use crate::scan_roots;
use crate::scan_roots::worktree_include_scan_roots;
use crate::text;
use crate::text::same;

verus! {

/// The file that names what to copy into a new worktree.
pub const WORKTREE_INCLUDE_FILE: &'static str = ".worktreeinclude";

/// What is known of a file.
#[derive(Clone, Copy, Debug, PartialEq, Eq, Structural)]
pub struct FileMetadata {
    pub is_dir: bool,
    pub is_symlink: bool,
    pub is_fifo: bool,
}

/// How a file is copied.
#[derive(Clone, Copy, Debug, PartialEq, Eq, Structural)]
pub enum EntryKind {
    Symlink,
    Directory,
    Fifo,
    File,
}

/// How a file is copied, going by what is known of it.
pub open spec fn entry_kind(metadata: FileMetadata) -> EntryKind {
    if metadata.is_symlink {
        EntryKind::Symlink
    } else if metadata.is_dir {
        EntryKind::Directory
    } else if metadata.is_fifo {
        EntryKind::Fifo
    } else {
        EntryKind::File
    }
}

fn kind_of(metadata: FileMetadata) -> (result: EntryKind)
    ensures
        result == entry_kind(metadata),
{
    if metadata.is_symlink {
        EntryKind::Symlink
    } else if metadata.is_dir {
        EntryKind::Directory
    } else if metadata.is_fifo {
        EntryKind::Fifo
    } else {
        EntryKind::File
    }
}

/// A file that is selected: the text of its path, and its path within the worktree.
pub struct CopyEntry {
    path: String,
    relative: TreePath,
    kind: EntryKind,
    is_dir: bool,
}

/// The contents of a `CopyEntry`.
#[verifier::ext_equal]
pub struct EntryContents {
    pub path: Seq<char>,
    pub relative: Seq<char>,
    pub kind: EntryKind,
    pub is_dir: bool,
}

impl View for CopyEntry {
    type V = EntryContents;

    closed spec fn view(&self) -> EntryContents {
        EntryContents {
            path: self.path@,
            relative: self.relative@,
            kind: self.kind,
            is_dir: self.is_dir,
        }
    }
}

impl Clone for CopyEntry {
    fn clone(&self) -> (result: Self)
        ensures
            result@ == self@,
    {
        CopyEntry {
            path: self.path.clone(),
            relative: self.relative.clone(),
            kind: self.kind,
            is_dir: self.is_dir,
        }
    }
}

/// How far the copying has come.
pub enum CopyStage {
    /// Whether there is a `.worktreeinclude` is looked up.
    LookUp,
    /// The `.worktreeinclude` is read.
    Load,
    /// What is known of a file is looked up.
    Inspect(String),
    /// What stands in the place of a selected file is looked up.
    Probe(CopyEntry),
    /// What stands in the place of a directory above a selected file is looked up.
    Parent(CopyEntry, usize),
    /// A directory above a selected file is created.
    MakeParent(CopyEntry, usize),
    /// Where a selected symbolic link leads is read.
    ReadLink(CopyEntry),
    /// A selected file is copied, or a link or directory created.
    Place(CopyEntry, Option<String>),
    /// The entries of a directory are listed.
    List(String),
    /// Everything was copied, or why not.
    Finished(Result<(), String>),
}

/// The contents of a `CopyStage`.
pub enum CopyContents {
    LookUp,
    Load,
    Inspect(Seq<char>),
    Probe(EntryContents),
    Parent(EntryContents, int),
    MakeParent(EntryContents, int),
    ReadLink(EntryContents),
    Place(EntryContents, Option<Seq<char>>),
    List(Seq<char>),
    Finished(Result<(), Seq<char>>),
}

impl View for CopyStage {
    type V = CopyContents;

    open spec fn view(&self) -> CopyContents {
        match *self {
            CopyStage::LookUp => CopyContents::LookUp,
            CopyStage::Load => CopyContents::Load,
            CopyStage::Inspect(path) => CopyContents::Inspect(path@),
            CopyStage::Probe(entry) => CopyContents::Probe(entry@),
            CopyStage::Parent(entry, depth) => CopyContents::Parent(entry@, depth as int),
            CopyStage::MakeParent(entry, depth) => CopyContents::MakeParent(entry@, depth as int),
            CopyStage::ReadLink(entry) => CopyContents::ReadLink(entry@),
            CopyStage::Place(entry, target) => CopyContents::Place(
                entry@,
                text::string_option(target),
            ),
            CopyStage::List(path) => CopyContents::List(path@),
            CopyStage::Finished(Ok(_)) => CopyContents::Finished(Ok(())),
            CopyStage::Finished(Err(message)) => CopyContents::Finished(Err(message@)),
        }
    }
}

/// What came of what was to be done.
pub enum CopyEvent {
    /// Whether there is a file.
    IsFile(bool),
    /// What a file holds.
    Contents(String),
    /// What is known of a file, if it is there.
    Metadata(Option<FileMetadata>),
    /// Where a symbolic link leads.
    LinkTarget(String),
    /// The names of the entries of a directory.
    Entries(Vec<String>),
    /// It was done.
    Done,
    /// It failed, with what was said of it.
    Failed(String),
}

/// The contents of a `CopyEvent`.
pub enum EventContents {
    IsFile(bool),
    Contents(Seq<char>),
    Metadata(Option<FileMetadata>),
    LinkTarget(Seq<char>),
    Entries(Seq<Seq<char>>),
    Done,
    Failed(Seq<char>),
}

impl View for CopyEvent {
    type V = EventContents;

    open spec fn view(&self) -> EventContents {
        match *self {
            CopyEvent::IsFile(found) => EventContents::IsFile(found),
            CopyEvent::Contents(contents) => EventContents::Contents(contents@),
            CopyEvent::Metadata(metadata) => EventContents::Metadata(metadata),
            CopyEvent::LinkTarget(target) => EventContents::LinkTarget(target@),
            CopyEvent::Entries(names) => EventContents::Entries(text::strings(names@)),
            CopyEvent::Done => EventContents::Done,
            CopyEvent::Failed(message) => EventContents::Failed(message@),
        }
    }
}

/// Whether all of `names` can name an entry of a directory: none is empty or holds a slash.
pub open spec fn are_names(names: Seq<Seq<char>>) -> bool {
    forall|i: int| 0 <= i < names.len() ==> path::is_component(#[trigger] names[i])
}

/// What is to be done next. Each path is a text.
#[derive(Debug, PartialEq, Eq)]
pub enum CopyAction {
    /// Look up whether there is a file.
    IsFile(String),
    /// Read a file.
    Load(String),
    /// Look up what is known of a file.
    ReadMetadata(String),
    /// Read where a symbolic link leads.
    ReadLink(String),
    /// Create a directory.
    CreateDirectory(String),
    /// Create a symbolic link.
    CreateSymlink { path: String, target: String },
    /// Copy a file, unless something stands in its place.
    CopyFile { from: String, to: String },
    /// List the entries of a directory.
    ReadDirectory(String),
}

/// The contents of a `CopyAction`.
pub enum ActionContents {
    IsFile(Seq<char>),
    Load(Seq<char>),
    ReadMetadata(Seq<char>),
    ReadLink(Seq<char>),
    CreateDirectory(Seq<char>),
    CreateSymlink { path: Seq<char>, target: Seq<char> },
    CopyFile { from: Seq<char>, to: Seq<char> },
    ReadDirectory(Seq<char>),
}

impl View for CopyAction {
    type V = ActionContents;

    open spec fn view(&self) -> ActionContents {
        match *self {
            CopyAction::IsFile(path) => ActionContents::IsFile(path@),
            CopyAction::Load(path) => ActionContents::Load(path@),
            CopyAction::ReadMetadata(path) => ActionContents::ReadMetadata(path@),
            CopyAction::ReadLink(path) => ActionContents::ReadLink(path@),
            CopyAction::CreateDirectory(path) => ActionContents::CreateDirectory(path@),
            CopyAction::CreateSymlink { path, target } => ActionContents::CreateSymlink {
                path: path@,
                target: target@,
            },
            CopyAction::CopyFile { from, to } => ActionContents::CopyFile { from: from@, to: to@ },
            CopyAction::ReadDirectory(path) => ActionContents::ReadDirectory(path@),
        }
    }
}

/// The state of the copying: what is still to be looked at, how far it has come, and the patterns
/// of the `.worktreeinclude` once they were read.
#[verifier::ext_equal]
pub struct CopyState {
    pub pending: Seq<Seq<char>>,
    pub stage: CopyContents,
    pub patterns: Option<Seq<Seq<char>>>,
}

/// The start of the copying.
pub open spec fn copy_start() -> CopyState {
    CopyState { pending: Seq::empty(), stage: CopyContents::LookUp, patterns: None }
}

/// From where to where is copied.
#[verifier::ext_equal]
pub struct CopyPlan {
    pub source_root: Seq<char>,
    pub destination_root: Seq<char>,
}

/// The texts of the paths that `names` name from `base` on.
pub open spec fn joined_texts(base: Seq<char>, names: Seq<Seq<char>>) -> Seq<Seq<char>> {
    names.map_values(|name: Seq<char>| path::joined_text(base, name))
}

/// The text of the path that `components` lead to from `base` on, one after the other.
pub open spec fn descended(base: Seq<char>, components: Seq<Seq<char>>) -> Seq<char>
    decreases components.len(),
{
    if components.len() == 0 {
        base
    } else {
        path::joined_text(descended(base, components.drop_last()), components.last())
    }
}

impl CopyPlan {
    /// The path of the `.worktreeinclude`.
    pub open spec fn include_path(self) -> Seq<char> {
        path::joined_text(self.source_root, WORKTREE_INCLUDE_FILE@)
    }

    /// The place of a selected file in the new worktree.
    pub open spec fn destination(self, relative: Seq<char>) -> Seq<char> {
        path::joined_text(self.destination_root, relative)
    }

    /// The directory in the new worktree that the first `depth` components of the path of a
    /// selected file lead to.
    pub open spec fn parent_destination(self, relative: Seq<char>, depth: int) -> Seq<char> {
        descended(self.destination_root, path::components_of(relative).take(depth))
    }

    /// Whether a file lies in the new worktree.
    pub open spec fn lies_in_destination(self, file: Seq<char>) -> bool {
        path::is_under(file, self.destination_root)
    }

    /// Whether a file is selected.
    pub open spec fn is_selected(
        self,
        patterns: Seq<Seq<char>>,
        file: Seq<char>,
        is_dir: bool,
    ) -> bool {
        include_matcher::includes(self.source_root, patterns, file, is_dir)
    }

    /// The state in which the next pending path is looked at. What lies in the new worktree is
    /// passed over.
    pub open spec fn resumed(self, pending: Seq<Seq<char>>, patterns: Option<Seq<Seq<char>>>) -> CopyState
        decreases pending.len(),
    {
        if pending.len() == 0 {
            CopyState { pending, stage: CopyContents::Finished(Ok(())), patterns }
        } else if self.lies_in_destination(pending.last()) {
            self.resumed(pending.drop_last(), patterns)
        } else {
            CopyState {
                pending: pending.drop_last(),
                stage: CopyContents::Inspect(pending.last()),
                patterns,
            }
        }
    }

    /// The state after the `.worktreeinclude` was read.
    pub open spec fn loaded(self, contents: Seq<char>) -> CopyState {
        match include_matcher::matcher_error(contents) {
            Some(message) => CopyState {
                pending: Seq::empty(),
                stage: CopyContents::Finished(Err(message)),
                patterns: None,
            },
            None => match scan_roots::scan_roots(contents) {
                None => CopyState {
                    pending: Seq::empty(),
                    stage: CopyContents::Finished(
                        Err(".worktreeinclude patterns cannot leave the worktree root"@),
                    ),
                    patterns: None,
                },
                Some(roots) => self.resumed(
                    joined_texts(self.source_root, roots),
                    Some(include_matcher::patterns_of(text::line_texts(contents))),
                ),
            },
        }
    }

    /// The state after what is known of a pending path was looked up.
    pub open spec fn inspected(
        self,
        state: CopyState,
        file: Seq<char>,
        metadata: Option<FileMetadata>,
    ) -> CopyState {
        match metadata {
            None => self.resumed(state.pending, state.patterns),
            Some(known) => {
                let relative = path::stripped_text(file, path::depth_of(self.source_root));
                let parts = path::components_of(relative);
                if !path::is_under(file, self.source_root) {
                    CopyState {
                        stage: CopyContents::Finished(
                            Err(
                                file + " is outside worktree root "@
                                    + self.source_root + ": prefix not found"@,
                            ),
                        ),
                        ..state
                    }
                } else if parts.len() > 0 && parts[0] == ".git"@ {
                    self.resumed(state.pending, state.patterns)
                } else if self.is_selected(state.patterns->0, file, known.is_dir) {
                    CopyState {
                        stage: CopyContents::Probe(
                            EntryContents {
                                path: file,
                                relative,
                                kind: entry_kind(known),
                                is_dir: known.is_dir,
                            },
                        ),
                        ..state
                    }
                } else if entry_kind(known) == EntryKind::Directory {
                    CopyState { stage: CopyContents::List(file), ..state }
                } else {
                    self.resumed(state.pending, state.patterns)
                }
            },
        }
    }

    /// The state after a selected file was dealt with: a directory is listed.
    pub open spec fn dealt_with(self, state: CopyState, entry: EntryContents) -> CopyState {
        if entry.kind == EntryKind::Directory {
            CopyState { stage: CopyContents::List(entry.path), ..state }
        } else {
            self.resumed(state.pending, state.patterns)
        }
    }

    /// The state after `depth` of the directories above a selected file are there.
    pub open spec fn with_parents(
        self,
        state: CopyState,
        entry: EntryContents,
        depth: int,
    ) -> CopyState {
        CopyState {
            stage: if depth + 1 < path::depth_of(entry.relative) {
                CopyContents::Parent(entry, depth + 1)
            } else if entry.kind == EntryKind::Symlink {
                CopyContents::ReadLink(entry)
            } else {
                CopyContents::Place(entry, None)
            },
            ..state
        }
    }

    /// The state after what stands in the place of a selected file was looked up.
    pub open spec fn probed(
        self,
        state: CopyState,
        entry: EntryContents,
        metadata: Option<FileMetadata>,
    ) -> CopyState {
        if metadata is Some {
            self.dealt_with(state, entry)
        } else if entry.kind == EntryKind::Fifo {
            CopyState {
                stage: CopyContents::Finished(
                    Err(
                        "Cannot copy FIFO "@ + entry.path + " selected by "@
                            + self.include_path(),
                    ),
                ),
                ..state
            }
        } else {
            self.with_parents(state, entry, 0)
        }
    }

    /// The state after what stands in the place of a directory above a selected file was looked
    /// up.
    pub open spec fn parent_found(
        self,
        state: CopyState,
        entry: EntryContents,
        depth: int,
        metadata: Option<FileMetadata>,
    ) -> CopyState {
        match metadata {
            Some(known) => if known.is_dir {
                self.with_parents(state, entry, depth)
            } else {
                CopyState {
                    stage: CopyContents::Finished(
                        Err(
                            "Cannot create worktree setup directory because "@
                                + self.parent_destination(entry.relative, depth)
                                + " is not a directory"@,
                        ),
                    ),
                    ..state
                }
            },
            None => CopyState { stage: CopyContents::MakeParent(entry, depth), ..state },
        }
    }

    /// What to tell where what was to be done failed.
    pub open spec fn failure(self, stage: CopyContents, message: Seq<char>) -> Seq<char> {
        match stage {
            CopyContents::Load => "loading "@ + self.include_path() + ": "@ + message,
            CopyContents::Inspect(file) => "reading metadata for "@ + file + ": "@ + message,
            CopyContents::MakeParent(entry, depth) => "creating "@ + self.parent_destination(
                entry.relative,
                depth,
            ) + ": "@ + message,
            CopyContents::ReadLink(entry) => "reading symlink "@ + entry.path + ": "@ + message,
            CopyContents::Place(entry, target) => if target is Some {
                "copying symlink "@ + entry.path + ": "@ + message
            } else if entry.kind == EntryKind::Directory {
                "creating "@ + self.destination(entry.relative) + ": "@ + message
            } else {
                "copying "@ + entry.path + " to "@ + self.destination(entry.relative) + ": "@
                    + message
            },
            CopyContents::List(file) => "reading "@ + file + ": "@ + message,
            _ => message,
        }
    }

    /// The state that an event leads to. One that is not about what was to be done changes
    /// nothing.
    pub open spec fn next(self, state: CopyState, event: EventContents) -> CopyState {
        match (state.stage, event) {
            (CopyContents::Finished(_), _) => state,
            (stage, EventContents::Failed(message)) => CopyState {
                stage: CopyContents::Finished(Err(self.failure(stage, message))),
                ..state
            },
            (CopyContents::LookUp, EventContents::IsFile(found)) => CopyState {
                stage: if found {
                    CopyContents::Load
                } else {
                    CopyContents::Finished(Ok(()))
                },
                ..state
            },
            (CopyContents::Load, EventContents::Contents(contents)) => self.loaded(contents),
            (CopyContents::Inspect(file), EventContents::Metadata(metadata)) => self.inspected(
                state,
                file,
                metadata,
            ),
            (CopyContents::Probe(entry), EventContents::Metadata(metadata)) => self.probed(
                state,
                entry,
                metadata,
            ),
            (CopyContents::Parent(entry, depth), EventContents::Metadata(metadata)) =>
                self.parent_found(state, entry, depth, metadata),
            (CopyContents::MakeParent(entry, depth), EventContents::Done) => self.with_parents(
                state,
                entry,
                depth,
            ),
            (CopyContents::ReadLink(entry), EventContents::LinkTarget(target)) => CopyState {
                stage: CopyContents::Place(entry, Some(target)),
                ..state
            },
            (CopyContents::Place(entry, _), EventContents::Done) => self.dealt_with(state, entry),
            (CopyContents::List(file), EventContents::Entries(names)) => self.resumed(
                state.pending + joined_texts(file, names),
                state.patterns,
            ),
            _ => state,
        }
    }

    /// What is to be done at a stage.
    pub open spec fn action(self, stage: CopyContents) -> Option<ActionContents> {
        match stage {
            CopyContents::LookUp => Some(
                ActionContents::IsFile(self.include_path()),
            ),
            CopyContents::Load => Some(ActionContents::Load(self.include_path())),
            CopyContents::Inspect(file) => Some(
                ActionContents::ReadMetadata(file),
            ),
            CopyContents::Probe(entry) => Some(
                ActionContents::ReadMetadata(self.destination(entry.relative)),
            ),
            CopyContents::Parent(entry, depth) => Some(
                ActionContents::ReadMetadata(
                    self.parent_destination(entry.relative, depth),
                ),
            ),
            CopyContents::MakeParent(entry, depth) => Some(
                ActionContents::CreateDirectory(
                    self.parent_destination(entry.relative, depth),
                ),
            ),
            CopyContents::ReadLink(entry) => Some(
                ActionContents::ReadLink(entry.path),
            ),
            CopyContents::Place(entry, target) => Some(
                match target {
                    Some(target) => ActionContents::CreateSymlink {
                        path: self.destination(entry.relative),
                        target,
                    },
                    None => if entry.kind == EntryKind::Directory {
                        ActionContents::CreateDirectory(
                            self.destination(entry.relative),
                        )
                    } else {
                        ActionContents::CopyFile {
                            from: entry.path,
                            to: self.destination(entry.relative),
                        }
                    },
                },
            ),
            CopyContents::List(file) => Some(ActionContents::ReadDirectory(file)),
            CopyContents::Finished(_) => None,
        }
    }

    /// Whether a file may be copied: it lies in the source and not in the new worktree, is not
    /// Git's own, and is selected.
    pub open spec fn may_copy(self, patterns: Option<Seq<Seq<char>>>, entry: EntryContents) -> bool {
        let parts = path::components_of(entry.relative);
        &&& include_matcher::is_within(self.source_root, entry.path)
        &&& path::is_under(entry.path, self.source_root)
        &&& !self.lies_in_destination(entry.path)
        &&& entry.relative == path::stripped_text(entry.path, path::depth_of(self.source_root))
        &&& parts.len() > 0 ==> parts[0] != ".git"@
        &&& patterns matches Some(listed) && self.is_selected(listed, entry.path, entry.is_dir)
    }

    /// Whether all of `files` are in the source, going by their texts.
    pub open spec fn all_within(self, files: Seq<Seq<char>>) -> bool {
        forall|i: int|
            0 <= i < files.len() ==> include_matcher::is_within(
                self.source_root,
                #[trigger] files[i],
            )
    }

    /// Whether a state can be reached: whatever is copied may be copied.
    pub open spec fn valid(self, state: CopyState) -> bool {
        &&& self.all_within(state.pending)
        &&& match state.stage {
            CopyContents::LookUp | CopyContents::Load | CopyContents::Finished(_) => true,
            CopyContents::Inspect(file) => state.patterns is Some && include_matcher::is_within(
                self.source_root,
                file,
            ) && !self.lies_in_destination(file),
            CopyContents::Probe(entry) => self.may_copy(state.patterns, entry),
            CopyContents::Parent(entry, depth) => self.may_copy(state.patterns, entry) && 1 <= depth
                < path::depth_of(entry.relative) && entry.kind != EntryKind::Fifo,
            CopyContents::MakeParent(entry, depth) => self.may_copy(state.patterns, entry) && 1
                <= depth < path::depth_of(entry.relative) && entry.kind != EntryKind::Fifo,
            CopyContents::ReadLink(entry) => self.may_copy(state.patterns, entry) && entry.kind
                == EntryKind::Symlink,
            CopyContents::Place(entry, target) => self.may_copy(state.patterns, entry)
                && entry.kind != EntryKind::Fifo && (target is Some <==> entry.kind
                == EntryKind::Symlink),
            CopyContents::List(file) => state.patterns is Some && include_matcher::is_within(
                self.source_root,
                file,
            ),
        }
    }
}

proof fn lemma_resumed_valid(
    plan: CopyPlan,
    pending: Seq<Seq<char>>,
    patterns: Option<Seq<Seq<char>>>,
)
    requires
        plan.all_within(pending),
        patterns is Some,
    ensures
        plan.valid(plan.resumed(pending, patterns)),
    decreases pending.len(),
{
    if pending.len() > 0 {
        assert(include_matcher::is_within(plan.source_root, pending[pending.len() - 1]));
        assert forall|i: int| 0 <= i < pending.drop_last().len() implies include_matcher::is_within(
            plan.source_root,
            #[trigger] pending.drop_last()[i],
        ) by {
            assert(include_matcher::is_within(plan.source_root, pending[i]));
        }
        if plan.lies_in_destination(pending.last()) {
            lemma_resumed_valid(plan, pending.drop_last(), patterns);
        }
    }
}

/// What is joined to a file in the source is in the source.
proof fn lemma_joined_within(root: Seq<char>, base: Seq<char>, rest: Seq<char>)
    requires
        include_matcher::is_within(root, base),
        !path::is_rooted(rest),
        path::has_no_double_slash(rest),
    ensures
        include_matcher::is_within(root, path::joined_text(base, rest)),
{
    let whole = path::joined_text(base, rest);
    let n = root.len() as int;
    assert(base.take(n) =~= root);
    if base.len() > 0 {
        let inner = base.skip(n);
        let outer = whole.skip(n);
        let m = inner.len() as int;
        let shift: int = if base.last() == '/' {
            0
        } else {
            1
        };
        assert(forall|i: int| 0 <= i < base.len() ==> whole[i] == base[i]);
        assert(forall|i: int| 0 <= i < m ==> outer[i] == inner[i]);
        assert(forall|i: int| 0 <= i < rest.len() ==> outer[m + shift + i] == rest[i]);
        assert(shift == 1 ==> outer[m] == '/' && whole[base.len() as int] == '/');
        assert(whole.take(n) =~= root);
        assert(m > 0 ==> inner.last() == base.last());
        assert forall|i: int| 0 <= i < outer.len() - 1 implies !(#[trigger] outer[i] == '/'
            && outer[i + 1] == '/') by {
            if i + 1 < m {
                assert(outer[i] == inner[i] && outer[i + 1] == inner[i + 1]);
            } else if i >= m + shift {
                assert(outer[i] == rest[i - m - shift] && outer[i + 1] == rest[i + 1 - m - shift]);
            } else if i == m - 1 {
                assert(outer[i] == inner.last());
                if shift == 0 {
                    assert(outer[i + 1] == rest[0]);
                }
            } else {
                assert(outer[i + 1] == rest[0]);
            }
        }
    } else {
        assert(whole.skip(0) =~= rest);
        assert(whole.take(0) =~= root);
    }
}

proof fn lemma_source_within(root: Seq<char>)
    ensures
        include_matcher::is_within(root, root),
{
    assert(root.take(root.len() as int) =~= root);
}

proof fn lemma_loaded_valid(plan: CopyPlan, contents: Seq<char>)
    ensures
        plan.valid(plan.loaded(contents)),
{
    if let Some(roots) = scan_roots::scan_roots(contents) {
        let pending = joined_texts(plan.source_root, roots);
        assert forall|i: int| 0 <= i < pending.len() implies include_matcher::is_within(
            plan.source_root,
            #[trigger] pending[i],
        ) by {
            scan_roots::scan_roots_stay_inside(contents, i);
            let parts = choose|parts: Seq<Seq<char>>| #[trigger]
                scan_roots::stays_inside(parts) && roots[i] == text::joined(parts, seq!['/']);
            scan_roots::lemma_inside_text(parts);
            lemma_source_within(plan.source_root);
            lemma_joined_within(plan.source_root, plan.source_root, roots[i]);
        }
        lemma_resumed_valid(
            plan,
            pending,
            Some(include_matcher::patterns_of(text::line_texts(contents))),
        );
    }
}

/// Whatever happens, only what may be copied is copied: a file of the source that the patterns
/// select, that is not Git's own, and that does not lie in the new worktree.
pub proof fn only_selected_files_are_copied(plan: CopyPlan, state: CopyState, event: EventContents)
    requires
        plan.valid(state),
        event matches EventContents::Entries(names) ==> are_names(names),
    ensures
        plan.valid(plan.next(state, event)),
{
    match (state.stage, event) {
        (CopyContents::Load, EventContents::Contents(contents)) => {
            lemma_loaded_valid(plan, contents);
        },
        (CopyContents::Inspect(_), EventContents::Metadata(_)) => {
            lemma_resumed_valid(plan, state.pending, state.patterns);
        },
        (CopyContents::Probe(_), EventContents::Metadata(_)) => {
            lemma_resumed_valid(plan, state.pending, state.patterns);
        },
        (CopyContents::Place(_, _), EventContents::Done) => {
            lemma_resumed_valid(plan, state.pending, state.patterns);
        },
        (CopyContents::List(file), EventContents::Entries(names)) => {
            let listed = joined_texts(file, names);
            let pending = state.pending + listed;
            assert forall|i: int| 0 <= i < pending.len() implies include_matcher::is_within(
                plan.source_root,
                #[trigger] pending[i],
            ) by {
                if i < state.pending.len() {
                    assert(pending[i] == state.pending[i]);
                } else {
                    let name = names[i - state.pending.len()];
                    assert(path::is_component(name));
                    assert(pending[i] == path::joined_text(file, name));
                    lemma_joined_within(plan.source_root, file, name);
                }
            }
            lemma_resumed_valid(plan, pending, state.patterns);
        },
        _ => {},
    }
}

/// The file that is being put in its place at a stage.
pub open spec fn entry_in_work(stage: CopyContents) -> Option<EntryContents> {
    match stage {
        CopyContents::Parent(entry, _) => Some(entry),
        CopyContents::MakeParent(entry, _) => Some(entry),
        CopyContents::ReadLink(entry) => Some(entry),
        CopyContents::Place(entry, _) => Some(entry),
        _ => None,
    }
}

/// Nothing is replaced: work on putting a file in its place begins only where nothing was found
/// to stand there.
pub proof fn nothing_is_replaced(plan: CopyPlan, state: CopyState, event: EventContents)
    requires
        entry_in_work(plan.next(state, event).stage) is Some,
    ensures
        entry_in_work(state.stage) == entry_in_work(plan.next(state, event).stage) || (state.stage
            == CopyContents::Probe(entry_in_work(plan.next(state, event).stage)->0) && event
            == EventContents::Metadata(None)),
{
    lemma_resumed_not_in_work(plan, state.pending, state.patterns);
    if let (CopyContents::List(file), EventContents::Entries(names)) = (state.stage, event) {
        lemma_resumed_not_in_work(plan, state.pending + joined_texts(file, names), state.patterns);
    }
    if let EventContents::Contents(contents) = event {
        if let Some(roots) = scan_roots::scan_roots(contents) {
            lemma_resumed_not_in_work(
                plan,
                joined_texts(plan.source_root, roots),
                Some(include_matcher::patterns_of(text::line_texts(contents))),
            );
        }
    }
}

proof fn lemma_resumed_not_in_work(
    plan: CopyPlan,
    pending: Seq<Seq<char>>,
    patterns: Option<Seq<Seq<char>>>,
)
    ensures
        entry_in_work(plan.resumed(pending, patterns).stage) is None,
    decreases pending.len(),
{
    if pending.len() > 0 && plan.lies_in_destination(pending.last()) {
        lemma_resumed_not_in_work(plan, pending.drop_last(), patterns);
    }
}

/// The state that events lead to, one after the other, from the start.
pub open spec fn copy_after(plan: CopyPlan, events: Seq<EventContents>) -> CopyState
    decreases events.len(),
{
    if events.len() == 0 {
        copy_start()
    } else {
        plan.next(copy_after(plan, events.drop_last()), events.last())
    }
}

/// Whether an event came at a stage.
pub open spec fn came(
    plan: CopyPlan,
    events: Seq<EventContents>,
    stage: CopyContents,
    event: EventContents,
) -> bool {
    exists|i: int|
        0 <= i < events.len() && copy_after(plan, #[trigger] events.take(i)).stage == stage
            && events[i] == event
}

/// Whether an action was to be done, and was done.
pub open spec fn was_done(
    plan: CopyPlan,
    events: Seq<EventContents>,
    action: ActionContents,
) -> bool {
    exists|i: int|
        0 <= i < events.len() && plan.action(copy_after(plan, #[trigger] events.take(i)).stage)
            == Some(action) && events[i] == EventContents::Done
}

/// Whether a path was looked up, and something was there or nothing was.
pub open spec fn was_found(
    plan: CopyPlan,
    events: Seq<EventContents>,
    file: Seq<char>,
    there: bool,
) -> bool {
    exists|i: int|
        0 <= i < events.len() && plan.action(copy_after(plan, #[trigger] events.take(i)).stage)
            == Some(ActionContents::ReadMetadata(file)) && (events[i] matches EventContents::Metadata(
            known,
        ) && known is Some == there)
}

/// Whether where a link leads was read.
pub open spec fn was_read(
    plan: CopyPlan,
    events: Seq<EventContents>,
    link: Seq<char>,
    target: Seq<char>,
) -> bool {
    exists|i: int|
        0 <= i < events.len() && plan.action(copy_after(plan, #[trigger] events.take(i)).stage)
            == Some(ActionContents::ReadLink(link)) && events[i] == EventContents::LinkTarget(target)
}

/// Whether the entries of a directory were listed.
pub open spec fn was_listed(plan: CopyPlan, events: Seq<EventContents>, directory: Seq<char>) -> bool {
    exists|i: int|
        0 <= i < events.len() && plan.action(copy_after(plan, #[trigger] events.take(i)).stage)
            == Some(ActionContents::ReadDirectory(directory)) && events[i] is Entries
}

proof fn lemma_came_stays(
    plan: CopyPlan,
    events: Seq<EventContents>,
    stage: CopyContents,
    event: EventContents,
)
    requires
        events.len() > 0,
    ensures
        came(plan, events.drop_last(), stage, event) ==> came(plan, events, stage, event),
        copy_after(plan, events.drop_last()).stage == stage && events.last() == event ==> came(
            plan,
            events,
            stage,
            event,
        ),
{
    let rest = events.drop_last();
    if came(plan, rest, stage, event) {
        let i = choose|i: int|
            0 <= i < rest.len() && copy_after(plan, #[trigger] rest.take(i)).stage == stage
                && rest[i] == event;
        assert(events.take(i) =~= rest.take(i));
        assert(events[i] == rest[i]);
    }
    assert(events.take(rest.len() as int) =~= rest);
    assert(events[rest.len() as int] == events.last());
}

proof fn lemma_resumed_keeps(
    plan: CopyPlan,
    pending: Seq<Seq<char>>,
    patterns: Option<Seq<Seq<char>>>,
    file: Seq<char>,
)
    requires
        pending.contains(file),
        !plan.lies_in_destination(file),
    ensures
        plan.resumed(pending, patterns).pending.contains(file) || plan.resumed(
            pending,
            patterns,
        ).stage == CopyContents::Inspect(file),
    decreases pending.len(),
{
    let i = choose|i: int| 0 <= i < pending.len() && pending[i] == file;
    if i < pending.len() - 1 {
        assert(pending.drop_last()[i] == file);
        if plan.lies_in_destination(pending.last()) {
            lemma_resumed_keeps(plan, pending.drop_last(), patterns, file);
        }
    }
}

proof fn lemma_resumed_ends(
    plan: CopyPlan,
    pending: Seq<Seq<char>>,
    patterns: Option<Seq<Seq<char>>>,
)
    ensures
        ({
            let state = plan.resumed(pending, patterns);
            &&& state.patterns == patterns
            &&& state.stage is Inspect || (state.stage matches CopyContents::Finished(Ok(_))
                && state.pending.len() == 0)
        }),
    decreases pending.len(),
{
    if pending.len() > 0 && plan.lies_in_destination(pending.last()) {
        lemma_resumed_ends(plan, pending.drop_last(), patterns);
    }
}

/// What holds of every state that is reached.
proof fn lemma_copy_reached(plan: CopyPlan, events: Seq<EventContents>)
    ensures
        ({
            let state = copy_after(plan, events);
            &&& state.stage is LookUp || state.stage is Load ==> state.pending.len() == 0
            &&& state.stage matches CopyContents::Finished(Ok(_)) ==> state.pending.len() == 0
            &&& state.stage matches CopyContents::ReadLink(entry) ==> entry.kind
                == EntryKind::Symlink
            &&& state.stage matches CopyContents::Place(entry, target) ==> (target is Some
                <==> entry.kind == EntryKind::Symlink) && (target matches Some(link) ==> came(
                plan,
                events,
                CopyContents::ReadLink(entry),
                EventContents::LinkTarget(link),
            ))
            &&& entry_in_work(state.stage) matches Some(entry) ==> came(
                plan,
                events,
                CopyContents::Probe(entry),
                EventContents::Metadata(None),
            )
        }),
    decreases events.len(),
{
    if events.len() > 0 {
        let rest = events.drop_last();
        let before = copy_after(plan, rest);
        let event = events.last();
        lemma_copy_reached(plan, rest);
        lemma_resumed_ends(plan, before.pending, before.patterns);
        if let (CopyContents::List(file), EventContents::Entries(names)) = (before.stage, event) {
            lemma_resumed_ends(plan, before.pending + joined_texts(file, names), before.patterns);
        }
        if let EventContents::Contents(contents) = event {
            if let Some(roots) = scan_roots::scan_roots(contents) {
                lemma_resumed_ends(
                    plan,
                    joined_texts(plan.source_root, roots),
                    Some(include_matcher::patterns_of(text::line_texts(contents))),
                );
            }
        }
        if let Some(entry) = entry_in_work(copy_after(plan, events).stage) {
            lemma_came_stays(
                plan,
                events,
                CopyContents::Probe(entry),
                EventContents::Metadata(None),
            );
            nothing_is_replaced(plan, before, event);
        }
        if let CopyContents::Place(entry, Some(link)) = copy_after(plan, events).stage {
            lemma_came_stays(
                plan,
                events,
                CopyContents::ReadLink(entry),
                EventContents::LinkTarget(link),
            );
        }
    }
}

/// Whether a file was looked at, or will be, unless the copying fails.
spec fn is_owed(plan: CopyPlan, events: Seq<EventContents>, file: Seq<char>) -> bool {
    let state = copy_after(plan, events);
    ||| state.pending.contains(file)
    ||| state.stage == CopyContents::Inspect(file)
    ||| exists|known: Option<FileMetadata>| #[trigger]
        came(plan, events, CopyContents::Inspect(file), EventContents::Metadata(known))
    ||| state.stage matches CopyContents::Finished(Err(_))
}

proof fn lemma_stays_owed(plan: CopyPlan, events: Seq<EventContents>, n: int, file: Seq<char>)
    requires
        0 <= n <= events.len(),
        is_owed(plan, events.take(n), file),
        !plan.lies_in_destination(file),
    ensures
        is_owed(plan, events, file),
    decreases events.len(),
{
    if n == events.len() {
        assert(events.take(n) =~= events);
    } else {
        let rest = events.drop_last();
        assert(rest.take(n) =~= events.take(n));
        lemma_stays_owed(plan, rest, n, file);
        lemma_copy_reached(plan, rest);
        let before = copy_after(plan, rest);
        let event = events.last();
        let stage = CopyContents::Inspect(file);
        if exists|known: Option<FileMetadata>| #[trigger]
            came(plan, rest, stage, EventContents::Metadata(known)) {
            let known = choose|known: Option<FileMetadata>| #[trigger]
                came(plan, rest, stage, EventContents::Metadata(known));
            lemma_came_stays(plan, events, stage, EventContents::Metadata(known));
        } else if before.stage == stage {
            if let EventContents::Metadata(known) = event {
                lemma_came_stays(plan, events, stage, event);
            }
        } else if before.pending.contains(file) {
            lemma_resumed_keeps(plan, before.pending, before.patterns, file);
            if let (CopyContents::List(directory), EventContents::Entries(names)) = (
                before.stage,
                event,
            ) {
                let more = before.pending + joined_texts(directory, names);
                let i = choose|i: int| 0 <= i < before.pending.len() && before.pending[i] == file;
                assert(more[i] == file);
                lemma_resumed_keeps(plan, more, before.patterns, file);
            }
        }
    }
}

/// No file that is found is passed over: once the copying has ended well, what is known of every
/// directory that the patterns are looked for in, and of every entry of a directory that was listed,
/// was looked up, unless it lies in the new worktree.
pub proof fn every_found_file_is_looked_at(
    plan: CopyPlan,
    events: Seq<EventContents>,
    at: int,
    file: Seq<char>,
)
    requires
        copy_after(plan, events).stage matches CopyContents::Finished(Ok(_)),
        0 <= at < events.len(),
        !path::is_under(file, plan.destination_root),
        match (plan.action(copy_after(plan, events.take(at)).stage), events[at]) {
            (Some(ActionContents::Load(_)), EventContents::Contents(contents)) => exists|i: int|
                0 <= i < (scan_roots::scan_roots(contents)->0).len() && file == path::joined_text(
                    plan.source_root,
                    #[trigger] (scan_roots::scan_roots(contents)->0)[i],
                ),
            (Some(ActionContents::ReadDirectory(directory)), EventContents::Entries(names)) =>
                exists|i: int|
                0 <= i < names.len() && file == path::joined_text(
                    directory,
                    #[trigger] names[i],
                ),
            _ => false,
        },
    ensures
        was_found(plan, events, file, true) || was_found(plan, events, file, false),
{
    let before = copy_after(plan, events.take(at));
    let next = events.take(at + 1);
    assert(next.drop_last() =~= events.take(at));
    assert(next.last() == events[at]);
    match (before.stage, events[at]) {
        (CopyContents::Load, EventContents::Contents(contents)) => {
            if let Some(roots) = scan_roots::scan_roots(contents) {
                let pending = joined_texts(plan.source_root, roots);
                let i = choose|i: int|
                    0 <= i < roots.len() && file == path::joined_text(
                        plan.source_root,
                        #[trigger] roots[i],
                    );
                assert(pending[i] == file);
                lemma_resumed_keeps(
                    plan,
                    pending,
                    Some(include_matcher::patterns_of(text::line_texts(contents))),
                    file,
                );
            } else {
                assert(copy_after(plan, next).stage matches CopyContents::Finished(Err(_)));
            }
        },
        (CopyContents::List(directory), EventContents::Entries(names)) => {
            let more = before.pending + joined_texts(directory, names);
            let i = choose|i: int|
                0 <= i < names.len() && file == path::joined_text(directory, #[trigger] names[i]);
            assert(more[before.pending.len() + i] == file);
            lemma_resumed_keeps(plan, more, before.patterns, file);
        },
        _ => {},
    }
    lemma_stays_owed(plan, events, at + 1, file);
    lemma_copy_reached(plan, events);
    let known = choose|known: Option<FileMetadata>| #[trigger]
        came(plan, events, CopyContents::Inspect(file), EventContents::Metadata(known));
    let i = choose|i: int|
        0 <= i < events.len() && copy_after(plan, #[trigger] events.take(i)).stage
            == CopyContents::Inspect(file) && events[i] == EventContents::Metadata(known);
    assert(plan.action(copy_after(plan, events.take(i)).stage) == Some(
        ActionContents::ReadMetadata(file),
    ));
}

/// The selected file that a stage is about.
spec fn entry_at(stage: CopyContents) -> Option<EntryContents> {
    match stage {
        CopyContents::Probe(entry) => Some(entry),
        _ => entry_in_work(stage),
    }
}

/// Whether something was found in the place of a selected file, or it was put there.
spec fn is_there(plan: CopyPlan, events: Seq<EventContents>, entry: EntryContents) -> bool {
    ||| exists|known: Option<FileMetadata>| #[trigger]
        came(plan, events, CopyContents::Probe(entry), EventContents::Metadata(known))
            && known is Some
    ||| exists|target: Option<Seq<char>>| #[trigger]
        came(plan, events, CopyContents::Place(entry, target), EventContents::Done)
}

proof fn lemma_is_there_stays(plan: CopyPlan, events: Seq<EventContents>, entry: EntryContents)
    requires
        events.len() > 0,
        is_there(plan, events.drop_last(), entry),
    ensures
        is_there(plan, events, entry),
{
    let rest = events.drop_last();
    let probe = CopyContents::Probe(entry);
    if exists|known: Option<FileMetadata>| #[trigger]
        came(plan, rest, probe, EventContents::Metadata(known)) && known is Some {
        let known = choose|known: Option<FileMetadata>| #[trigger]
            came(plan, rest, probe, EventContents::Metadata(known)) && known is Some;
        lemma_came_stays(plan, events, probe, EventContents::Metadata(known));
    } else {
        let target = choose|target: Option<Seq<char>>| #[trigger]
            came(plan, rest, CopyContents::Place(entry, target), EventContents::Done);
        lemma_came_stays(plan, events, CopyContents::Place(entry, target), EventContents::Done);
    }
}

proof fn lemma_entry_is_placed(
    plan: CopyPlan,
    events: Seq<EventContents>,
    n: int,
    entry: EntryContents,
)
    requires
        0 <= n <= events.len(),
        copy_after(plan, events.take(n)).stage == CopyContents::Probe(entry),
    ensures
        is_there(plan, events, entry) || entry_at(copy_after(plan, events).stage) == Some(entry)
            || (copy_after(plan, events).stage matches CopyContents::Finished(Err(_))),
    decreases events.len(),
{
    if n == events.len() {
        assert(events.take(n) =~= events);
    } else {
        let rest = events.drop_last();
        assert(rest.take(n) =~= events.take(n));
        lemma_entry_is_placed(plan, rest, n, entry);
        let before = copy_after(plan, rest);
        let event = events.last();
        if is_there(plan, rest, entry) {
            lemma_is_there_stays(plan, events, entry);
        } else if entry_at(before.stage) == Some(entry) {
            lemma_came_stays(plan, events, before.stage, event);
            if let EventContents::Metadata(known) = event {
                assert(before.stage == CopyContents::Probe(entry) && known is Some ==> came(
                    plan,
                    events,
                    CopyContents::Probe(entry),
                    EventContents::Metadata(known),
                ));
            }
            if let CopyContents::Place(_, target) = before.stage {
                assert(event is Done ==> came(
                    plan,
                    events,
                    CopyContents::Place(entry, target),
                    EventContents::Done,
                ));
            }
        }
    }
}

/// Whether a directory was listed, or will be, unless the copying fails.
spec fn is_to_be_listed(plan: CopyPlan, events: Seq<EventContents>, directory: Seq<char>) -> bool {
    let stage = copy_after(plan, events).stage;
    ||| was_listed(plan, events, directory)
    ||| stage == CopyContents::List(directory)
    ||| entry_at(stage) matches Some(entry) && entry.path == directory && entry.kind
        == EntryKind::Directory
    ||| stage matches CopyContents::Finished(Err(_))
}

proof fn lemma_stays_to_be_listed(
    plan: CopyPlan,
    events: Seq<EventContents>,
    n: int,
    directory: Seq<char>,
)
    requires
        0 <= n <= events.len(),
        is_to_be_listed(plan, events.take(n), directory),
    ensures
        is_to_be_listed(plan, events, directory),
    decreases events.len(),
{
    if n == events.len() {
        assert(events.take(n) =~= events);
    } else {
        let rest = events.drop_last();
        assert(rest.take(n) =~= events.take(n));
        lemma_stays_to_be_listed(plan, rest, n, directory);
        lemma_copy_reached(plan, rest);
        assert(events.take(rest.len() as int) =~= rest);
        assert(events[rest.len() as int] == events.last());
        if was_listed(plan, rest, directory) {
            let i = choose|i: int|
                0 <= i < rest.len() && plan.action(
                    copy_after(plan, #[trigger] rest.take(i)).stage,
                ) == Some(ActionContents::ReadDirectory(directory)) && rest[i] is Entries;
            assert(events.take(i) =~= rest.take(i));
            assert(events[i] == rest[i]);
        }
    }
}

/// No directory is passed over: once the copying has ended well, every directory of the source that
/// was looked at was listed, whether the patterns select it or not, and whatever stands in its place
/// in the new worktree; but for what is Git's own.
pub proof fn every_directory_is_listed(
    plan: CopyPlan,
    events: Seq<EventContents>,
    at: int,
    directory: Seq<char>,
    known: FileMetadata,
)
    requires
        copy_after(plan, events).stage matches CopyContents::Finished(Ok(_)),
        0 <= at < events.len(),
        copy_after(plan, events.take(at)).stage == CopyContents::Inspect(directory),
        events[at] == EventContents::Metadata(Some(known)),
        known.is_dir && !known.is_symlink,
        path::is_under(directory, plan.source_root),
        ({
            let parts = path::components_of(
                path::stripped_text(directory, path::depth_of(plan.source_root)),
            );
            parts.len() > 0 ==> parts[0] != ".git"@
        }),
    ensures
        was_listed(plan, events, directory),
{
    let next = events.take(at + 1);
    assert(next.drop_last() =~= events.take(at));
    assert(next.last() == events[at]);
    assert(is_to_be_listed(plan, next, directory));
    lemma_stays_to_be_listed(plan, events, at + 1, directory);
}

/// No selected file is passed over: once the copying has ended well, something was found in the
/// place of every file of the source that was looked at and that the patterns select, or it was put
/// there: a link with the target that was read from it, a directory as a directory, and any other
/// file as a copy. Only what is Git's own is not.
pub proof fn every_selected_file_is_copied(
    plan: CopyPlan,
    events: Seq<EventContents>,
    at: int,
    file: Seq<char>,
    known: FileMetadata,
)
    requires
        copy_after(plan, events).stage matches CopyContents::Finished(Ok(_)),
        0 <= at < events.len(),
        copy_after(plan, events.take(at)).stage == CopyContents::Inspect(file),
        events[at] == EventContents::Metadata(Some(known)),
        include_matcher::includes(
            plan.source_root,
            copy_after(plan, events.take(at)).patterns->0,
            file,
            known.is_dir,
        ),
        path::is_under(file, plan.source_root),
        ({
            let parts = path::components_of(
                path::stripped_text(file, path::depth_of(plan.source_root)),
            );
            parts.len() > 0 ==> parts[0] != ".git"@
        }),
    ensures
        ({
            let place = path::joined_text(
                plan.destination_root,
                path::stripped_text(file, path::depth_of(plan.source_root)),
            );
            ||| was_found(plan, events, place, true)
            ||| known.is_symlink && exists|target: Seq<char>| #[trigger]
                was_read(plan, events, file, target) && was_done(
                    plan,
                    events,
                    ActionContents::CreateSymlink { path: place, target },
                )
            ||| !known.is_symlink && known.is_dir && was_done(
                plan,
                events,
                ActionContents::CreateDirectory(place),
            )
            ||| !known.is_symlink && !known.is_dir && was_done(
                plan,
                events,
                ActionContents::CopyFile { from: file, to: place },
            )
        }),
{
    let relative = path::stripped_text(file, path::depth_of(plan.source_root));
    let place = path::joined_text(plan.destination_root, relative);
    let next = events.take(at + 1);
    assert(next.drop_last() =~= events.take(at));
    assert(next.last() == events[at]);
    let entry = EntryContents {
        path: file,
        relative,
        kind: entry_kind(known),
        is_dir: known.is_dir,
    };
    assert(copy_after(plan, next).stage == CopyContents::Probe(entry));
    lemma_entry_is_placed(plan, events, at + 1, entry);
    assert(is_there(plan, events, entry));
    if exists|found: Option<FileMetadata>| #[trigger]
        came(plan, events, CopyContents::Probe(entry), EventContents::Metadata(found))
            && found is Some {
        let found = choose|found: Option<FileMetadata>| #[trigger]
            came(plan, events, CopyContents::Probe(entry), EventContents::Metadata(found))
                && found is Some;
        let i = choose|i: int|
            0 <= i < events.len() && copy_after(plan, #[trigger] events.take(i)).stage
                == CopyContents::Probe(entry) && events[i] == EventContents::Metadata(found);
        assert(plan.action(copy_after(plan, events.take(i)).stage) == Some(
            ActionContents::ReadMetadata(place),
        ));
        assert(was_found(plan, events, place, true));
    } else {
        let target = choose|target: Option<Seq<char>>| #[trigger]
            came(plan, events, CopyContents::Place(entry, target), EventContents::Done);
        let i = choose|i: int|
            0 <= i < events.len() && copy_after(plan, #[trigger] events.take(i)).stage
                == CopyContents::Place(entry, target) && events[i] == EventContents::Done;
        let earlier = events.take(i);
        lemma_copy_reached(plan, earlier);
        let action = plan.action(copy_after(plan, earlier).stage)->0;
        assert(was_done(plan, events, action));
        if let Some(link) = target {
            let j = choose|j: int|
                0 <= j < earlier.len() && copy_after(plan, #[trigger] earlier.take(j)).stage
                    == CopyContents::ReadLink(entry) && earlier[j] == EventContents::LinkTarget(
                    link,
                );
            assert(events.take(j) =~= earlier.take(j));
            assert(events[j] == earlier[j]);
            assert(plan.action(copy_after(plan, events.take(j)).stage) == Some(
                ActionContents::ReadLink(file),
            ));
            assert(was_read(plan, events, file, link));
        }
    }
}

proof fn lemma_copy_stays_valid(plan: CopyPlan, events: Seq<EventContents>)
    requires
        forall|i: int|
            0 <= i < events.len() ==> (#[trigger] events[i] matches EventContents::Entries(names)
                ==> are_names(names)),
    ensures
        plan.valid(copy_after(plan, events)),
    decreases events.len(),
{
    if events.len() > 0 {
        let rest = events.drop_last();
        assert forall|i: int| 0 <= i < rest.len() implies (#[trigger] rest[i] matches
            EventContents::Entries(names) ==> are_names(names)) by {
            assert(rest[i] == events[i]);
        }
        lemma_copy_stays_valid(plan, rest);
        assert(events[events.len() - 1] == events.last());
        only_selected_files_are_copied(plan, copy_after(plan, rest), events.last());
    }
}

/// Nothing but what is selected is copied: a file that is to be copied lies in the source and not in
/// the new worktree, is not Git's own, and is selected by the patterns that were read; it goes to the
/// same place in the new worktree, and nothing was found there.
pub proof fn copied_files_were_selected(
    plan: CopyPlan,
    events: Seq<EventContents>,
    from: Seq<char>,
    to: Seq<char>,
)
    requires
        forall|i: int|
            0 <= i < events.len() ==> (#[trigger] events[i] matches EventContents::Entries(names)
                ==> are_names(names)),
        plan.action(copy_after(plan, events).stage) == Some(ActionContents::CopyFile { from, to }),
    ensures
        path::is_under(from, plan.source_root),
        !path::is_under(from, plan.destination_root),
        to == path::joined_text(
            plan.destination_root,
            path::stripped_text(from, path::depth_of(plan.source_root)),
        ),
        ({
            let parts = path::components_of(
                path::stripped_text(from, path::depth_of(plan.source_root)),
            );
            parts.len() > 0 ==> parts[0] != ".git"@
        }),
        copy_after(plan, events).patterns matches Some(patterns) && (include_matcher::includes(
            plan.source_root,
            patterns,
            from,
            false,
        ) || include_matcher::includes(plan.source_root, patterns, from, true)),
        was_found(plan, events, to, false),
{
    lemma_copy_stays_valid(plan, events);
    lemma_copy_reached(plan, events);
    let entry = entry_in_work(copy_after(plan, events).stage)->0;
    let i = choose|i: int|
        0 <= i < events.len() && copy_after(plan, #[trigger] events.take(i)).stage
            == CopyContents::Probe(entry) && events[i] == EventContents::Metadata(None);
    assert(plan.action(copy_after(plan, events.take(i)).stage) == Some(
        ActionContents::ReadMetadata(to),
    ));
}

/// The directories above a selected file are gone through one after the other, from the outermost
/// to the innermost, before the file is put in its place: each is looked up, and made where it is not
/// there. Something else in the place of one ends the copying.
pub proof fn parents_are_gone_through(
    plan: CopyPlan,
    state: CopyState,
    entry: EntryContents,
    depth: int,
    known: FileMetadata,
)
    requires
        1 <= depth < path::depth_of(entry.relative),
    ensures
        ({
            let parts = path::components_of(entry.relative);
            let at = CopyState { stage: CopyContents::Parent(entry, depth), ..state };
            let making = CopyState { stage: CopyContents::MakeParent(entry, depth), ..state };
            let place = if entry.kind == EntryKind::Symlink {
                CopyContents::ReadLink(entry)
            } else {
                CopyContents::Place(entry, None)
            };
            let following = if depth + 1 < parts.len() {
                CopyContents::Parent(entry, depth + 1)
            } else {
                place
            };
            &&& plan.next(
                CopyState { stage: CopyContents::Probe(entry), ..state },
                EventContents::Metadata(None),
            ).stage == CopyContents::Parent(entry, 1) || entry.kind == EntryKind::Fifo
            &&& known.is_dir ==> plan.next(at, EventContents::Metadata(Some(known))).stage
                == following
            &&& !known.is_dir ==> (plan.next(
                at,
                EventContents::Metadata(Some(known)),
            ).stage matches CopyContents::Finished(Err(_)))
            &&& plan.next(at, EventContents::Metadata(None)).stage == making.stage
            &&& plan.next(making, EventContents::Done).stage == following
            &&& plan.action(at.stage) == Some(
                ActionContents::ReadMetadata(descended(plan.destination_root, parts.take(depth))),
            )
            &&& plan.action(making.stage) == Some(
                ActionContents::CreateDirectory(
                    descended(plan.destination_root, parts.take(depth)),
                ),
            )
            &&& descended(plan.destination_root, parts.take(depth)) == path::joined_text(
                descended(plan.destination_root, parts.take(depth - 1)),
                parts[depth - 1],
            )
            &&& descended(plan.destination_root, parts.take(0)) == plan.destination_root
        }),
{
    let parts = path::components_of(entry.relative);
    assert(parts.take(depth).drop_last() =~= parts.take(depth - 1));
    assert(parts.take(depth).last() == parts[depth - 1]);
}

/// A selected pipe is not copied: the copying fails, unless something stands in its place.
pub proof fn pipes_are_refused(plan: CopyPlan, state: CopyState, entry: EntryContents)
    requires
        entry.kind == EntryKind::Fifo,
    ensures
        plan.next(
            CopyState { stage: CopyContents::Probe(entry), ..state },
            EventContents::Metadata(None),
        ).stage == CopyContents::Finished(
            Err::<(), Seq<char>>(
                "Cannot copy FIFO "@ + entry.path + " selected by "@ + path::joined_text(
                    plan.source_root,
                    ".worktreeinclude"@,
                ),
            ),
        ),
{
}

/// What a file is copied as goes by what it is: a link first, and a directory before a pipe.
pub proof fn links_come_first(known: FileMetadata)
    ensures
        known.is_symlink <==> entry_kind(known) == EntryKind::Symlink,
        !known.is_symlink && known.is_dir <==> entry_kind(known) == EntryKind::Directory,
        !known.is_symlink && !known.is_dir && known.is_fifo <==> entry_kind(known)
            == EntryKind::Fifo,
        !known.is_symlink && !known.is_dir && !known.is_fifo <==> entry_kind(known)
            == EntryKind::File,
{
}

/// The copying begins with a look for the `.worktreeinclude` of the source, ends well at once where
/// there is none, and reads it where there is one. A file that cannot be used ends it with the
/// reason; else the directories that its patterns can select in are gone through.
pub proof fn copying_begins_with_the_patterns(plan: CopyPlan, contents: Seq<char>)
    ensures
        ({
            let file = path::joined_text(plan.source_root, ".worktreeinclude"@);
            let found = seq![EventContents::IsFile(true)];
            let loaded = found.push(EventContents::Contents(contents));
            &&& plan.action(copy_after(plan, Seq::empty()).stage) == Some(
                ActionContents::IsFile(file),
            )
            &&& copy_after(plan, seq![EventContents::IsFile(false)]).stage matches
                CopyContents::Finished(Ok(_))
            &&& plan.action(copy_after(plan, found).stage) == Some(ActionContents::Load(file))
            &&& include_matcher::matcher_error(contents) matches Some(message) ==> copy_after(
                plan,
                loaded,
            ).stage == CopyContents::Finished(Err::<(), Seq<char>>(message))
            &&& include_matcher::matcher_error(contents) is None && scan_roots::scan_roots(
                contents,
            ) is None ==> copy_after(plan, loaded).stage == CopyContents::Finished(
                Err::<(), Seq<char>>(
                    ".worktreeinclude patterns cannot leave the worktree root"@,
                ),
            )
            &&& include_matcher::matcher_error(contents) is None && scan_roots::scan_roots(
                contents,
            ) is Some ==> copy_after(plan, loaded).patterns == Some(
                include_matcher::patterns_of(text::line_texts(contents)),
            ) && !(copy_after(plan, loaded).stage matches CopyContents::Finished(Err(_)))
        }),
{
    let found = seq![EventContents::IsFile(true)];
    let none = seq![EventContents::IsFile(false)];
    let loaded = found.push(EventContents::Contents(contents));
    assert(found.drop_last() =~= Seq::empty());
    assert(none.drop_last() =~= Seq::empty());
    assert(loaded.drop_last() =~= found);
    assert(copy_after(plan, Seq::empty()) == copy_start());
    assert(copy_after(plan, found).stage == CopyContents::Load);
    if let Some(roots) = scan_roots::scan_roots(contents) {
        lemma_resumed_ends(
            plan,
            joined_texts(plan.source_root, roots),
            Some(include_matcher::patterns_of(text::line_texts(contents))),
        );
    }
}

/// A failure of anything that is to be done ends the copying with an error. What was said of the
/// failure comes last in what is told.
pub proof fn failures_end_the_copying(plan: CopyPlan, state: CopyState, message: Seq<char>)
    requires
        state.stage !is Finished,
    ensures
        plan.next(state, EventContents::Failed(message)).stage matches CopyContents::Finished(
            Err(told),
        ) && told.len() >= message.len() && told.skip(told.len() - message.len()) == message,
{
    let told = plan.failure(state.stage, message);
    assert(told.skip(told.len() - message.len()) =~= message);
}

/// What is told of a failure names what was to be done, and the paths that it was to be done with; of
/// the look for what stands in a place, what was said is told alone.
pub proof fn failures_name_what_failed(
    plan: CopyPlan,
    state: CopyState,
    message: Seq<char>,
    file: Seq<char>,
    entry: EntryContents,
    depth: int,
    target: Seq<char>,
)
    ensures
        ({
            let told = |stage: CopyContents|
                plan.next(CopyState { stage, ..state }, EventContents::Failed(message)).stage;
            let ended = |text: Seq<char>| CopyContents::Finished(Err::<(), Seq<char>>(text));
            let place = path::joined_text(plan.destination_root, entry.relative);
            let parent = descended(
                plan.destination_root,
                path::components_of(entry.relative).take(depth),
            );
            &&& told(CopyContents::Load) == ended(
                "loading "@ + path::joined_text(plan.source_root, ".worktreeinclude"@) + ": "@
                    + message,
            )
            &&& told(CopyContents::Inspect(file)) == ended(
                "reading metadata for "@ + file + ": "@ + message,
            )
            &&& told(CopyContents::Probe(entry)) == ended(message)
            &&& told(CopyContents::Parent(entry, depth)) == ended(message)
            &&& told(CopyContents::MakeParent(entry, depth)) == ended(
                "creating "@ + parent + ": "@ + message,
            )
            &&& told(CopyContents::ReadLink(entry)) == ended(
                "reading symlink "@ + entry.path + ": "@ + message,
            )
            &&& told(CopyContents::Place(entry, Some(target))) == ended(
                "copying symlink "@ + entry.path + ": "@ + message,
            )
            &&& entry.kind == EntryKind::Directory ==> told(CopyContents::Place(entry, None))
                == ended("creating "@ + place + ": "@ + message)
            &&& entry.kind != EntryKind::Directory ==> told(CopyContents::Place(entry, None))
                == ended("copying "@ + entry.path + " to "@ + place + ": "@ + message)
            &&& told(CopyContents::List(file)) == ended("reading "@ + file + ": "@ + message)
        }),
{
}

/// What is looked at goes where it belongs: what is not there or is Git's own is passed over, what
/// lies outside the source ends the copying, what is selected is looked up in its place, and a
/// directory that is not selected is listed.
pub proof fn found_files_go_where_they_belong(
    plan: CopyPlan,
    state: CopyState,
    file: Seq<char>,
    known: FileMetadata,
    patterns: Seq<Seq<char>>,
)
    requires
        state.stage == CopyContents::Inspect(file),
        state.patterns == Some(patterns),
    ensures
        ({
            let missing = plan.next(state, EventContents::Metadata(None));
            let after = plan.next(state, EventContents::Metadata(Some(known)));
            let relative = path::stripped_text(file, path::depth_of(plan.source_root));
            let parts = path::components_of(relative);
            let inside = path::is_under(file, plan.source_root);
            let own = parts.len() > 0 && parts[0] == ".git"@;
            let selected = include_matcher::includes(plan.source_root, patterns, file, known.is_dir);
            let lists = known.is_dir && !known.is_symlink;
            &&& missing == plan.resumed(state.pending, state.patterns)
            &&& !inside ==> after.stage == CopyContents::Finished(
                Err::<(), Seq<char>>(
                    file + " is outside worktree root "@ + plan.source_root
                        + ": prefix not found"@,
                ),
            )
            &&& inside && own ==> after == plan.resumed(state.pending, state.patterns)
            &&& inside && !own && selected ==> plan.action(after.stage) == Some(
                ActionContents::ReadMetadata(path::joined_text(plan.destination_root, relative)),
            )
            &&& inside && !own && !selected && lists ==> plan.action(after.stage) == Some(
                ActionContents::ReadDirectory(file),
            )
            &&& inside && !own && !selected && !lists ==> after == plan.resumed(
                state.pending,
                state.patterns,
            )
        }),
{
}

/// Pending files are looked at from the last on, but for those that lie in the new worktree; where
/// none is left, the copying has ended well.
pub proof fn pending_files_are_looked_at_in_turn(
    plan: CopyPlan,
    pending: Seq<Seq<char>>,
    file: Seq<char>,
    patterns: Option<Seq<Seq<char>>>,
)
    ensures
        plan.resumed(Seq::empty(), patterns).stage matches CopyContents::Finished(Ok(_)),
        path::is_under(file, plan.destination_root) ==> plan.resumed(pending.push(file), patterns)
            == plan.resumed(pending, patterns),
        !path::is_under(file, plan.destination_root) ==> plan.resumed(pending.push(file), patterns)
            == (CopyState { pending, stage: CopyContents::Inspect(file), patterns }),
{
    assert(pending.push(file).drop_last() =~= pending);
}

/// What does not answer what was to be done changes nothing, unless it tells of a failure.
pub proof fn copy_events_out_of_turn_change_nothing(
    plan: CopyPlan,
    state: CopyState,
    event: EventContents,
)
    requires
        state.stage is Finished || !(event is Failed),
        !(state.stage is LookUp && event is IsFile),
        !(state.stage is Load && event is Contents),
        !(state.stage is Inspect && event is Metadata),
        !(state.stage is Probe && event is Metadata),
        !(state.stage is Parent && event is Metadata),
        !(state.stage is MakeParent && event is Done),
        !(state.stage is ReadLink && event is LinkTarget),
        !(state.stage is Place && event is Done),
        !(state.stage is List && event is Entries),
    ensures
        plan.next(state, event) == state,
{
}

/// What is found in the place of a selected file leaves it as it is: nothing is done with it, and
/// its entries are gone through where it is a directory. A file that was put in its place is dealt
/// with in the same way.
pub proof fn found_files_are_left_alone(
    plan: CopyPlan,
    state: CopyState,
    entry: EntryContents,
    known: FileMetadata,
    target: Option<Seq<char>>,
)
    ensures
        ({
            let found = plan.next(
                CopyState { stage: CopyContents::Probe(entry), ..state },
                EventContents::Metadata(Some(known)),
            );
            let placed = plan.next(
                CopyState { stage: CopyContents::Place(entry, target), ..state },
                EventContents::Done,
            );
            &&& entry.kind == EntryKind::Directory ==> plan.action(found.stage) == Some(
                ActionContents::ReadDirectory(entry.path),
            ) && plan.action(placed.stage) == Some(ActionContents::ReadDirectory(entry.path))
            &&& entry.kind != EntryKind::Directory ==> found == plan.resumed(
                state.pending,
                state.patterns,
            ) && placed == plan.resumed(state.pending, state.patterns)
        }),
{
}

/// The entries of a directory are put behind what is pending, each under the directory.
pub proof fn entries_are_put_behind(
    plan: CopyPlan,
    state: CopyState,
    directory: Seq<char>,
    names: Seq<Seq<char>>,
    i: int,
)
    requires
        state.stage == CopyContents::List(directory),
    ensures
        plan.next(state, EventContents::Entries(names)) == plan.resumed(
            state.pending + joined_texts(directory, names),
            state.patterns,
        ),
        joined_texts(directory, names).len() == names.len(),
        0 <= i < names.len() ==> joined_texts(directory, names)[i] == path::joined_text(
            directory,
            names[i],
        ),
{
}

/// The copying of the selected files of one worktree.
pub struct IncludeCopy {
    source_root: TreePath,
    destination_root: TreePath,
    matcher: Option<IncludeMatcher>,
    pending: Vec<String>,
    stage: CopyStage,
}

/// The texts of the paths that `names` name from `base` on.
fn join_all(base: &str, names: &Vec<String>) -> (result: Vec<String>)
    ensures
        text::strings(result@) == joined_texts(base@, text::strings(names@)),
{
    let ghost all = joined_texts(base@, text::strings(names@));
    let mut result: Vec<String> = Vec::new();
    let mut i: usize = 0;
    assert(text::strings(result@) =~= all.take(0));
    while i < names.len()
        invariant
            i <= names.len(),
            all == joined_texts(base@, text::strings(names@)),
            text::strings(result@) == all.take(i as int),
        decreases names.len() - i,
    {
        let ghost before = text::strings(result@);
        result.push(join_text(base, names[i].as_str()));
        assert(all[i as int] == path::joined_text(base@, names@[i as int]@));
        assert(text::strings(result@) =~= before.push(all[i as int]));
        assert(all.take(i + 1) =~= all.take(i as int).push(all[i as int]));
        i = i + 1;
    }
    assert(all.take(i as int) =~= all);
    result
}

impl IncludeCopy {
    /// From where to where is copied.
    pub closed spec fn plan(&self) -> CopyPlan {
        CopyPlan { source_root: self.source_root@, destination_root: self.destination_root@ }
    }

    /// The state of the copying.
    pub closed spec fn state(&self) -> CopyState {
        CopyState {
            pending: text::strings(self.pending@),
            stage: self.stage@,
            patterns: match self.matcher {
                Some(matcher) => Some(matcher.patterns()),
                None => None,
            },
        }
    }

    /// The state can be reached, and the patterns are those of the source.
    pub closed spec fn well_formed(&self) -> bool {
        &&& self.plan().valid(self.state())
        &&& self.matcher matches Some(matcher) ==> matcher.well_formed() && matcher.root()
            == self.plan().source_root
    }

    /// In a well-formed state, whatever is copied may be copied.
    pub proof fn well_formed_is_valid(&self)
        requires
            self.well_formed(),
        ensures
            self.plan().valid(self.state()),
    {
    }

    /// The start of the copying: whether there is a `.worktreeinclude` is to be looked up.
    pub fn copy_worktree_included_files_for_root(
        source_root: TreePath,
        destination_root: TreePath,
    ) -> (result: IncludeCopy)
        ensures
            result.well_formed(),
            result.plan() == (CopyPlan {
                source_root: source_root@,
                destination_root: destination_root@,
            }),
            result.state() == copy_start(),
    {
        let result = IncludeCopy {
            source_root,
            destination_root,
            matcher: None,
            pending: Vec::new(),
            stage: CopyStage::LookUp,
        };
        assert(text::strings(result.pending@) =~= Seq::empty());
        result
    }

    fn include_path(&self) -> (result: String)
        ensures
            result@ == self.plan().include_path(),
    {
        join_text(self.source_root.as_str(), WORKTREE_INCLUDE_FILE)
    }

    fn destination(&self, relative: &TreePath) -> (result: String)
        ensures
            result@ == self.plan().destination(relative@),
    {
        join_text(self.destination_root.as_str(), relative.as_str())
    }

    fn parent_destination(&self, relative: &TreePath, depth: usize) -> (result: String)
        requires
            depth <= path::depth_of(relative@),
        ensures
            result@ == self.plan().parent_destination(relative@, depth as int),
    {
        let parts = relative.components();
        let ghost all = path::components_of(relative@);
        let mut result = self.destination_root.to_text();
        let mut i: usize = 0;
        assert(all.len() == parts@.len());
        assert(all.take(0) =~= Seq::empty());
        while i < depth
            invariant
                i <= depth <= parts.len(),
                all == text::strings(parts@),
                result@ == descended(self.destination_root@, all.take(i as int)),
            decreases depth - i,
        {
            assert(all.take(i + 1).drop_last() =~= all.take(i as int));
            assert(all.take(i + 1).last() == parts@[i as int]@);
            result = join_text(result.as_str(), parts[i].as_str());
            i = i + 1;
        }
        result
    }

    /// What is to be done next, until the copying is finished.
    pub fn action(&self) -> (result: Option<CopyAction>)
        requires
            self.well_formed(),
        ensures
            match result {
                Some(action) => self.plan().action(self.state().stage) == Some(action@),
                None => self.plan().action(self.state().stage) is None,
            },
    {
        match &self.stage {
            CopyStage::LookUp => Some(CopyAction::IsFile(self.include_path())),
            CopyStage::Load => Some(CopyAction::Load(self.include_path())),
            CopyStage::Inspect(file) => Some(CopyAction::ReadMetadata(file.clone())),
            CopyStage::Probe(entry) => Some(
                CopyAction::ReadMetadata(self.destination(&entry.relative)),
            ),
            CopyStage::Parent(entry, depth) => Some(
                CopyAction::ReadMetadata(
                    self.parent_destination(&entry.relative, *depth),
                ),
            ),
            CopyStage::MakeParent(entry, depth) => Some(
                CopyAction::CreateDirectory(
                    self.parent_destination(&entry.relative, *depth),
                ),
            ),
            CopyStage::ReadLink(entry) => Some(CopyAction::ReadLink(entry.path.clone())),
            CopyStage::Place(entry, target) => {
                let to = self.destination(&entry.relative);
                match target {
                    Some(target) => Some(
                        CopyAction::CreateSymlink { path: to, target: target.clone() },
                    ),
                    None => if entry.kind == EntryKind::Directory {
                        Some(CopyAction::CreateDirectory(to))
                    } else {
                        Some(CopyAction::CopyFile { from: entry.path.clone(), to })
                    },
                }
            },
            CopyStage::List(file) => Some(CopyAction::ReadDirectory(file.clone())),
            CopyStage::Finished(_) => None,
        }
    }

    /// What came of the copying, once it is finished.
    pub fn outcome(&self) -> (result: Option<Result<(), String>>)
        ensures
            match result {
                Some(Ok(_)) => self.state().stage == CopyContents::Finished(
                    Ok::<(), Seq<char>>(()),
                ),
                Some(Err(message)) => self.state().stage == CopyContents::Finished(
                    Err::<(), Seq<char>>(message@),
                ),
                None => !(self.state().stage is Finished),
            },
    {
        match &self.stage {
            CopyStage::Finished(Ok(_)) => Some(Ok(())),
            CopyStage::Finished(Err(message)) => Some(Err(message.clone())),
            _ => None,
        }
    }

    fn resume(&mut self)
        ensures
            final(self).plan() == old(self).plan(),
            final(self).matcher == old(self).matcher,
            final(self).state() == old(self).plan().resumed(
                old(self).state().pending,
                old(self).state().patterns,
            ),
    {
        let ghost plan = self.plan();
        let ghost patterns = self.state().patterns;
        let ghost whole = self.state().pending;
        while self.pending.len() > 0
            invariant
                self.plan() == plan,
                plan == old(self).plan(),
                self.matcher == old(self).matcher,
                patterns == old(self).state().patterns,
                whole == old(self).state().pending,
                plan.resumed(whole, patterns) == plan.resumed(
                    text::strings(self.pending@),
                    patterns,
                ),
            decreases self.pending.len(),
        {
            let ghost before = text::strings(self.pending@);
            if let Some(file) = self.pending.pop() {
                assert(before.last() == file@);
                assert(text::strings(self.pending@) =~= before.drop_last());
                if !TreePath::parse(file.as_str()).starts_with(&self.destination_root) {
                    self.stage = CopyStage::Inspect(file);
                    return ;
                }
            }
        }
        assert(text::strings(self.pending@) =~= Seq::empty());
        self.stage = CopyStage::Finished(Ok(()));
    }

    fn load(&mut self, contents: &str)
        requires
            old(self).stage is Load,
        ensures
            final(self).plan() == old(self).plan(),
            final(self).matcher matches Some(matcher) ==> matcher.well_formed() && matcher.root()
                == old(self).plan().source_root,
            final(self).state() == old(self).plan().loaded(contents@),
    {
        let include_path = self.include_path();
        let source_root = self.source_root.to_text();
        self.pending = Vec::new();
        self.matcher = None;
        assert(text::strings(self.pending@) =~= Seq::empty());
        let matcher = match IncludeMatcher::build_worktree_include_matcher(
            source_root.as_str(),
            include_path.as_str(),
            contents,
        ) {
            Ok(matcher) => matcher,
            Err(message) => {
                self.stage = CopyStage::Finished(Err(message));
                return ;
            },
        };
        let roots = match worktree_include_scan_roots(contents) {
            Ok(roots) => roots,
            Err(message) => {
                self.stage = CopyStage::Finished(Err(message));
                return ;
            },
        };
        let pending = join_all(source_root.as_str(), &roots);
        self.pending = pending;
        self.matcher = Some(matcher);
        self.resume();
    }

    fn inspected(&mut self, file: String, metadata: Option<FileMetadata>)
        requires
            old(self).well_formed(),
            old(self).state().stage == CopyContents::Inspect(file@),
        ensures
            final(self).plan() == old(self).plan(),
            final(self).matcher == old(self).matcher,
            final(self).state() == old(self).plan().inspected(old(self).state(), file@, metadata),
    {
        let known = match metadata {
            Some(known) => known,
            None => {
                self.resume();
                return ;
            },
        };
        let relative = match TreePath::parse(file.as_str()).strip_prefix(&self.source_root) {
            Some(relative) => relative,
            None => {
                let message = file.clone().concat(" is outside worktree root ").concat(
                    self.source_root.to_text().as_str(),
                ).concat(": prefix not found");
                self.stage = CopyStage::Finished(Err(message));
                return ;
            },
        };
        let parts = relative.components();
        let ghost all = path::components_of(relative@);
        assert(all.len() == parts@.len());
        if parts.len() > 0 {
            assert(all[0] == parts@[0]@);
            if same(parts[0].as_str(), ".git") {
                self.resume();
                return ;
            }
        }
        let selected = match &self.matcher {
            Some(matcher) => matcher.selects(file.as_str(), known.is_dir),
            None => false,
        };
        let kind = kind_of(known);
        if selected {
            self.stage = CopyStage::Probe(
                CopyEntry { path: file, relative, kind, is_dir: known.is_dir },
            );
        } else if kind == EntryKind::Directory {
            self.stage = CopyStage::List(file);
        } else {
            self.resume();
        }
    }

    fn deal_with(&mut self, entry: CopyEntry)
        ensures
            final(self).plan() == old(self).plan(),
            final(self).matcher == old(self).matcher,
            final(self).state() == old(self).plan().dealt_with(old(self).state(), entry@),
    {
        if entry.kind == EntryKind::Directory {
            self.stage = CopyStage::List(entry.path);
        } else {
            self.resume();
        }
    }

    fn go_on_with_parents(&mut self, entry: CopyEntry, depth: usize)
        requires
            depth == 0 || depth < path::depth_of(entry@.relative),
        ensures
            final(self).plan() == old(self).plan(),
            final(self).matcher == old(self).matcher,
            final(self).state() == old(self).plan().with_parents(
                old(self).state(),
                entry@,
                depth as int,
            ),
    {
        let length = entry.relative.depth();
        if length > 0 && depth < length - 1 {
            self.stage = CopyStage::Parent(entry, depth + 1);
        } else if entry.kind == EntryKind::Symlink {
            self.stage = CopyStage::ReadLink(entry);
        } else {
            self.stage = CopyStage::Place(entry, None);
        }
    }

    fn probed(&mut self, entry: CopyEntry, metadata: Option<FileMetadata>)
        ensures
            final(self).plan() == old(self).plan(),
            final(self).matcher == old(self).matcher,
            final(self).state() == old(self).plan().probed(old(self).state(), entry@, metadata),
    {
        if metadata.is_some() {
            self.deal_with(entry);
        } else if entry.kind == EntryKind::Fifo {
            let message = "Cannot copy FIFO ".to_owned().concat(
                entry.path.as_str(),
            ).concat(" selected by ").concat(self.include_path().as_str());
            self.stage = CopyStage::Finished(Err(message));
        } else {
            self.go_on_with_parents(entry, 0);
        }
    }

    fn ensure_worktree_include_parent(
        &mut self,
        entry: CopyEntry,
        depth: usize,
        metadata: Option<FileMetadata>,
    )
        requires
            depth < path::depth_of(entry@.relative),
        ensures
            final(self).plan() == old(self).plan(),
            final(self).matcher == old(self).matcher,
            final(self).state() == old(self).plan().parent_found(
                old(self).state(),
                entry@,
                depth as int,
                metadata,
            ),
    {
        match metadata {
            Some(known) => {
                if known.is_dir {
                    self.go_on_with_parents(entry, depth);
                } else {
                    let parent = self.parent_destination(&entry.relative, depth);
                    let message =
                        "Cannot create worktree setup directory because ".to_owned().concat(
                        parent.as_str(),
                    ).concat(" is not a directory");
                    self.stage = CopyStage::Finished(Err(message));
                }
            },
            None => {
                self.stage = CopyStage::MakeParent(entry, depth);
            },
        }
    }

    fn failure(&self, message: String) -> (result: String)
        requires
            self.well_formed(),
        ensures
            result@ == self.plan().failure(self.state().stage, message@),
    {
        match &self.stage {
            CopyStage::Load => "loading ".to_owned().concat(
                self.include_path().as_str(),
            ).concat(": ").concat(message.as_str()),
            CopyStage::Inspect(file) => "reading metadata for ".to_owned().concat(
                file.as_str(),
            ).concat(": ").concat(message.as_str()),
            CopyStage::MakeParent(entry, depth) => "creating ".to_owned().concat(
                self.parent_destination(&entry.relative, *depth).as_str(),
            ).concat(": ").concat(message.as_str()),
            CopyStage::ReadLink(entry) => "reading symlink ".to_owned().concat(
                entry.path.as_str(),
            ).concat(": ").concat(message.as_str()),
            CopyStage::Place(entry, target) => {
                if target.is_some() {
                    "copying symlink ".to_owned().concat(entry.path.as_str()).concat(
                        ": ",
                    ).concat(message.as_str())
                } else if entry.kind == EntryKind::Directory {
                    "creating ".to_owned().concat(
                        self.destination(&entry.relative).as_str(),
                    ).concat(": ").concat(message.as_str())
                } else {
                    "copying ".to_owned().concat(entry.path.as_str()).concat(
                        " to ",
                    ).concat(self.destination(&entry.relative).as_str()).concat(
                        ": ",
                    ).concat(message.as_str())
                }
            },
            CopyStage::List(file) => "reading ".to_owned().concat(file.as_str()).concat(
                ": ",
            ).concat(message.as_str()),
            _ => message,
        }
    }

    fn add_entries(&mut self, directory: &str, names: Vec<String>)
        ensures
            final(self).plan() == old(self).plan(),
            final(self).matcher == old(self).matcher,
            final(self).stage == old(self).stage,
            final(self).state().pending == old(self).state().pending + joined_texts(
                directory@,
                text::strings(names@),
            ),
    {
        let ghost before = self.pending@;
        let mut listed = join_all(directory, &names);
        let ghost all = listed@;
        self.pending.append(&mut listed);
        assert(text::strings(before + all) =~= text::strings(before) + text::strings(all));
    }

    /// Takes what came of what was to be done.
    pub fn advance(&mut self, event: CopyEvent)
        requires
            old(self).well_formed(),
            event@ matches EventContents::Entries(names) ==> are_names(names),
        ensures
            final(self).well_formed(),
            final(self).plan() == old(self).plan(),
            final(self).state() == old(self).plan().next(old(self).state(), event@),
    {
        proof {
            only_selected_files_are_copied(self.plan(), self.state(), event@);
        }
        match (&self.stage, event) {
            (CopyStage::Finished(_), _) => {},
            (_, CopyEvent::Failed(message)) => {
                let message = self.failure(message);
                self.stage = CopyStage::Finished(Err(message));
            },
            (CopyStage::LookUp, CopyEvent::IsFile(found)) => {
                if found {
                    self.stage = CopyStage::Load;
                } else {
                    self.stage = CopyStage::Finished(Ok(()));
                }
            },
            (CopyStage::Load, CopyEvent::Contents(contents)) => {
                self.load(contents.as_str());
            },
            (CopyStage::Inspect(file), CopyEvent::Metadata(metadata)) => {
                let file = file.clone();
                self.inspected(file, metadata);
            },
            (CopyStage::Probe(entry), CopyEvent::Metadata(metadata)) => {
                let entry = entry.clone();
                self.probed(entry, metadata);
            },
            (CopyStage::Parent(entry, depth), CopyEvent::Metadata(metadata)) => {
                let entry = entry.clone();
                let depth = *depth;
                self.ensure_worktree_include_parent(entry, depth, metadata);
            },
            (CopyStage::MakeParent(entry, depth), CopyEvent::Done) => {
                let entry = entry.clone();
                let depth = *depth;
                self.go_on_with_parents(entry, depth);
            },
            (CopyStage::ReadLink(entry), CopyEvent::LinkTarget(target)) => {
                let entry = entry.clone();
                self.stage = CopyStage::Place(entry, Some(target));
            },
            (CopyStage::Place(entry, _), CopyEvent::Done) => {
                let entry = entry.clone();
                self.deal_with(entry);
            },
            (CopyStage::List(file), CopyEvent::Entries(names)) => {
                let file = file.clone();
                self.add_entries(file.as_str(), names);
                self.resume();
            },
            _ => {},
        }
    }
}

/// How far the copying into several worktrees has come: into one of them, or to its end.
pub enum CopiesState {
    Copying(int, CopyState),
    Finished(Result<(), Seq<char>>),
}

/// The plan of the copying for one of the directories that are mapped to new worktrees.
pub open spec fn plan_of(pair: (Seq<char>, Seq<char>)) -> CopyPlan {
    CopyPlan { source_root: pair.0, destination_root: pair.1 }
}

/// The state in which the copying for the pair at position `at` begins.
pub open spec fn copies_from(
    remapping: Seq<(Seq<char>, Seq<char>)>,
    at: int,
) -> CopiesState {
    if at >= remapping.len() {
        CopiesState::Finished(Ok(()))
    } else {
        CopiesState::Copying(at, copy_start())
    }
}

impl CopiesState {
    /// The state that an event leads to: one worktree follows the other, until one fails.
    pub open spec fn next(
        self,
        remapping: Seq<(Seq<char>, Seq<char>)>,
        event: EventContents,
    ) -> CopiesState {
        match self {
            CopiesState::Copying(at, state) => {
                let after = plan_of(remapping[at]).next(state, event);
                match after.stage {
                    CopyContents::Finished(Ok(_)) => copies_from(remapping, at + 1),
                    CopyContents::Finished(Err(message)) => CopiesState::Finished(Err(message)),
                    _ => CopiesState::Copying(at, after),
                }
            },
            CopiesState::Finished(_) => self,
        }
    }
}

/// The worktrees are dealt with one after the other: the next begins where one ended well, the
/// copying ends well only with the last of them, and the first failure ends it.
pub proof fn worktrees_are_dealt_with_in_turn(
    remapping: Seq<(Seq<char>, Seq<char>)>,
    at: int,
    state: CopyState,
    event: EventContents,
)
    requires
        0 <= at < remapping.len(),
        state.stage !is Finished,
    ensures
        ({
            let plan = CopyPlan {
                source_root: remapping[at].0,
                destination_root: remapping[at].1,
            };
            let inner = plan.next(state, event);
            let after = CopiesState::Copying(at, state).next(remapping, event);
            &&& copies_from(remapping, 0) == CopiesState::Copying(0, copy_start())
            &&& inner.stage !is Finished ==> after == CopiesState::Copying(at, inner)
            &&& inner.stage matches CopyContents::Finished(Err(message)) ==> after
                == CopiesState::Finished(Err::<(), Seq<char>>(message))
            &&& (inner.stage matches CopyContents::Finished(Ok(_))) && at + 1 < remapping.len()
                ==> after == CopiesState::Copying(at + 1, copy_start())
            &&& (inner.stage matches CopyContents::Finished(Ok(_))) && at + 1 == remapping.len()
                ==> (after matches CopiesState::Finished(Ok(_)))
        }),
        copies_from(Seq::empty(), 0) matches CopiesState::Finished(Ok(_)),
{
}

enum Copies {
    Copying(usize, IncludeCopy),
    Finished(Result<(), String>),
}

/// The copying of the selected files of several worktrees, one after the other.
pub struct IncludeCopies {
    remapping: Vec<(TreePath, TreePath)>,
    stage: Copies,
}

impl IncludeCopies {
    /// The directories, and the new worktrees that they are mapped to.
    pub closed spec fn remapping(&self) -> Seq<(Seq<char>, Seq<char>)> {
        creation::remapping_contents(self.remapping@)
    }

    /// How far the copying has come.
    pub closed spec fn state(&self) -> CopiesState {
        match self.stage {
            Copies::Copying(at, copy) => CopiesState::Copying(at as int, copy.state()),
            Copies::Finished(Ok(_)) => CopiesState::Finished(Ok(())),
            Copies::Finished(Err(message)) => CopiesState::Finished(Err(message@)),
        }
    }

    /// The state can be reached.
    pub closed spec fn well_formed(&self) -> bool {
        self.stage matches Copies::Copying(at, copy) ==> at < self.remapping@.len()
            && copy.well_formed() && copy.plan() == plan_of(self.remapping()[at as int])
            && !(copy.state().stage is Finished)
    }

    /// The start of the copying.
    pub fn copy_worktree_included_files(remapping: Vec<(TreePath, TreePath)>) -> (result:
        IncludeCopies)
        ensures
            result.well_formed(),
            result.remapping() == creation::remapping_contents(remapping@),
            result.state() == copies_from(creation::remapping_contents(remapping@), 0),
    {
        let stage = Self::stage_from(&remapping, 0);
        IncludeCopies { remapping, stage }
    }

    fn stage_from(remapping: &Vec<(TreePath, TreePath)>, at: usize) -> (result: Copies)
        ensures
            match result {
                Copies::Copying(position, copy) => position == at && at < remapping@.len()
                    && copy.well_formed() && copy.plan() == plan_of(
                    creation::remapping_contents(remapping@)[at as int],
                ) && copy.state() == copy_start(),
                Copies::Finished(outcome) => outcome is Ok && at >= remapping@.len(),
            },
    {
        if at >= remapping.len() {
            return Copies::Finished(Ok(()));
        }
        let pair = &remapping[at];
        assert(creation::remapping_contents(remapping@)[at as int] == (pair.0@, pair.1@));
        Copies::Copying(
            at,
            IncludeCopy::copy_worktree_included_files_for_root(pair.0.clone(), pair.1.clone()),
        )
    }

    /// What is to be done next, until the copying is finished.
    pub fn action(&self) -> (result: Option<CopyAction>)
        requires
            self.well_formed(),
        ensures
            match self.state() {
                CopiesState::Copying(at, state) => match result {
                    Some(action) => plan_of(self.remapping()[at]).action(state.stage) == Some(
                        action@,
                    ),
                    None => false,
                },
                CopiesState::Finished(_) => result is None,
            },
    {
        match &self.stage {
            Copies::Copying(_, copy) => copy.action(),
            Copies::Finished(_) => None,
        }
    }

    /// Takes what came of what was to be done.
    pub fn advance(&mut self, event: CopyEvent)
        requires
            old(self).well_formed(),
            event@ matches EventContents::Entries(names) ==> are_names(names),
        ensures
            final(self).well_formed(),
            final(self).remapping() == old(self).remapping(),
            final(self).state() == old(self).state().next(old(self).remapping(), event@),
    {
        let mut ended: Option<(usize, Result<(), String>)> = None;
        if let Copies::Copying(at, copy) = &mut self.stage {
            copy.advance(event);
            if let Some(outcome) = copy.outcome() {
                ended = Some((*at, outcome));
            }
        }
        match ended {
            Some((at, Ok(_))) => {
                assert(at < self.remapping.len());
                self.stage = Self::stage_from(&self.remapping, at + 1);
            },
            Some((_, Err(message))) => {
                self.stage = Copies::Finished(Err(message));
            },
            None => {},
        }
    }

    /// What came of the copying, once it is finished.
    pub fn outcome(&self) -> (result: Option<Result<(), String>>)
        ensures
            match result {
                Some(Ok(_)) => self.state() == CopiesState::Finished(Ok::<(), Seq<char>>(())),
                Some(Err(message)) => self.state() == CopiesState::Finished(
                    Err::<(), Seq<char>>(message@),
                ),
                None => !(self.state() is Finished),
            },
    {
        match &self.stage {
            Copies::Finished(Ok(_)) => Some(Ok(())),
            Copies::Finished(Err(message)) => Some(Err(message.clone())),
            Copies::Copying(_, _) => None,
        }
    }
}

/// What comes of the copying is taken as it is told, and what is to be done is told as it is.
pub proof fn copy_events_are_taken_as_they_are(
    found: bool,
    text: String,
    other: String,
    metadata: Option<FileMetadata>,
    names: Vec<String>,
)
    ensures
        CopyEvent::IsFile(found)@ == EventContents::IsFile(found),
        CopyEvent::Contents(text)@ == EventContents::Contents(text@),
        CopyEvent::Metadata(metadata)@ == EventContents::Metadata(metadata),
        CopyEvent::LinkTarget(text)@ == EventContents::LinkTarget(text@),
        CopyEvent::Entries(names)@ == EventContents::Entries(text::strings(names@)),
        CopyEvent::Done@ is Done,
        CopyEvent::Failed(text)@ == EventContents::Failed(text@),
        CopyAction::IsFile(text)@ == ActionContents::IsFile(text@),
        CopyAction::Load(text)@ == ActionContents::Load(text@),
        CopyAction::ReadMetadata(text)@ == ActionContents::ReadMetadata(text@),
        CopyAction::ReadLink(text)@ == ActionContents::ReadLink(text@),
        CopyAction::CreateDirectory(text)@ == ActionContents::CreateDirectory(text@),
        (CopyAction::CreateSymlink { path: text, target: other })@
            == (ActionContents::CreateSymlink { path: text@, target: other@ }),
        (CopyAction::CopyFile { from: text, to: other })@ == (ActionContents::CopyFile {
            from: text@,
            to: other@,
        }),
        CopyAction::ReadDirectory(text)@ == ActionContents::ReadDirectory(text@),
{
}

} // verus!
