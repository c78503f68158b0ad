//! Opening the workspace of a worktree: what to do next, which files are opened again in it, and
//! which worktrees are trusted.
use vstd::prelude::*;

use crate::creation;
use crate::creation::{copy_paths, holds_path, mapped_to};
use crate::path;
use crate::path::TreePath;
use crate::terminal_thread;
use crate::text;

verus! {

/// The seconds that opening a workspace may take.
pub const WORKTREE_WORKSPACE_OPEN_TIMEOUT_SECONDS: u64 = 60;

/// The seconds that the first scan of a workspace is waited for.
pub const WORKTREE_INITIAL_SCAN_TIMEOUT_SECONDS: u64 = 30;

/// The seconds that the repositories of a workspace are waited for.
pub const WORKTREE_REPOSITORY_BARRIER_TIMEOUT_SECONDS: u64 = 15;

/// What is told where folders of a project are in no repository.
pub const PLAIN_FOLDERS_NOTICE: &'static str =
    "Some project folders are not git repositories. They were included as-is without creating a worktree.";

/// Whether a worktree is created, or an existing one is switched to.
#[derive(Clone, Copy, Debug, PartialEq, Eq, Structural)]
pub enum WorktreeOperation {
    Create,
    Switch,
}

/// A dock of a workspace.
#[derive(Clone, Copy, Debug, PartialEq, Eq, Structural)]
pub enum DockPosition {
    Left,
    Bottom,
    Right,
}

/// What was open in the workspace before.
pub struct PreviousWorkspaceState {
    pub open_file_paths: Vec<TreePath>,
    pub active_file_path: Option<TreePath>,
    pub focused_dock: Option<DockPosition>,
}

/// What an optional path holds.
pub open spec fn path_option(p: Option<TreePath>) -> Option<Seq<char>> {
    match p {
        Some(inner) => Some(inner@),
        None => None,
    }
}

/// Which of the directories that are mapped a file lies in: the deepest, and of equally deep ones
/// the last.
pub open spec fn best_root(
    remapping: Seq<(Seq<char>, Seq<char>)>,
    file: Seq<char>,
) -> Option<int>
    decreases remapping.len(),
{
    if remapping.len() == 0 {
        None
    } else {
        let at = remapping.len() - 1;
        let earlier = best_root(remapping.drop_last(), file);
        if !path::is_under(file, remapping[at].0) {
            earlier
        } else if earlier matches Some(best) && path::depth_of(remapping[best].0)
            > path::depth_of(remapping[at].0) {
            earlier
        } else {
            Some(at)
        }
    }
}

/// Whether a file lies under one of `folders`.
pub open spec fn lies_in_any(file: Seq<char>, folders: Seq<Seq<char>>) -> bool {
    exists|i: int| 0 <= i < folders.len() && path::is_under(file, #[trigger] folders[i])
}

/// The path of a file in the new workspace: in the new worktree that its directory is mapped to;
/// where it was, if it is in a folder without a repository; else nowhere.
pub open spec fn remapped(
    remapping: Seq<(Seq<char>, Seq<char>)>,
    non_git_paths: Seq<Seq<char>>,
    file: Seq<char>,
) -> Option<Seq<char>> {
    match best_root(remapping, file) {
        Some(at) => Some(
            path::joined_text(
                remapping[at].1,
                path::stripped_text(file, path::depth_of(remapping[at].0)),
            ),
        ),
        None => if lies_in_any(file, non_git_paths) {
            Some(file)
        } else {
            None
        },
    }
}

/// A file goes by the deepest directory that it lies in; only where it lies in none does it go by
/// none.
pub proof fn best_root_is_deepest(
    remapping: Seq<(Seq<char>, Seq<char>)>,
    file: Seq<char>,
)
    ensures
        match best_root(remapping, file) {
            Some(at) => {
                &&& 0 <= at < remapping.len()
                &&& path::is_under(file, remapping[at].0)
                &&& forall|other: int|
                    0 <= other < remapping.len() && path::is_under(
                        file,
                        (#[trigger] remapping[other]).0,
                    ) ==> path::depth_of(remapping[other].0) <= path::depth_of(
                        remapping[at].0,
                    )
            },
            None => forall|other: int|
                0 <= other < remapping.len() ==> !path::is_under(
                    file,
                    (#[trigger] remapping[other]).0,
                ),
        },
    decreases remapping.len(),
{
    if remapping.len() > 0 {
        let rest = remapping.drop_last();
        best_root_is_deepest(rest, file);
        assert forall|other: int| 0 <= other < rest.len() implies #[trigger] remapping[other]
            == rest[other] by {}
    }
}

/// A file that lies in a mapped directory is opened again at the same place in the new worktree:
/// behind the new worktree come the components that came behind the directory.
pub proof fn remapped_file_keeps_its_place(
    remapping: Seq<(Seq<char>, Seq<char>)>,
    non_git_paths: Seq<Seq<char>>,
    file: Seq<char>,
    at: int,
)
    requires
        best_root(remapping, file) == Some(at),
        remapping[at].0.len() > 0 || remapping[at].1.len() == 0 || !path::has_start(file),
    ensures
        remapped(remapping, non_git_paths, file) matches Some(new_path) && path::components_of(
            new_path,
        ) == path::components_of(remapping[at].1) + path::components_of(file).skip(
            path::depth_of(remapping[at].0),
        ) && path::is_under(new_path, remapping[at].1),
{
    best_root_is_deepest(remapping, file);
    let (old_root, new_root) = remapping[at];
    let count = path::depth_of(old_root);
    let rest = path::stripped_text(file, count);
    let left = path::components_of(file).skip(count);
    if old_root.len() > 0 {
        path::nonempty_path_has_components(old_root);
    }
    path::stripped_path_has_the_rest(file, count);
    if new_root.len() > 0 {
        path::joined_lies_under(new_root, rest);
    } else {
        assert(path::components_of(new_root) =~= Seq::empty());
        assert(path::components_of(new_root) + left =~= left);
        assert(left.take(0) =~= path::components_of(new_root));
    }
}

/// Of equally deep directories that a file lies in, it goes by the last.
pub proof fn last_of_equally_deep_roots_counts(
    remapping: Seq<(Seq<char>, Seq<char>)>,
    file: Seq<char>,
    at: int,
    other: int,
)
    requires
        best_root(remapping, file) == Some(at),
        0 <= other < remapping.len(),
        path::is_under(file, remapping[other].0),
        path::depth_of(remapping[other].0) == path::depth_of(remapping[at].0),
    ensures
        other <= at,
    decreases remapping.len(),
{
    best_root_is_deepest(remapping, file);
    let rest = remapping.drop_last();
    best_root_is_deepest(rest, file);
    if other < rest.len() && at < rest.len() {
        assert(rest[other] == remapping[other]);
        assert(rest[at] == remapping[at]);
        last_of_equally_deep_roots_counts(rest, file, at, other);
    } else if at < rest.len() {
        assert(rest[at] == remapping[at]);
    }
}

/// A file that lies in no mapped directory stays where it was, as it is written, where it is in a
/// folder without a repository; and any other file is not opened.
pub proof fn unmapped_file_stays_or_goes(
    remapping: Seq<(Seq<char>, Seq<char>)>,
    non_git_paths: Seq<Seq<char>>,
    file: Seq<char>,
)
    requires
        forall|i: int|
            0 <= i < remapping.len() ==> !path::is_under(file, (#[trigger] remapping[i]).0),
    ensures
        (exists|i: int|
            0 <= i < non_git_paths.len() && path::is_under(file, #[trigger] non_git_paths[i]))
            ==> remapped(remapping, non_git_paths, file) == Some(file),
        (forall|i: int|
            0 <= i < non_git_paths.len() ==> !path::is_under(file, #[trigger] non_git_paths[i]))
            ==> remapped(remapping, non_git_paths, file) is None,
{
    best_root_is_deepest(remapping, file);
}

/// Whether there is an active file, and it is at `file`.
pub open spec fn is_same_as(active: Option<Seq<char>>, file: Seq<char>) -> bool {
    active matches Some(inner) && path::is_same(inner, file)
}

/// The files to open before the one that was active: the new paths of those that were open, each
/// once and in their order, but for that of the active one.
pub open spec fn files_before_active(
    remapping: Seq<(Seq<char>, Seq<char>)>,
    non_git_paths: Seq<Seq<char>>,
    files: Seq<Seq<char>>,
    active: Option<Seq<char>>,
) -> Seq<Seq<char>>
    decreases files.len(),
{
    if files.len() == 0 {
        Seq::empty()
    } else {
        let earlier = files_before_active(remapping, non_git_paths, files.drop_last(), active);
        match remapped(remapping, non_git_paths, files.last()) {
            Some(new_path) if !is_same_as(active, new_path) && !path::is_among(
                earlier,
                new_path,
            ) => earlier.push(new_path),
            _ => earlier,
        }
    }
}

/// The new path of the file that was active.
pub open spec fn new_active(
    remapping: Seq<(Seq<char>, Seq<char>)>,
    non_git_paths: Seq<Seq<char>>,
    active: Option<Seq<char>>,
) -> Option<Seq<char>> {
    match active {
        Some(file) => remapped(remapping, non_git_paths, file),
        None => None,
    }
}

/// The files to open in the new workspace. The one that was active comes last.
pub open spec fn files_to_open(
    remapping: Seq<(Seq<char>, Seq<char>)>,
    non_git_paths: Seq<Seq<char>>,
    files: Seq<Seq<char>>,
    active: Option<Seq<char>>,
) -> Seq<Seq<char>> {
    let last = new_active(remapping, non_git_paths, active);
    let earlier = files_before_active(remapping, non_git_paths, files, last);
    match last {
        Some(new_path) => earlier.push(new_path),
        None => earlier,
    }
}

proof fn lemma_files_before_active(
    remapping: Seq<(Seq<char>, Seq<char>)>,
    non_git_paths: Seq<Seq<char>>,
    files: Seq<Seq<char>>,
    active: Option<Seq<char>>,
)
    ensures
        path::are_different(files_before_active(remapping, non_git_paths, files, active)),
        active matches Some(last) ==> !path::is_among(
            files_before_active(remapping, non_git_paths, files, active),
            last,
        ),
    decreases files.len(),
{
    if files.len() > 0 {
        lemma_files_before_active(remapping, non_git_paths, files.drop_last(), active);
        let earlier = files_before_active(remapping, non_git_paths, files.drop_last(), active);
        let after = files_before_active(remapping, non_git_paths, files, active);
        if after.len() > earlier.len() {
            lemma_different_of_push(earlier, after.last());
            if let Some(last) = active {
                assert forall|i: int| 0 <= i < after.len() implies !path::is_same(
                    #[trigger] after[i],
                    last,
                ) by {
                    if i < earlier.len() {
                        assert(after[i] == earlier[i]);
                    }
                }
            }
        }
    }
}

proof fn lemma_different_of_push(paths: Seq<Seq<char>>, added: Seq<char>)
    requires
        path::are_different(paths),
        !path::is_among(paths, added),
    ensures
        path::are_different(paths.push(added)),
{
    let after = paths.push(added);
    assert forall|i: int, j: int| 0 <= i < j < after.len() implies !path::is_same(
        #[trigger] after[i],
        #[trigger] after[j],
    ) by {
        assert(after[i] == paths[i]);
        if j < paths.len() {
            assert(after[j] == paths[j]);
        }
    }
}

/// No file is opened twice, and the one that was active is opened last.
pub proof fn files_are_opened_once(
    remapping: Seq<(Seq<char>, Seq<char>)>,
    non_git_paths: Seq<Seq<char>>,
    files: Seq<Seq<char>>,
    active: Option<Seq<char>>,
)
    ensures
        path::are_different(files_to_open(remapping, non_git_paths, files, active)),
        new_active(remapping, non_git_paths, active) matches Some(last) ==> files_to_open(
            remapping,
            non_git_paths,
            files,
            active,
        ).last() == last,
{
    let last = new_active(remapping, non_git_paths, active);
    lemma_files_before_active(remapping, non_git_paths, files, last);
    if let Some(new_path) = last {
        lemma_different_of_push(
            files_before_active(remapping, non_git_paths, files, last),
            new_path,
        );
    }
}

proof fn lemma_files_are_complete(
    remapping: Seq<(Seq<char>, Seq<char>)>,
    non_git_paths: Seq<Seq<char>>,
    files: Seq<Seq<char>>,
    active: Option<Seq<char>>,
)
    ensures
        ({
            let found = files_before_active(remapping, non_git_paths, files, active);
            &&& forall|i: int| #![trigger files[i]]
                0 <= i < files.len() ==> (remapped(remapping, non_git_paths, files[i]) matches Some(
                    new_path,
                ) ==> path::is_among(found, new_path) || (active matches Some(last)
                    && path::is_same(last, new_path)))
            &&& forall|k: int|
                0 <= k < found.len() ==> exists|i: int|
                    0 <= i < files.len() && remapped(
                        remapping,
                        non_git_paths,
                        #[trigger] files[i],
                    ) == Some(#[trigger] found[k])
        }),
    decreases files.len(),
{
    if files.len() > 0 {
        let rest = files.drop_last();
        lemma_files_are_complete(remapping, non_git_paths, rest, active);
        let earlier = files_before_active(remapping, non_git_paths, rest, active);
        let found = files_before_active(remapping, non_git_paths, files, active);
        assert forall|p: Seq<char>| path::is_among(earlier, p) implies path::is_among(found, p) by {
            let k = choose|k: int| 0 <= k < earlier.len() && path::is_same(#[trigger] earlier[k], p);
            assert(found[k] == earlier[k]);
        }
        assert forall|i: int| #![trigger files[i]]
            0 <= i < files.len() implies (remapped(
            remapping,
            non_git_paths,
            files[i],
        ) matches Some(new_path) ==> path::is_among(found, new_path) || (active matches Some(last)
            && path::is_same(last, new_path))) by {
            if i < rest.len() {
                assert(rest[i] == files[i]);
            } else if found.len() > earlier.len() {
                assert(path::is_same(found[earlier.len() as int], found[earlier.len() as int]));
            }
        }
        assert forall|k: int| 0 <= k < found.len() implies exists|i: int|
            0 <= i < files.len() && remapped(remapping, non_git_paths, #[trigger] files[i]) == Some(
                #[trigger] found[k],
            ) by {
            if k < earlier.len() {
                assert(found[k] == earlier[k]);
                let i = choose|i: int|
                    0 <= i < rest.len() && remapped(remapping, non_git_paths, #[trigger] rest[i])
                        == Some(earlier[k]);
                assert(files[i] == rest[i]);
            } else {
                assert(files[files.len() - 1] == files.last());
            }
        }
    }
}

/// Every file that was open and has a place in the new workspace is opened there, and so is the one
/// that was active; and nothing else is.
pub proof fn every_open_file_is_opened_again(
    remapping: Seq<(Seq<char>, Seq<char>)>,
    non_git_paths: Seq<Seq<char>>,
    files: Seq<Seq<char>>,
    active: Option<Seq<char>>,
)
    ensures
        ({
            let opened = files_to_open(remapping, non_git_paths, files, active);
            &&& forall|i: int| #![trigger files[i]]
                0 <= i < files.len() ==> (remapped(remapping, non_git_paths, files[i]) matches Some(
                    new_path,
                ) ==> path::is_among(opened, new_path))
            &&& active matches Some(file) ==> (remapped(remapping, non_git_paths, file) matches
                Some(new_path) ==> opened.len() > 0 && opened.last() == new_path)
            &&& forall|k: int|
                0 <= k < opened.len() ==> (active matches Some(file) && remapped(
                    remapping,
                    non_git_paths,
                    file,
                ) == Some(#[trigger] opened[k])) || exists|i: int|
                    0 <= i < files.len() && remapped(
                        remapping,
                        non_git_paths,
                        #[trigger] files[i],
                    ) == Some(#[trigger] opened[k])
        }),
{
    let last = new_active(remapping, non_git_paths, active);
    let found = files_before_active(remapping, non_git_paths, files, last);
    let opened = files_to_open(remapping, non_git_paths, files, active);
    lemma_files_are_complete(remapping, non_git_paths, files, last);
    assert forall|p: Seq<char>| path::is_among(found, p) implies path::is_among(opened, p) by {
        let k = choose|k: int| 0 <= k < found.len() && path::is_same(#[trigger] found[k], p);
        assert(opened[k] == found[k]);
    }
    assert forall|i: int| #![trigger files[i]]
        0 <= i < files.len() implies (remapped(remapping, non_git_paths, files[i]) matches Some(
        new_path,
    ) ==> path::is_among(opened, new_path)) by {
        if let Some(new_path) = last {
            assert(opened[found.len() as int] == new_path);
        }
    }
    assert forall|k: int| 0 <= k < opened.len() implies (active matches Some(file) && remapped(
        remapping,
        non_git_paths,
        file,
    ) == Some(#[trigger] opened[k])) || exists|i: int|
        0 <= i < files.len() && remapped(remapping, non_git_paths, #[trigger] files[i]) == Some(
            #[trigger] opened[k],
        ) by {
        if k < found.len() {
            assert(opened[k] == found[k]);
        }
    }
}

/// Files are opened in the order in which they were open: what more of them add comes behind.
pub proof fn files_are_opened_in_order(
    remapping: Seq<(Seq<char>, Seq<char>)>,
    non_git_paths: Seq<Seq<char>>,
    files: Seq<Seq<char>>,
    file: Seq<char>,
    active: Option<Seq<char>>,
)
    ensures
        ({
            let earlier = files_before_active(remapping, non_git_paths, files, active);
            let after = files_before_active(remapping, non_git_paths, files.push(file), active);
            after == earlier || (after.len() == earlier.len() + 1 && after.drop_last() == earlier)
        }),
{
    let earlier = files_before_active(remapping, non_git_paths, files, active);
    let after = files_before_active(remapping, non_git_paths, files.push(file), active);
    assert(files.push(file).drop_last() =~= files);
    if after.len() > earlier.len() {
        assert(after.drop_last() =~= earlier);
    }
}

/// The new worktrees that directories are mapped to, each once, with the first directory that is
/// mapped to it.
pub open spec fn new_worktrees(remapping: Seq<(Seq<char>, Seq<char>)>) -> Seq<
    (Seq<char>, Seq<char>),
>
    decreases remapping.len(),
{
    if remapping.len() == 0 {
        Seq::empty()
    } else {
        let earlier = new_worktrees(remapping.drop_last());
        if creation::is_mapped_to(earlier, remapping.last().1) {
            earlier
        } else {
            earlier.push(remapping.last())
        }
    }
}

/// Every new worktree is set up, and none twice.
pub proof fn each_new_worktree_is_set_up_once(
    remapping: Seq<(Seq<char>, Seq<char>)>,
    new_path: Seq<char>,
)
    ensures
        creation::is_mapped_to(new_worktrees(remapping), new_path) <==> creation::is_mapped_to(
            remapping,
            new_path,
        ),
        forall|i: int, j: int|
            0 <= i < j < new_worktrees(remapping).len() ==> !path::is_same(
                (#[trigger] new_worktrees(remapping)[i]).1,
                (#[trigger] new_worktrees(remapping)[j]).1,
            ),
    decreases remapping.len(),
{
    if remapping.len() > 0 {
        let rest = remapping.drop_last();
        let last = remapping.last();
        each_new_worktree_is_set_up_once(rest, new_path);
        let earlier = new_worktrees(rest);
        let after = new_worktrees(remapping);
        assert(remapping[remapping.len() - 1] == last);
        if creation::is_mapped_to(rest, new_path) {
            let i = choose|i: int|
                0 <= i < rest.len() && path::is_same((#[trigger] rest[i]).1, new_path);
            assert(path::is_same(remapping[i].1, new_path));
        }
        if creation::is_mapped_to(remapping, new_path) && !path::is_same(last.1, new_path) {
            let i = choose|i: int|
                0 <= i < remapping.len() && path::is_same((#[trigger] remapping[i]).1, new_path);
            assert(path::is_same(rest[i].1, new_path));
        }
        if creation::is_mapped_to(earlier, new_path) {
            let i = choose|i: int|
                0 <= i < earlier.len() && path::is_same((#[trigger] earlier[i]).1, new_path);
            assert(path::is_same(after[i].1, new_path));
        }
        if creation::is_mapped_to(earlier, last.1) {
            let i = choose|i: int|
                0 <= i < earlier.len() && path::is_same((#[trigger] earlier[i]).1, last.1);
            if path::is_same(last.1, new_path) {
                assert(path::is_same(earlier[i].1, new_path));
            }
        } else {
            assert(after[earlier.len() as int] == last);
            if creation::is_mapped_to(after, new_path) && !path::is_same(last.1, new_path) {
                let i = choose|i: int|
                    0 <= i < after.len() && path::is_same((#[trigger] after[i]).1, new_path);
                assert(path::is_same(earlier[i].1, new_path));
            }
            assert forall|i: int, j: int| 0 <= i < j < after.len() implies !path::is_same(
                (#[trigger] after[i]).1,
                (#[trigger] after[j]).1,
            ) by {
                assert(after[i] == earlier[i]);
                if j < earlier.len() {
                    assert(after[j] == earlier[j]);
                }
            }
        }
    }
}

/// Each new worktree is set up as the first directory that is mapped to it has it.
pub proof fn first_directory_sets_a_worktree_up(remapping: Seq<(Seq<char>, Seq<char>)>, at: int)
    requires
        0 <= at < remapping.len(),
        forall|i: int|
            0 <= i < at ==> !path::is_same((#[trigger] remapping[i]).1, remapping[at].1),
    ensures
        new_worktrees(remapping).contains(remapping[at]),
    decreases remapping.len(),
{
    let rest = remapping.drop_last();
    let earlier = new_worktrees(rest);
    let after = new_worktrees(remapping);
    if at < rest.len() {
        assert forall|i: int| 0 <= i < at implies !path::is_same(
            (#[trigger] rest[i]).1,
            rest[at].1,
        ) by {
            assert(rest[i] == remapping[i]);
        }
        first_directory_sets_a_worktree_up(rest, at);
        let k = choose|k: int| 0 <= k < earlier.len() && earlier[k] == rest[at];
        assert(after[k] == remapping[at]);
    } else {
        each_new_worktree_is_set_up_once(rest, remapping[at].1);
        if creation::is_mapped_to(rest, remapping[at].1) {
            let i = choose|i: int|
                0 <= i < rest.len() && path::is_same((#[trigger] rest[i]).1, remapping[at].1);
            assert(rest[i] == remapping[i]);
        }
        assert(after[earlier.len() as int] == remapping[at]);
    }
}

/// What is to be opened: the paths of the project, how its directories are mapped to new
/// worktrees, its folders without a repository, what was open before, and whether the workspace is
/// brought to the front.
pub struct OpenRequest {
    pub all_paths: Vec<TreePath>,
    pub path_remapping: Vec<(TreePath, TreePath)>,
    pub non_git_paths: Vec<TreePath>,
    pub previous_state: PreviousWorkspaceState,
    pub operation: WorktreeOperation,
    pub activate: bool,
}

/// The contents of an `OpenRequest`.
#[verifier::ext_equal]
pub struct OpenContents {
    pub all_paths: Seq<Seq<char>>,
    pub remapping: Seq<(Seq<char>, Seq<char>)>,
    pub non_git_paths: Seq<Seq<char>>,
    pub open_files: Seq<Seq<char>>,
    pub active_file: Option<Seq<char>>,
    pub focused_dock: Option<DockPosition>,
    pub operation: WorktreeOperation,
    pub activate: bool,
}

impl View for OpenRequest {
    type V = OpenContents;

    open spec fn view(&self) -> OpenContents {
        OpenContents {
            all_paths: terminal_thread::path_contents(self.all_paths@),
            remapping: creation::remapping_contents(self.path_remapping@),
            non_git_paths: terminal_thread::path_contents(self.non_git_paths@),
            open_files: terminal_thread::path_contents(self.previous_state.open_file_paths@),
            active_file: path_option(self.previous_state.active_file_path),
            focused_dock: self.previous_state.focused_dock,
            operation: self.operation,
            activate: self.activate,
        }
    }
}

/// How far the opening of a workspace has come.
pub enum OpenStage {
    /// The tasks that set new worktrees up are run and waited for.
    SettingUp,
    /// The workspace is opened.
    Opening,
    /// That took too long, and the note of the operation is cleared.
    GivingUp,
    /// The dialog of the connection is dismissed. The workspace is open, or what to tell.
    Dismissing(Result<(), String>),
    /// The note of the operation is hidden.
    Hiding,
    /// The first scan of the project is waited for.
    Scanning,
    /// The repositories of the project are waited for.
    Settling,
    /// Trust in the worktrees is passed on.
    Trusting,
    /// The dialog that asks for trust is brought up to date.
    Refreshing,
    /// What was open before is opened again.
    Restoring,
    /// The workspace is brought to the front, or added in the background.
    Activating,
    /// What failed in the tasks that set new worktrees up is shown.
    ShowingError,
    /// The note of the operation is cleared.
    Clearing,
    /// The workspace is open, or what to tell.
    Finished(Result<(), String>),
}

/// The contents of an `OpenStage`.
pub enum OpenProgress {
    SettingUp,
    Opening,
    GivingUp,
    Dismissing(Result<(), Seq<char>>),
    Hiding,
    Scanning,
    Settling,
    Trusting,
    Refreshing,
    Restoring,
    Activating,
    ShowingError,
    Clearing,
    Finished(Result<(), Seq<char>>),
}

/// The state of the opening: how far it has come, and what is to be told where the tasks that set
/// new worktrees up failed.
#[verifier::ext_equal]
pub struct OpenState {
    pub stage: OpenProgress,
    pub setup_failure: Option<Seq<char>>,
}

/// The text of an outcome.
pub open spec fn outcome_text(outcome: Result<(), String>) -> Result<(), Seq<char>> {
    match outcome {
        Ok(_) => Ok(()),
        Err(message) => Err(message@),
    }
}

impl View for OpenStage {
    type V = OpenProgress;

    open spec fn view(&self) -> OpenProgress {
        match *self {
            OpenStage::Opening => OpenProgress::Opening,
            OpenStage::GivingUp => OpenProgress::GivingUp,
            OpenStage::Dismissing(outcome) => OpenProgress::Dismissing(outcome_text(outcome)),
            OpenStage::Hiding => OpenProgress::Hiding,
            OpenStage::Scanning => OpenProgress::Scanning,
            OpenStage::Settling => OpenProgress::Settling,
            OpenStage::Trusting => OpenProgress::Trusting,
            OpenStage::Refreshing => OpenProgress::Refreshing,
            OpenStage::Restoring => OpenProgress::Restoring,
            OpenStage::Activating => OpenProgress::Activating,
            OpenStage::SettingUp => OpenProgress::SettingUp,
            OpenStage::ShowingError => OpenProgress::ShowingError,
            OpenStage::Clearing => OpenProgress::Clearing,
            OpenStage::Finished(outcome) => OpenProgress::Finished(outcome_text(outcome)),
        }
    }
}

/// What came of what was to be done.
pub enum OpenEvent {
    /// It was done.
    Done,
    /// It took too long.
    TimedOut,
    /// It ended, and what was said where it failed.
    Ended(Result<(), String>),
    /// The window was gone, with what was said of it.
    WindowGone(String),
}

/// The contents of an `OpenEvent`.
pub enum OpenEventContents {
    Done,
    TimedOut,
    Ended(Result<(), Seq<char>>),
    WindowGone(Seq<char>),
}

impl View for OpenEvent {
    type V = OpenEventContents;

    open spec fn view(&self) -> OpenEventContents {
        match *self {
            OpenEvent::Done => OpenEventContents::Done,
            OpenEvent::TimedOut => OpenEventContents::TimedOut,
            OpenEvent::Ended(outcome) => OpenEventContents::Ended(outcome_text(outcome)),
            OpenEvent::WindowGone(message) => OpenEventContents::WindowGone(message@),
        }
    }
}

/// What is to be done next.
pub enum OpenAction {
    /// Run the tasks that set new worktrees up, for each pair of a directory of the project and the
    /// new worktree that it is mapped to, and wait for them.
    RunSetup { worktrees: Vec<(TreePath, TreePath)> },
    /// Show an error in the new workspace.
    ShowError(String),
    /// Open a workspace for paths, and hand the state of the source workspace on to it or not.
    /// Wait for it no longer than `WORKTREE_WORKSPACE_OPEN_TIMEOUT_SECONDS`.
    OpenWorkspace { paths: Vec<TreePath>, transfer_state: bool },
    /// Dismiss the dialog of the connection.
    DismissConnectionDialog,
    /// Hide the note of the operation, and let the panels of the new workspace load.
    HideOperation,
    /// Clear the note of the operation.
    ClearOperation,
    /// Wait for the first scan, no longer than `WORKTREE_INITIAL_SCAN_TIMEOUT_SECONDS`.
    AwaitInitialScan,
    /// Wait for the repositories, no longer than `WORKTREE_REPOSITORY_BARRIER_TIMEOUT_SECONDS`.
    AwaitRepositories,
    /// Pass the trust in the source workspace on to the worktrees at paths.
    PropagateTrust { paths: Vec<TreePath> },
    /// Bring the dialog that asks for trust up to date in the new workspace, whether trust was
    /// passed on or not.
    RefreshTrustDialog,
    /// Tell that some folders are in no repository, if so; open files; and then focus the center,
    /// if so.
    Restore { tell_plain_folders: bool, files: Vec<TreePath>, focus_center: bool },
    /// Bring the workspace to the front, or add it in the background; and focus a dock, if so.
    Activate { foreground: bool, focus_dock: Option<DockPosition> },
}

/// The contents of an `OpenAction`.
pub enum OpenActionContents {
    RunSetup { worktrees: Seq<(Seq<char>, Seq<char>)> },
    ShowError(Seq<char>),
    OpenWorkspace { paths: Seq<Seq<char>>, transfer_state: bool },
    DismissConnectionDialog,
    HideOperation,
    ClearOperation,
    AwaitInitialScan,
    AwaitRepositories,
    PropagateTrust { paths: Seq<Seq<char>> },
    RefreshTrustDialog,
    Restore { tell_plain_folders: bool, files: Seq<Seq<char>>, focus_center: bool },
    Activate { foreground: bool, focus_dock: Option<DockPosition> },
}

impl View for OpenAction {
    type V = OpenActionContents;

    open spec fn view(&self) -> OpenActionContents {
        match *self {
            OpenAction::RunSetup { worktrees } => OpenActionContents::RunSetup {
                worktrees: creation::remapping_contents(worktrees@),
            },
            OpenAction::OpenWorkspace { paths, transfer_state } =>
                OpenActionContents::OpenWorkspace {
                paths: terminal_thread::path_contents(paths@),
                transfer_state,
            },
            OpenAction::DismissConnectionDialog => OpenActionContents::DismissConnectionDialog,
            OpenAction::HideOperation => OpenActionContents::HideOperation,
            OpenAction::ClearOperation => OpenActionContents::ClearOperation,
            OpenAction::AwaitInitialScan => OpenActionContents::AwaitInitialScan,
            OpenAction::AwaitRepositories => OpenActionContents::AwaitRepositories,
            OpenAction::PropagateTrust { paths } => OpenActionContents::PropagateTrust {
                paths: terminal_thread::path_contents(paths@),
            },
            OpenAction::RefreshTrustDialog => OpenActionContents::RefreshTrustDialog,
            OpenAction::Restore { tell_plain_folders, files, focus_center } =>
                OpenActionContents::Restore {
                tell_plain_folders,
                files: terminal_thread::path_contents(files@),
                focus_center,
            },
            OpenAction::Activate { foreground, focus_dock } => OpenActionContents::Activate {
                foreground,
                focus_dock,
            },
            OpenAction::ShowError(message) => OpenActionContents::ShowError(message@),
        }
    }
}

impl OpenContents {
    /// Whether the state of the source workspace is handed on: only to a worktree that is created
    /// and brought to the front.
    pub open spec fn transfers_state(self) -> bool {
        self.operation == WorktreeOperation::Create && self.activate
    }

    /// The files to open again.
    pub open spec fn files(self) -> Seq<Seq<char>> {
        files_to_open(self.remapping, self.non_git_paths, self.open_files, self.active_file)
    }

    /// The start of the opening: without a window there is none, and new worktrees are set up
    /// before anything is opened.
    pub open spec fn start(self, has_window: bool) -> OpenState {
        OpenState {
            stage: if !has_window {
                OpenProgress::Finished(Err("No window handle available for workspace creation"@))
            } else if self.operation == WorktreeOperation::Create {
                OpenProgress::SettingUp
            } else {
                OpenProgress::Opening
            },
            setup_failure: None,
        }
    }

    /// What is to be done in a state.
    pub open spec fn action(self, state: OpenState) -> Option<OpenActionContents> {
        match state.stage {
            OpenProgress::SettingUp => Some(
                OpenActionContents::RunSetup { worktrees: new_worktrees(self.remapping) },
            ),
            OpenProgress::Opening => Some(
                OpenActionContents::OpenWorkspace {
                    paths: self.all_paths,
                    transfer_state: self.transfers_state(),
                },
            ),
            OpenProgress::GivingUp => Some(OpenActionContents::ClearOperation),
            OpenProgress::Dismissing(_) => Some(OpenActionContents::DismissConnectionDialog),
            OpenProgress::Hiding => Some(OpenActionContents::HideOperation),
            OpenProgress::Scanning => Some(OpenActionContents::AwaitInitialScan),
            OpenProgress::Settling => Some(OpenActionContents::AwaitRepositories),
            OpenProgress::Trusting => Some(
                OpenActionContents::PropagateTrust { paths: self.all_paths },
            ),
            OpenProgress::Refreshing => Some(OpenActionContents::RefreshTrustDialog),
            OpenProgress::Restoring => Some(
                OpenActionContents::Restore {
                    tell_plain_folders: self.non_git_paths.len() > 0,
                    files: self.files(),
                    focus_center: self.files().len() > 0 && self.focused_dock is None,
                },
            ),
            OpenProgress::Activating => Some(
                OpenActionContents::Activate {
                    foreground: self.activate,
                    focus_dock: if self.transfers_state() {
                        self.focused_dock
                    } else {
                        None
                    },
                },
            ),
            OpenProgress::ShowingError => Some(
                OpenActionContents::ShowError(state.setup_failure->0),
            ),
            OpenProgress::Clearing => Some(OpenActionContents::ClearOperation),
            OpenProgress::Finished(_) => None,
        }
    }

    /// The stage that an event leads to. One that is not about what was to be done changes
    /// nothing. The workspace is opened whether the tasks that set new worktrees up failed or not.
    pub open spec fn next_stage(self, state: OpenState, event: OpenEventContents) -> OpenProgress {
        match (state.stage, event) {
            (OpenProgress::SettingUp, OpenEventContents::Ended(_)) => OpenProgress::Opening,
            (OpenProgress::SettingUp, OpenEventContents::WindowGone(message)) =>
                OpenProgress::Finished(Err(message)),
            (OpenProgress::Opening, OpenEventContents::Ended(outcome)) => OpenProgress::Dismissing(
                outcome,
            ),
            (OpenProgress::Opening, OpenEventContents::TimedOut) => OpenProgress::GivingUp,
            (OpenProgress::Opening, OpenEventContents::WindowGone(message)) =>
                OpenProgress::Finished(Err(message)),
            (OpenProgress::GivingUp, OpenEventContents::Done) => OpenProgress::Dismissing(
                Err(
                    "Timed out after 60 seconds waiting for the worktree workspace to open"@,
                ),
            ),
            (OpenProgress::Dismissing(outcome), OpenEventContents::Done) => if outcome is Ok {
                OpenProgress::Hiding
            } else {
                OpenProgress::Finished(outcome)
            },
            (OpenProgress::Hiding, OpenEventContents::Done) => OpenProgress::Scanning,
            (OpenProgress::Scanning, OpenEventContents::Done | OpenEventContents::TimedOut) =>
                OpenProgress::Settling,
            (OpenProgress::Settling, OpenEventContents::Done | OpenEventContents::TimedOut) =>
                OpenProgress::Trusting,
            (OpenProgress::Trusting, OpenEventContents::Done) => OpenProgress::Refreshing,
            (OpenProgress::Refreshing, OpenEventContents::Done) => if self.transfers_state() {
                OpenProgress::Restoring
            } else {
                OpenProgress::Activating
            },
            (OpenProgress::Restoring, OpenEventContents::Done) => OpenProgress::Activating,
            (OpenProgress::Restoring, OpenEventContents::WindowGone(message)) =>
                OpenProgress::Finished(Err(message)),
            (OpenProgress::Activating, OpenEventContents::Done) => if state.setup_failure is Some {
                OpenProgress::ShowingError
            } else {
                OpenProgress::Clearing
            },
            (OpenProgress::Activating, OpenEventContents::WindowGone(message)) =>
                OpenProgress::Finished(Err(message)),
            (OpenProgress::ShowingError, OpenEventContents::Done) => OpenProgress::Clearing,
            (OpenProgress::Clearing, OpenEventContents::Done) => OpenProgress::Finished(
                match state.setup_failure {
                    Some(message) => Err(message),
                    None => Ok(()),
                },
            ),
            _ => state.stage,
        }
    }

    /// The state that an event leads to.
    pub open spec fn next(self, state: OpenState, event: OpenEventContents) -> OpenState {
        OpenState {
            stage: self.next_stage(state, event),
            setup_failure: match (state.stage, event) {
                (OpenProgress::SettingUp, OpenEventContents::Ended(Err(message))) => Some(
                    "Failed to set up worktree: "@ + message,
                ),
                _ => state.setup_failure,
            },
        }
    }
}

impl OpenState {
    /// Whether a state of the opening that a request asks for can be reached.
    pub open spec fn valid(self, request: OpenContents) -> bool {
        &&& self.stage is Restoring ==> request.transfers_state()
        &&& self.stage is SettingUp ==> request.operation == WorktreeOperation::Create
            && self.setup_failure is None
        &&& self.stage is ShowingError ==> self.setup_failure is Some
        &&& self.stage matches OpenProgress::Finished(Ok(_)) ==> self.setup_failure is None
        &&& self.setup_failure is Some ==> request.operation == WorktreeOperation::Create
    }
}

impl OpenProgress {
    /// The most steps that are still to come.
    pub open spec fn steps_left(self) -> int {
        match self {
            OpenProgress::SettingUp => 14,
            OpenProgress::Opening => 13,
            OpenProgress::GivingUp => 12,
            OpenProgress::Dismissing(_) => 11,
            OpenProgress::Hiding => 10,
            OpenProgress::Scanning => 9,
            OpenProgress::Settling => 8,
            OpenProgress::Trusting => 7,
            OpenProgress::Refreshing => 6,
            OpenProgress::Restoring => 5,
            OpenProgress::Activating => 4,
            OpenProgress::ShowingError => 3,
            OpenProgress::Clearing => 2,
            OpenProgress::Finished(_) => 0,
        }
    }

    /// Whether the stage comes before the workspace is opened, or nothing was opened.
    pub open spec fn is_before_opening(self) -> bool {
        self is SettingUp || self matches OpenProgress::Finished(Err(_))
    }
}

/// The state that events lead to, one after the other, from the start.
pub open spec fn state_after(
    request: OpenContents,
    has_window: bool,
    events: Seq<OpenEventContents>,
) -> OpenState
    decreases events.len(),
{
    if events.len() == 0 {
        request.start(has_window)
    } else {
        request.next(state_after(request, has_window, events.drop_last()), events.last())
    }
}

/// Whether the tasks that set new worktrees up were run to their end by events: one of them tells
/// that they ended, where they were waited for.
pub open spec fn setup_has_ended(
    request: OpenContents,
    has_window: bool,
    events: Seq<OpenEventContents>,
) -> bool {
    exists|i: int|
        0 <= i < events.len() && (#[trigger] state_after(request, has_window, events.take(
            i,
        ))).stage is SettingUp && events[i] is Ended
}

proof fn lemma_setup_has_ended_or_before(
    request: OpenContents,
    has_window: bool,
    events: Seq<OpenEventContents>,
)
    requires
        request.operation == WorktreeOperation::Create,
    ensures
        setup_has_ended(request, has_window, events) || state_after(
            request,
            has_window,
            events,
        ).stage.is_before_opening(),
    decreases events.len(),
{
    if events.len() > 0 {
        let rest = events.drop_last();
        lemma_setup_has_ended_or_before(request, has_window, rest);
        let at = rest.len() as int;
        assert(events.take(at) =~= rest);
        let state = state_after(request, has_window, events.take(at));
        assert(events[at] == events.last());
        if setup_has_ended(request, has_window, rest) {
            let i = choose|i: int|
                0 <= i < rest.len() && (#[trigger] state_after(request, has_window, rest.take(
                    i,
                ))).stage is SettingUp && rest[i] is Ended;
            assert(events.take(i) =~= rest.take(i));
            assert(state_after(request, has_window, events.take(i)).stage is SettingUp);
        }
    }
}

/// A new worktree is set up before it is opened: whatever happened, its workspace is opened, its
/// first scan and its repositories are waited for, and it is activated only after the tasks that set
/// it up have ended.
pub proof fn setup_comes_before_opening(
    request: OpenContents,
    has_window: bool,
    events: Seq<OpenEventContents>,
)
    requires
        request.operation == WorktreeOperation::Create,
        ({
            let action = request.action(state_after(request, has_window, events));
            ||| action matches Some(OpenActionContents::OpenWorkspace { .. })
            ||| action matches Some(OpenActionContents::AwaitInitialScan)
            ||| action matches Some(OpenActionContents::AwaitRepositories)
            ||| action matches Some(OpenActionContents::PropagateTrust { .. })
            ||| action matches Some(OpenActionContents::Restore { .. })
            ||| action matches Some(OpenActionContents::Activate { .. })
        }),
    ensures
        setup_has_ended(request, has_window, events),
{
    lemma_setup_has_ended_or_before(request, has_window, events);
}

/// The tasks that set worktrees up are run once at most: once they ended they are not run again,
/// and the workspace is opened whether they failed or not.
pub proof fn setup_runs_once(request: OpenContents, state: OpenState, event: OpenEventContents)
    ensures
        request.next(state, event).stage is SettingUp ==> state.stage is SettingUp,
        state.stage is SettingUp && event is Ended ==> request.next(state, event).stage is Opening,
{
}

/// A failure of the tasks that set worktrees up is kept and told: once the workspace is open it is
/// shown there before the note of the operation is cleared, and the opening ends with it. It never
/// ends well.
pub proof fn setup_failure_is_told(
    request: OpenContents,
    state: OpenState,
    event: OpenEventContents,
    message: Seq<char>,
)
    requires
        state.valid(request),
        state.setup_failure == Some(message),
    ensures
        request.next(state, event).setup_failure == Some(message),
        state.stage is ShowingError ==> request.action(state) == Some(
            OpenActionContents::ShowError(message),
        ),
        state.stage !is Clearing && request.next(state, event).stage is Clearing ==> state.stage
            is ShowingError,
        state.stage is Clearing && request.next(state, event).stage !is Clearing ==> request.next(
            state,
            event,
        ).stage == OpenProgress::Finished(Err::<(), Seq<char>>(message)),
        !(request.next(state, event).stage matches OpenProgress::Finished(Ok(_))),
{
}

/// What was open before is opened again only in a worktree that is created and brought to the
/// front, and the tasks that set a worktree up run only where one is created: neither happens
/// where a worktree is switched to.
pub proof fn only_creation_sets_up(
    request: OpenContents,
    state: OpenState,
    event: OpenEventContents,
)
    requires
        state.valid(request),
    ensures
        request.next(state, event).valid(request),
        request.action(state) matches Some(
            OpenActionContents::OpenWorkspace { transfer_state, .. },
        ) ==> (transfer_state ==> request.operation == WorktreeOperation::Create
            && request.activate),
        request.action(state) matches Some(OpenActionContents::Restore { .. })
            ==> request.operation == WorktreeOperation::Create && request.activate,
        request.action(state) matches Some(OpenActionContents::RunSetup { .. })
            ==> request.operation == WorktreeOperation::Create,
        request.action(state) matches Some(OpenActionContents::ShowError(_)) ==> request.operation
            == WorktreeOperation::Create,
{
}

/// The opening ends, and ends well only right after the note of the operation was cleared. The
/// trust is passed on, and the dialog that asks for it brought up to date, before anything of the
/// new workspace is shown.
pub proof fn opening_ends(request: OpenContents, state: OpenState, event: OpenEventContents)
    ensures
        request.next(state, event) == state || 0 <= request.next(state, event).stage.steps_left()
            < state.stage.steps_left() <= 14,
        request.next(state, event).stage == OpenProgress::Finished(Ok::<(), Seq<char>>(())) && !(
        state.stage is Finished) ==> state.stage is Clearing,
        request.next(state, event).stage is Activating && !(state.stage is Activating)
            ==> state.stage is Refreshing || state.stage is Restoring,
        request.next(state, event).stage is Restoring && !(state.stage is Restoring)
            ==> state.stage is Refreshing,
        request.next(state, event).stage is Refreshing && !(state.stage is Refreshing)
            ==> state.stage is Trusting,
{
}

/// What is done in each state: new worktrees are set up; the paths that were asked for are opened,
/// and trust in the source is passed on to them; what was open is opened again, and the center is
/// focused only where something is opened and no dock was focused; and the workspace goes to the
/// front only where that was asked for.
pub proof fn actions_are_those_of_the_request(request: OpenContents, state: OpenState)
    requires
        state.valid(request),
    ensures
        ({
            let creates = request.operation == WorktreeOperation::Create;
            let files = files_to_open(
                request.remapping,
                request.non_git_paths,
                request.open_files,
                request.active_file,
            );
            let action = request.action(state);
            &&& state.stage is SettingUp ==> action == Some(
                OpenActionContents::RunSetup { worktrees: new_worktrees(request.remapping) },
            )
            &&& state.stage is Opening ==> action == Some(
                OpenActionContents::OpenWorkspace {
                    paths: request.all_paths,
                    transfer_state: creates && request.activate,
                },
            )
            &&& state.stage is GivingUp || state.stage is Clearing ==> action == Some(
                OpenActionContents::ClearOperation,
            )
            &&& state.stage is Dismissing ==> action == Some(
                OpenActionContents::DismissConnectionDialog,
            )
            &&& state.stage is Hiding ==> action == Some(OpenActionContents::HideOperation)
            &&& state.stage is Scanning ==> action == Some(OpenActionContents::AwaitInitialScan)
            &&& state.stage is Settling ==> action == Some(OpenActionContents::AwaitRepositories)
            &&& state.stage is Trusting ==> action == Some(
                OpenActionContents::PropagateTrust { paths: request.all_paths },
            )
            &&& state.stage is Refreshing ==> action == Some(OpenActionContents::RefreshTrustDialog)
            &&& state.stage is Restoring ==> action == Some(
                OpenActionContents::Restore {
                    tell_plain_folders: request.non_git_paths.len() > 0,
                    files,
                    focus_center: files.len() > 0 && request.focused_dock is None,
                },
            )
            &&& state.stage is Activating ==> action == Some(
                OpenActionContents::Activate {
                    foreground: request.activate,
                    focus_dock: if creates && request.activate {
                        request.focused_dock
                    } else {
                        None
                    },
                },
            )
            &&& state.stage is ShowingError ==> action == Some(
                OpenActionContents::ShowError(state.setup_failure->0),
            )
            &&& state.stage is Finished <==> action is None
        }),
{
}

/// No step is passed over. An opened workspace is scanned and its repositories are waited for, as
/// long as that may take; trust is passed on and its dialog brought up to date; what was open is
/// opened again in a worktree that is created and brought to the front; the workspace is brought to
/// the front or added; a failed set-up is shown; and the note of the operation is cleared.
pub proof fn no_step_is_passed_over(request: OpenContents, state: OpenState)
    ensures
        ({
            let done = request.next(state, OpenEventContents::Done).stage;
            let late = request.next(state, OpenEventContents::TimedOut).stage;
            let opened = request.next(state, OpenEventContents::Ended(Ok(()))).stage;
            let restores = request.operation == WorktreeOperation::Create && request.activate;
            &&& state.stage is SettingUp ==> opened is Opening
            &&& state.stage is Opening ==> opened == OpenProgress::Dismissing(
                Ok::<(), Seq<char>>(()),
            ) && late is GivingUp
            &&& state.stage is GivingUp ==> done == OpenProgress::Dismissing(
                Err::<(), Seq<char>>(
                    "Timed out after 60 seconds waiting for the worktree workspace to open"@,
                ),
            )
            &&& (state.stage matches OpenProgress::Dismissing(Ok(_))) ==> done is Hiding
            &&& state.stage matches OpenProgress::Dismissing(Err(message)) ==> done
                == OpenProgress::Finished(Err::<(), Seq<char>>(message))
            &&& state.stage is Hiding ==> done is Scanning
            &&& state.stage is Scanning ==> done is Settling && late is Settling
            &&& state.stage is Settling ==> done is Trusting && late is Trusting
            &&& state.stage is Trusting ==> done is Refreshing
            &&& state.stage is Refreshing && restores ==> done is Restoring
            &&& state.stage is Refreshing && !restores ==> done is Activating
            &&& state.stage is Restoring ==> done is Activating
            &&& state.stage is Activating && state.setup_failure is Some ==> done is ShowingError
            &&& state.stage is Activating && state.setup_failure is None ==> done is Clearing
            &&& state.stage is ShowingError ==> done is Clearing
            &&& state.stage is Clearing && state.setup_failure is None ==> (done matches
                OpenProgress::Finished(Ok(_)))
        }),
        request.start(true).stage == (if request.operation == WorktreeOperation::Create {
            OpenProgress::SettingUp
        } else {
            OpenProgress::Opening
        }),
        request.start(false).stage == OpenProgress::Finished(
            Err::<(), Seq<char>>("No window handle available for workspace creation"@),
        ),
        request.start(true).setup_failure is None,
{
}

/// What does not answer what was to be done changes nothing: only setting up and opening end, only
/// opening, scanning and the wait for repositories can take too long, and a window is missed only
/// where one is needed.
pub proof fn open_events_out_of_turn_change_nothing(
    request: OpenContents,
    state: OpenState,
    event: OpenEventContents,
)
    ensures
        event is Ended && !(state.stage is SettingUp) && !(state.stage is Opening) ==> request.next(
            state,
            event,
        ) == state,
        event is TimedOut && !(state.stage is Opening) && !(state.stage is Scanning) && !(
        state.stage is Settling) ==> request.next(state, event) == state,
        event is WindowGone && !(state.stage is SettingUp) && !(state.stage is Opening) && !(
        state.stage is Restoring) && !(state.stage is Activating) ==> request.next(state, event)
            == state,
        event is Done && (state.stage is SettingUp || state.stage is Opening) ==> request.next(
            state,
            event,
        ) == state,
        state.stage is Finished ==> request.next(state, event) == state,
{
}

/// What goes wrong is told: a workspace that cannot be opened, a window that is gone, and tasks that
/// fail, of which what was said of them comes behind a few words.
pub proof fn opening_failures_are_told(
    request: OpenContents,
    state: OpenState,
    message: Seq<char>,
)
    ensures
        ({
            let failed = request.next(state, OpenEventContents::Ended(Err(message)));
            let gone = request.next(state, OpenEventContents::WindowGone(message));
            &&& state.stage is Opening ==> failed.stage == OpenProgress::Dismissing(
                Err::<(), Seq<char>>(message),
            )
            &&& state.stage is SettingUp ==> failed.setup_failure == Some(
                "Failed to set up worktree: "@ + message,
            )
            &&& state.stage is SettingUp || state.stage is Opening || state.stage is Restoring
                || state.stage is Activating ==> gone.stage == OpenProgress::Finished(
                Err::<(), Seq<char>>(message),
            )
        }),
{
}

fn find_best_root(remapping: &Vec<(TreePath, TreePath)>, file: &TreePath) -> (result: Option<usize>)
    ensures
        match result {
            Some(at) => at < remapping@.len() && best_root(
                creation::remapping_contents(remapping@),
                file@,
            ) == Some(at as int),
            None => best_root(creation::remapping_contents(remapping@), file@) is None,
        },
{
    let ghost all = creation::remapping_contents(remapping@);
    let mut best: Option<usize> = None;
    let mut i: usize = 0;
    assert(all.take(0) =~= Seq::empty());
    while i < remapping.len()
        invariant
            i <= remapping.len(),
            all == creation::remapping_contents(remapping@),
            match best {
                Some(at) => at < i && best_root(all.take(i as int), file@) == Some(at as int),
                None => best_root(all.take(i as int), file@) is None,
            },
        decreases remapping.len() - i,
    {
        let ghost now = all.take(i + 1);
        assert(now.drop_last() =~= all.take(i as int));
        assert(now[i as int] == (remapping@[i as int].0@, remapping@[i as int].1@));
        if file.starts_with(&remapping[i].0) {
            let kept = match best {
                Some(at) => {
                    assert(now[at as int] == (remapping@[at as int].0@, remapping@[at as int].1@));
                    remapping[at].0.depth() > remapping[i].0.depth()
                },
                None => false,
            };
            if !kept {
                best = Some(i);
            }
        }
        i = i + 1;
    }
    assert(all.take(i as int) =~= all);
    best
}

/// The path of a file in the new workspace, if it has one.
pub fn remap_path(
    path_remapping: &Vec<(TreePath, TreePath)>,
    non_git_paths: &Vec<TreePath>,
    original_path: &TreePath,
) -> (result: Option<TreePath>)
    ensures
        path_option(result) == remapped(
            creation::remapping_contents(path_remapping@),
            terminal_thread::path_contents(non_git_paths@),
            original_path@,
        ),
{
    let ghost all = creation::remapping_contents(path_remapping@);
    if let Some(at) = find_best_root(path_remapping, original_path) {
        proof {
            best_root_is_deepest(all, original_path@);
        }
        let pair = &path_remapping[at];
        assert(all[at as int] == (pair.0@, pair.1@));
        if let Some(relative) = original_path.strip_prefix(&pair.0) {
            return Some(pair.1.join(&relative));
        }
    }
    let ghost folders = terminal_thread::path_contents(non_git_paths@);
    let mut i: usize = 0;
    while i < non_git_paths.len()
        invariant
            i <= non_git_paths.len(),
            folders == terminal_thread::path_contents(non_git_paths@),
            best_root(creation::remapping_contents(path_remapping@), original_path@) is None,
            forall|j: int|
                0 <= j < i ==> !path::is_under(original_path@, #[trigger] folders[j]),
        decreases non_git_paths.len() - i,
    {
        assert(folders[i as int] == non_git_paths@[i as int]@);
        if original_path.starts_with(&non_git_paths[i]) {
            return Some(original_path.clone());
        }
        i = i + 1;
    }
    None
}

fn find_new_worktrees(remapping: &Vec<(TreePath, TreePath)>) -> (result: Vec<(TreePath, TreePath)>)
    ensures
        creation::remapping_contents(result@) == new_worktrees(
            creation::remapping_contents(remapping@),
        ),
{
    let ghost all = creation::remapping_contents(remapping@);
    let mut result: Vec<(TreePath, TreePath)> = Vec::new();
    let mut i: usize = 0;
    assert(all.take(0) =~= Seq::empty());
    assert(creation::remapping_contents(result@) =~= Seq::empty());
    while i < remapping.len()
        invariant
            i <= remapping.len(),
            all == creation::remapping_contents(remapping@),
            creation::remapping_contents(result@) == new_worktrees(all.take(i as int)),
        decreases remapping.len() - i,
    {
        let pair = &remapping[i];
        assert(all.take(i + 1).drop_last() =~= all.take(i as int));
        assert(all.take(i + 1).last() == (pair.0@, pair.1@));
        let ghost before = creation::remapping_contents(result@);
        if !mapped_to(&result, &pair.1) {
            result.push((pair.0.clone(), pair.1.clone()));
            assert(creation::remapping_contents(result@) =~= before.push((pair.0@, pair.1@)));
        }
        i = i + 1;
    }
    assert(all.take(i as int) =~= all);
    result
}

/// The opening of the workspace of a worktree.
pub struct OpenWorktreeWorkspace {
    request: OpenRequest,
    stage: OpenStage,
    setup_failure: Option<String>,
}

impl OpenWorktreeWorkspace {
    /// What is asked for.
    pub closed spec fn request(&self) -> OpenContents {
        self.request@
    }

    /// How far it has come.
    pub closed spec fn state(&self) -> OpenState {
        OpenState {
            stage: self.stage@,
            setup_failure: text::string_option(self.setup_failure),
        }
    }

    /// The start of the opening, in a window if there is one.
    pub fn open_worktree_workspace(request: OpenRequest, has_window: bool) -> (result:
        OpenWorktreeWorkspace)
        ensures
            result.request() == request@,
            result.state() == request@.start(has_window),
            result.state().valid(request@),
    {
        let stage = if !has_window {
            OpenStage::Finished(
                Err("No window handle available for workspace creation".to_owned()),
            )
        } else if request.operation == WorktreeOperation::Create {
            OpenStage::SettingUp
        } else {
            OpenStage::Opening
        };
        OpenWorktreeWorkspace { request, stage, setup_failure: None }
    }

    fn transfers_state(&self) -> (result: bool)
        ensures
            result == self.request().transfers_state(),
    {
        self.request.operation == WorktreeOperation::Create && self.request.activate
    }

    fn files(&self) -> (result: Vec<TreePath>)
        ensures
            terminal_thread::path_contents(result@) == self.request().files(),
    {
        let ghost contents = self.request();
        let active = match &self.request.previous_state.active_file_path {
            Some(file) => remap_path(
                &self.request.path_remapping,
                &self.request.non_git_paths,
                file,
            ),
            None => None,
        };
        let ghost last = path_option(active);
        assert(last == new_active(
            contents.remapping,
            contents.non_git_paths,
            contents.active_file,
        ));
        let files = &self.request.previous_state.open_file_paths;
        let ghost all = terminal_thread::path_contents(files@);
        let mut result: Vec<TreePath> = Vec::new();
        let mut i: usize = 0;
        assert(all.take(0) =~= Seq::empty());
        assert(terminal_thread::path_contents(result@) =~= Seq::empty());
        while i < files.len()
            invariant
                i <= files.len(),
                all == terminal_thread::path_contents(files@),
                contents == self.request(),
                last == path_option(active),
                terminal_thread::path_contents(result@) == files_before_active(
                    contents.remapping,
                    contents.non_git_paths,
                    all.take(i as int),
                    last,
                ),
            decreases files.len() - i,
        {
            assert(all.take(i + 1).drop_last() =~= all.take(i as int));
            assert(all.take(i + 1).last() == files@[i as int]@);
            let ghost before = terminal_thread::path_contents(result@);
            if let Some(new_path) = remap_path(
                &self.request.path_remapping,
                &self.request.non_git_paths,
                &files[i],
            ) {
                let is_active = match &active {
                    Some(file) => file.same_path(&new_path),
                    None => false,
                };
                if !is_active && !holds_path(&result, &new_path) {
                    result.push(new_path);
                    assert(terminal_thread::path_contents(result@) =~= before.push(new_path@));
                }
            }
            i = i + 1;
        }
        assert(all.take(i as int) =~= all);
        let ghost before = terminal_thread::path_contents(result@);
        if let Some(file) = active {
            result.push(file);
            assert(terminal_thread::path_contents(result@) =~= before.push(file@));
        }
        result
    }

    /// What is to be done next, until the opening is finished.
    pub fn action(&self) -> (result: Option<OpenAction>)
        requires
            self.state().valid(self.request()),
        ensures
            match result {
                Some(action) => self.request().action(self.state()) == Some(action@),
                None => self.request().action(self.state()) is None,
            },
    {
        match &self.stage {
            OpenStage::SettingUp => Some(
                OpenAction::RunSetup { worktrees: find_new_worktrees(&self.request.path_remapping) },
            ),
            OpenStage::Opening => Some(
                OpenAction::OpenWorkspace {
                    paths: copy_paths(&self.request.all_paths),
                    transfer_state: self.transfers_state(),
                },
            ),
            OpenStage::GivingUp => Some(OpenAction::ClearOperation),
            OpenStage::Dismissing(_) => Some(OpenAction::DismissConnectionDialog),
            OpenStage::Hiding => Some(OpenAction::HideOperation),
            OpenStage::Scanning => Some(OpenAction::AwaitInitialScan),
            OpenStage::Settling => Some(OpenAction::AwaitRepositories),
            OpenStage::Trusting => Some(
                OpenAction::PropagateTrust { paths: copy_paths(&self.request.all_paths) },
            ),
            OpenStage::Refreshing => Some(OpenAction::RefreshTrustDialog),
            OpenStage::Restoring => {
                let files = self.files();
                assert(files@.len() == self.request().files().len());
                let focus_center = files.len() > 0
                    && self.request.previous_state.focused_dock.is_none();
                Some(
                    OpenAction::Restore {
                        tell_plain_folders: self.request.non_git_paths.len() > 0,
                        files,
                        focus_center,
                    },
                )
            },
            OpenStage::Activating => Some(
                OpenAction::Activate {
                    foreground: self.request.activate,
                    focus_dock: if self.transfers_state() {
                        self.request.previous_state.focused_dock
                    } else {
                        None
                    },
                },
            ),
            OpenStage::ShowingError => match &self.setup_failure {
                Some(message) => Some(OpenAction::ShowError(message.clone())),
                None => None,
            },
            OpenStage::Clearing => Some(OpenAction::ClearOperation),
            OpenStage::Finished(_) => None,
        }
    }

    /// Takes what came of what was to be done.
    pub fn advance(&mut self, event: OpenEvent)
        requires
            old(self).state().valid(old(self).request()),
        ensures
            final(self).request() == old(self).request(),
            final(self).state() == old(self).request().next(old(self).state(), event@),
            final(self).state().valid(final(self).request()),
    {
        let transfer_state = self.transfers_state();
        let next = match (&self.stage, event) {
            (OpenStage::SettingUp, OpenEvent::Ended(outcome)) => {
                if let Err(message) = outcome {
                    self.setup_failure = Some(
                        "Failed to set up worktree: ".to_owned().concat(message.as_str()),
                    );
                }
                OpenStage::Opening
            },
            (OpenStage::SettingUp, OpenEvent::WindowGone(message)) => OpenStage::Finished(
                Err(message),
            ),
            (OpenStage::Opening, OpenEvent::Ended(outcome)) => OpenStage::Dismissing(outcome),
            (OpenStage::Opening, OpenEvent::TimedOut) => OpenStage::GivingUp,
            (OpenStage::Opening, OpenEvent::WindowGone(message)) => OpenStage::Finished(
                Err(message),
            ),
            (OpenStage::GivingUp, OpenEvent::Done) => OpenStage::Dismissing(
                Err(
                    "Timed out after 60 seconds waiting for the worktree workspace to open".to_owned(),
                ),
            ),
            (OpenStage::Dismissing(Ok(_)), OpenEvent::Done) => OpenStage::Hiding,
            (OpenStage::Dismissing(Err(message)), OpenEvent::Done) => OpenStage::Finished(
                Err(message.clone()),
            ),
            (OpenStage::Hiding, OpenEvent::Done) => OpenStage::Scanning,
            (OpenStage::Scanning, OpenEvent::Done | OpenEvent::TimedOut) => OpenStage::Settling,
            (OpenStage::Settling, OpenEvent::Done | OpenEvent::TimedOut) => OpenStage::Trusting,
            (OpenStage::Trusting, OpenEvent::Done) => OpenStage::Refreshing,
            (OpenStage::Refreshing, OpenEvent::Done) => if transfer_state {
                OpenStage::Restoring
            } else {
                OpenStage::Activating
            },
            (OpenStage::Restoring, OpenEvent::Done) => OpenStage::Activating,
            (OpenStage::Restoring, OpenEvent::WindowGone(message)) => OpenStage::Finished(
                Err(message),
            ),
            (OpenStage::Activating, OpenEvent::Done) => if self.setup_failure.is_some() {
                OpenStage::ShowingError
            } else {
                OpenStage::Clearing
            },
            (OpenStage::Activating, OpenEvent::WindowGone(message)) => OpenStage::Finished(
                Err(message),
            ),
            (OpenStage::ShowingError, OpenEvent::Done) => OpenStage::Clearing,
            (OpenStage::Clearing, OpenEvent::Done) => OpenStage::Finished(
                match &self.setup_failure {
                    Some(message) => Err(message.clone()),
                    None => Ok(()),
                },
            ),
            _ => {
                return ;
            },
        };
        self.stage = next;
    }

    /// What came of the opening, once it is finished.
    pub fn outcome(&self) -> (result: Option<Result<(), String>>)
        ensures
            match result {
                Some(outcome) => self.state().stage == OpenProgress::Finished(
                    outcome_text(outcome),
                ),
                None => !(self.state().stage is Finished),
            },
    {
        match &self.stage {
            OpenStage::Finished(Ok(_)) => Some(Ok(())),
            OpenStage::Finished(Err(message)) => Some(Err(message.clone())),
            _ => None,
        }
    }
}

/// The worktrees to trust: those that were found at the paths of the new workspace, each once,
/// where not all worktrees are trusted anyway, and the source workspace is still there and has no
/// worktree that is restricted.
pub open spec fn trusted_with_source(
    trust_all: bool,
    source_restricted: Option<bool>,
    found: Seq<Option<u64>>,
) -> Seq<u64>
    decreases found.len(),
{
    if trust_all || source_restricted != Some(false) || found.len() == 0 {
        Seq::empty()
    } else {
        let earlier = trusted_with_source(trust_all, source_restricted, found.drop_last());
        match found.last() {
            Some(id) if !earlier.contains(id) => earlier.push(id),
            _ => earlier,
        }
    }
}

/// The worktrees to trust. `source_restricted` says whether the source workspace has a worktree
/// that is restricted, if the source is still there; `found` holds the worktree at each path of the
/// new workspace, where there is one.
pub fn maybe_propagate_worktree_trust(
    trust_all_worktrees: bool,
    source_restricted: Option<bool>,
    found: &Vec<Option<u64>>,
) -> (result: Vec<u64>)
    ensures
        result@ == trusted_with_source(trust_all_worktrees, source_restricted, found@),
{
    let mut result: Vec<u64> = Vec::new();
    let source_is_trusted = match source_restricted {
        Some(restricted) => !restricted,
        None => false,
    };
    if trust_all_worktrees || !source_is_trusted {
        return result;
    }
    let mut i: usize = 0;
    while i < found.len()
        invariant
            i <= found.len(),
            !trust_all_worktrees,
            source_restricted == Some(false),
            result@ == trusted_with_source(
                trust_all_worktrees,
                source_restricted,
                found@.take(i as int),
            ),
        decreases found.len() - i,
    {
        assert(found@.take(i + 1).drop_last() =~= found@.take(i as int));
        assert(found@.take(i + 1).last() == found@[i as int]);
        if let Some(id) = found[i] {
            if !holds_id(&result, id) {
                result.push(id);
            }
        }
        i = i + 1;
    }
    assert(found@.take(i as int) =~= found@);
    result
}

fn holds_id(ids: &Vec<u64>, id: u64) -> (result: bool)
    ensures
        result == ids@.contains(id),
{
    let mut i: usize = 0;
    while i < ids.len()
        invariant
            i <= ids.len(),
            forall|j: int| 0 <= j < i ==> #[trigger] ids@[j] != id,
        decreases ids.len() - i,
    {
        if ids[i] == id {
            return true;
        }
        i = i + 1;
    }
    false
}

/// Nothing is trusted but what was found, and nothing at all unless the source is known to be
/// unrestricted.
pub proof fn trust_comes_from_the_source(
    trust_all: bool,
    source_restricted: Option<bool>,
    found: Seq<Option<u64>>,
    id: u64,
)
    ensures
        trusted_with_source(trust_all, source_restricted, found).contains(id) <==> !trust_all
            && source_restricted == Some(false) && found.contains(Some(id)),
        trusted_with_source(trust_all, source_restricted, found).no_duplicates(),
    decreases found.len(),
{
    if !trust_all && source_restricted == Some(false) && found.len() > 0 {
        let rest = found.drop_last();
        trust_comes_from_the_source(trust_all, source_restricted, rest, id);
        let earlier = trusted_with_source(trust_all, source_restricted, rest);
        let after = trusted_with_source(trust_all, source_restricted, found);
        if found.contains(Some(id)) {
            let i = choose|i: int| 0 <= i < found.len() && found[i] == Some(id);
            if i < rest.len() {
                assert(rest[i] == Some(id));
            }
        }
        if rest.contains(Some(id)) {
            let i = choose|i: int| 0 <= i < rest.len() && rest[i] == Some(id);
            assert(found[i] == Some(id));
        }
        if earlier.contains(id) {
            let i = choose|i: int| 0 <= i < earlier.len() && earlier[i] == id;
            assert(after[i] == id);
        }
        if found.last() == Some(id) {
            assert(found[found.len() - 1] == Some(id));
            if !earlier.contains(id) {
                assert(after[earlier.len() as int] == id);
            }
        }
    }
}

/// What comes of the opening is taken as it is told, and what is to be done is told as it is.
pub proof fn open_events_are_taken_as_they_are(
    text: String,
    paths: Vec<TreePath>,
    worktrees: Vec<(TreePath, TreePath)>,
    flag: bool,
    other: bool,
    dock: Option<DockPosition>,
)
    ensures
        OpenEvent::Done@ is Done,
        OpenEvent::TimedOut@ is TimedOut,
        OpenEvent::Ended(Ok(()))@ == OpenEventContents::Ended(Ok::<(), Seq<char>>(())),
        OpenEvent::Ended(Err(text))@ == OpenEventContents::Ended(Err::<(), Seq<char>>(text@)),
        OpenEvent::WindowGone(text)@ == OpenEventContents::WindowGone(text@),
        (OpenAction::RunSetup { worktrees })@ == (OpenActionContents::RunSetup {
            worktrees: creation::remapping_contents(worktrees@),
        }),
        OpenAction::ShowError(text)@ == OpenActionContents::ShowError(text@),
        (OpenAction::OpenWorkspace { paths, transfer_state: flag })@
            == (OpenActionContents::OpenWorkspace {
            paths: terminal_thread::path_contents(paths@),
            transfer_state: flag,
        }),
        OpenAction::DismissConnectionDialog@ is DismissConnectionDialog,
        OpenAction::HideOperation@ is HideOperation,
        OpenAction::ClearOperation@ is ClearOperation,
        OpenAction::AwaitInitialScan@ is AwaitInitialScan,
        OpenAction::AwaitRepositories@ is AwaitRepositories,
        (OpenAction::PropagateTrust { paths })@ == (OpenActionContents::PropagateTrust {
            paths: terminal_thread::path_contents(paths@),
        }),
        OpenAction::RefreshTrustDialog@ is RefreshTrustDialog,
        (OpenAction::Restore { tell_plain_folders: flag, files: paths, focus_center: other })@
            == (OpenActionContents::Restore {
            tell_plain_folders: flag,
            files: terminal_thread::path_contents(paths@),
            focus_center: other,
        }),
        (OpenAction::Activate { foreground: flag, focus_dock: dock })@
            == (OpenActionContents::Activate { foreground: flag, focus_dock: dock }),
{
}

} // verus!
