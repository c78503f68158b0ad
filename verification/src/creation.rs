//! Creating the worktrees of a project: where each goes, waiting for all of them, and taking all
//! of them back where one cannot be created.
use vstd::prelude::*;

use crate::path;
use crate::path::TreePath;
use crate::terminal_thread;
use crate::text;
use crate::text::join;

verus! {

/// The seconds that the creation of worktrees may take.
pub const WORKTREE_CREATION_TIMEOUT_SECONDS: u64 = 120;

/// The seconds that the removal of a worktree may take.
pub const WORKTREE_ROLLBACK_TIMEOUT_SECONDS: u64 = 30;

/// The name of the new worktrees: the one that was asked for, else the one that was made up, else
/// `worktree`.
pub open spec fn worktree_name(given: Option<Seq<char>>, generated: Option<Seq<char>>) -> Seq<
    char,
> {
    match given {
        Some(name) => name,
        None => match generated {
            Some(name) => name,
            None => "worktree"@,
        },
    }
}

/// The name of the new worktrees.
pub fn resolve_worktree_name(given: Option<&str>, generated: Option<String>) -> (result: String)
    ensures
        result@ == worktree_name(text::text_option(given), text::string_option(generated)),
{
    match given {
        Some(name) => name.to_owned(),
        None => match generated {
            Some(name) => name,
            None => "worktree".to_owned(),
        },
    }
}

/// The name of the worktree at a path: the name of the directory that it is in.
pub open spec fn name_at(worktree: Seq<char>) -> Option<Seq<char>> {
    match path::parent_of(path::components_of(worktree)) {
        Some(parent) => path::final_name(parent),
        None => None,
    }
}

/// The names of the worktrees at `paths`, of those that have one.
pub open spec fn names_at(paths: Seq<Seq<char>>) -> Seq<Seq<char>>
    decreases paths.len(),
{
    if paths.len() == 0 {
        Seq::empty()
    } else {
        match name_at(paths.last()) {
            Some(name) => names_at(paths.drop_last()).push(name),
            None => names_at(paths.drop_last()),
        }
    }
}

/// What a listing of the worktrees of a repository holds, or what was said where it could not be
/// had.
pub open spec fn listing_contents(listing: Result<Vec<TreePath>, String>) -> Result<
    Seq<Seq<char>>,
    Seq<char>,
> {
    match listing {
        Ok(paths) => Ok(terminal_thread::path_contents(paths@)),
        Err(message) => Err(message@),
    }
}

/// What listings hold.
pub open spec fn listings_contents(listings: Seq<Result<Vec<TreePath>, String>>) -> Seq<
    Result<Seq<Seq<char>>, Seq<char>>,
> {
    listings.map_values(|listing: Result<Vec<TreePath>, String>| listing_contents(listing))
}

/// The paths of all worktrees that are listed. A listing that could not be had lists none.
pub open spec fn listed_paths(listings: Seq<Result<Seq<Seq<char>>, Seq<char>>>) -> Seq<Seq<char>>
    decreases listings.len(),
{
    if listings.len() == 0 {
        Seq::empty()
    } else {
        listed_paths(listings.drop_last()) + match listings.last() {
            Ok(paths) => paths,
            Err(_) => Seq::empty(),
        }
    }
}

/// The paths of all worktrees that are listed.
pub fn existing_worktree_paths(listings: &Vec<Result<Vec<TreePath>, String>>) -> (result: Vec<
    TreePath,
>)
    ensures
        terminal_thread::path_contents(result@) == listed_paths(listings_contents(listings@)),
{
    let ghost all = listings_contents(listings@);
    let mut result: Vec<TreePath> = Vec::new();
    let mut i: usize = 0;
    assert(all.take(0) =~= Seq::empty());
    assert(terminal_thread::path_contents(result@) =~= Seq::empty());
    while i < listings.len()
        invariant
            i <= listings.len(),
            all == listings_contents(listings@),
            terminal_thread::path_contents(result@) == listed_paths(all.take(i as int)),
        decreases listings.len() - i,
    {
        assert(all.take(i + 1).drop_last() =~= all.take(i as int));
        assert(all.take(i + 1).last() == listing_contents(listings@[i as int]));
        match &listings[i] {
            Ok(paths) => {
                push_all(&mut result, paths);
            },
            Err(_) => {
                assert(listed_paths(all.take(i as int)) + Seq::<Seq<char>>::empty()
                    =~= listed_paths(all.take(i as int)));
            },
        }
        i = i + 1;
    }
    assert(all.take(i as int) =~= all);
    result
}

/// Adds copies of `more` at the end of `paths`.
pub(crate) fn push_all(paths: &mut Vec<TreePath>, more: &Vec<TreePath>)
    ensures
        terminal_thread::path_contents(final(paths)@) == terminal_thread::path_contents(old(paths)@)
            + terminal_thread::path_contents(more@),
{
    let ghost base = terminal_thread::path_contents(paths@);
    let ghost all = terminal_thread::path_contents(more@);
    let mut i: usize = 0;
    assert(base + all.take(0) =~= base);
    while i < more.len()
        invariant
            i <= more.len(),
            all == terminal_thread::path_contents(more@),
            terminal_thread::path_contents(paths@) == base + all.take(i as int),
        decreases more.len() - i,
    {
        let ghost before = terminal_thread::path_contents(paths@);
        paths.push(more[i].clone());
        assert(all[i as int] == more@[i as int]@);
        assert(terminal_thread::path_contents(paths@) =~= before.push(all[i as int]));
        assert(base + all.take(i + 1) =~= (base + all.take(i as int)).push(all[i as int]));
        i = i + 1;
    }
    assert(all.take(i as int) =~= all);
}

/// Copies of `paths`.
pub(crate) fn copy_paths(paths: &Vec<TreePath>) -> (result: Vec<TreePath>)
    ensures
        terminal_thread::path_contents(result@) == terminal_thread::path_contents(paths@),
{
    let mut result: Vec<TreePath> = Vec::new();
    assert(terminal_thread::path_contents(result@) =~= Seq::empty());
    push_all(&mut result, paths);
    assert(terminal_thread::path_contents(result@) =~= terminal_thread::path_contents(paths@));
    result
}

/// The names of the worktrees at `paths`, of those that have one.
pub fn existing_worktree_names(paths: &Vec<TreePath>) -> (result: Vec<String>)
    ensures
        text::strings(result@) == names_at(terminal_thread::path_contents(paths@)),
{
    let ghost all = terminal_thread::path_contents(paths@);
    let mut result: Vec<String> = Vec::new();
    let mut i: usize = 0;
    assert(all.take(0) =~= Seq::empty());
    assert(text::strings(result@) =~= Seq::empty());
    while i < paths.len()
        invariant
            i <= paths.len(),
            all == terminal_thread::path_contents(paths@),
            text::strings(result@) == names_at(all.take(i as int)),
        decreases paths.len() - i,
    {
        assert(all.take(i + 1).drop_last() =~= all.take(i as int));
        assert(all.take(i + 1).last() == paths@[i as int]@);
        let ghost before = text::strings(result@);
        if let Some(name) = paths[i].parent_name() {
            result.push(name);
            assert(text::strings(result@) =~= before.push(name@));
        }
        i = i + 1;
    }
    assert(all.take(i as int) =~= all);
    result
}

/// The name that was asked for comes before the one that was made up, and that before `worktree`.
pub proof fn given_name_comes_first(name: Seq<char>, generated: Option<Seq<char>>)
    ensures
        worktree_name(Some(name), generated) == name,
        worktree_name(None, Some(name)) == name,
        worktree_name(None, None) == "worktree"@,
{
}

/// The name of a worktree is the component before its last one, where that is a name.
pub proof fn worktree_is_named_by_its_parent(worktree: Seq<char>)
    ensures
        ({
            let parts = path::components_of(worktree);
            let n = parts.len() as int;
            &&& n >= 2 && parts[n - 1] != seq!['/'] && parts[n - 2] != seq!['/'] && parts[n - 2]
                != seq!['.'] && parts[n - 2] != seq!['.', '.'] ==> name_at(worktree) == Some(
                parts[n - 2],
            )
            &&& n < 2 || parts[n - 2] == seq!['/'] || parts[n - 2] == seq!['.'] || parts[n - 2]
                == seq!['.', '.'] ==> name_at(worktree) is None
        }),
{
}

/// The names of worktrees come in their order, without those that have none.
pub proof fn names_come_in_order(first: Seq<Seq<char>>, worktree: Seq<char>, last: Seq<Seq<char>>)
    ensures
        names_at(Seq::empty()) == Seq::<Seq<char>>::empty(),
        names_at(first + seq![worktree] + last) == names_at(first) + (match name_at(worktree) {
            Some(name) => seq![name],
            None => Seq::empty(),
        }) + names_at(last),
    decreases last.len(),
{
    let whole = first + seq![worktree] + last;
    let middle = match name_at(worktree) {
        Some(name) => seq![name],
        None => Seq::empty(),
    };
    if last.len() == 0 {
        assert(whole.drop_last() =~= first);
        assert(names_at(whole) =~= names_at(first) + middle + names_at(last));
    } else {
        names_come_in_order(first, worktree, last.drop_last());
        assert(whole.drop_last() =~= first + seq![worktree] + last.drop_last());
        assert(names_at(whole) =~= names_at(first) + middle + names_at(last));
    }
}

/// The listed worktrees are those of every listing that could be had, in their order; a listing that
/// could not be had takes nothing from the others.
pub proof fn failed_listings_are_passed_over(
    first: Seq<Result<Seq<Seq<char>>, Seq<char>>>,
    paths: Seq<Seq<char>>,
    message: Seq<char>,
)
    ensures
        listed_paths(Seq::empty()) == Seq::<Seq<char>>::empty(),
        listed_paths(first.push(Ok(paths))) == listed_paths(first) + paths,
        listed_paths(first.push(Err(message))) == listed_paths(first),
{
    assert(first.push(Ok(paths)).drop_last() =~= first);
    assert(first.push(Err(message)).drop_last() =~= first);
    assert(listed_paths(first) + Seq::<Seq<char>>::empty() =~= listed_paths(first));
}

/// Where the worktree of a repository is to go: the directory that the repository works in, and
/// the path of the new worktree, or what was said where none could be given.
pub struct CreationTarget {
    pub work_directory: TreePath,
    pub new_path: Result<TreePath, String>,
}

/// The contents of a `CreationTarget`.
pub struct CreationTargetContents {
    pub work_directory: Seq<char>,
    pub new_path: Result<Seq<char>, Seq<char>>,
}

impl View for CreationTarget {
    type V = CreationTargetContents;

    open spec fn view(&self) -> CreationTargetContents {
        CreationTargetContents {
            work_directory: self.work_directory@,
            new_path: match self.new_path {
                Ok(new_path) => Ok(new_path@),
                Err(message) => Err(message@),
            },
        }
    }
}

/// The contents of a vector of targets.
pub open spec fn target_contents(targets: Seq<CreationTarget>) -> Seq<CreationTargetContents> {
    targets.map_values(|target: CreationTarget| target@)
}

/// What speaks against a target: that it has no path, or that there is a worktree at its path.
pub open spec fn target_error(
    target: CreationTargetContents,
    existing: Seq<Seq<char>>,
) -> Option<Seq<char>> {
    match target.new_path {
        Err(message) => Some(message),
        Ok(new_path) => if path::is_among(existing, new_path) {
            Some("A worktree already exists at "@ + new_path)
        } else {
            None
        },
    }
}

/// What is to be created for targets: the positions of those whose worktrees are created, how the
/// directories of the project are mapped to the new worktrees, and what speaks against the first
/// target that something speaks against. Targets behind that one are not looked at.
#[verifier::ext_equal]
pub struct ScheduleContents {
    pub creations: Seq<int>,
    pub remapping: Seq<(Seq<char>, Seq<char>)>,
    pub error: Option<Seq<char>>,
}

/// Whether one of the mapped directories is mapped to `new_path`.
pub open spec fn is_mapped_to(
    remapping: Seq<(Seq<char>, Seq<char>)>,
    new_path: Seq<char>,
) -> bool {
    exists|i: int| 0 <= i < remapping.len() && path::is_same(
        (#[trigger] remapping[i]).1,
        new_path,
    )
}

/// What is to be created for targets. Of the targets with one path only the first is created.
pub open spec fn scheduled(
    targets: Seq<CreationTargetContents>,
    existing: Seq<Seq<char>>,
) -> ScheduleContents
    decreases targets.len(),
{
    if targets.len() == 0 {
        ScheduleContents { creations: Seq::empty(), remapping: Seq::empty(), error: None }
    } else {
        let earlier = scheduled(targets.drop_last(), existing);
        let target = targets.last();
        if earlier.error is Some {
            earlier
        } else {
            match target_error(target, existing) {
                Some(message) => ScheduleContents { error: Some(message), ..earlier },
                None => ScheduleContents {
                    creations: if is_mapped_to(earlier.remapping, target.new_path->Ok_0) {
                        earlier.creations
                    } else {
                        earlier.creations.push(targets.len() - 1)
                    },
                    remapping: earlier.remapping.push(
                        (target.work_directory, target.new_path->Ok_0),
                    ),
                    error: None,
                },
            }
        }
    }
}

/// The path of a target that has one.
pub open spec fn target_path(target: CreationTargetContents) -> Seq<char> {
    target.new_path->Ok_0
}

/// Whether the target at one of the positions `creations` has the path `new_path`.
pub open spec fn is_created(
    targets: Seq<CreationTargetContents>,
    creations: Seq<int>,
    new_path: Seq<char>,
) -> bool {
    exists|k: int|
        0 <= k < creations.len() && path::is_same(
            target_path(targets[#[trigger] creations[k]]),
            new_path,
        )
}

/// Whether two of the mapped directories are mapped to one path.
pub open spec fn shares_worktree(remapping: Seq<(Seq<char>, Seq<char>)>) -> bool {
    exists|i: int| 0 <= i < remapping.len() && #[trigger] is_mapped_to(
        remapping.take(i),
        remapping[i].1,
    )
}

/// Every new worktree is created just once and where there was none: the created targets have
/// different paths, none of them a path that is taken, and every directory is mapped to the path
/// of one of them. Where nothing speaks against a target, every directory is mapped. There are
/// fewer worktrees than mapped directories just where two directories are mapped to one path.
pub proof fn each_worktree_is_created_once(
    targets: Seq<CreationTargetContents>,
    existing: Seq<Seq<char>>,
)
    ensures
        ({
            let schedule = scheduled(targets, existing);
            &&& forall|i: int|
                0 <= i < schedule.creations.len() ==> 0 <= #[trigger] schedule.creations[i]
                    < targets.len() && targets[schedule.creations[i]].new_path is Ok
                    && !path::is_among(existing, target_path(targets[schedule.creations[i]]))
                    && is_mapped_to(
                    schedule.remapping,
                    target_path(targets[schedule.creations[i]]),
                )
            &&& forall|i: int, j: int|
                0 <= i < j < schedule.creations.len() ==> !path::is_same(
                    target_path(targets[#[trigger] schedule.creations[i]]),
                    target_path(targets[#[trigger] schedule.creations[j]]),
                )
            &&& forall|i: int|
                0 <= i < schedule.remapping.len() ==> is_created(
                    targets,
                    schedule.creations,
                    (#[trigger] schedule.remapping[i]).1,
                )
            &&& schedule.error is None ==> schedule.remapping.len() == targets.len() && forall|
                i: int,
            |
                0 <= i < targets.len() ==> (#[trigger] schedule.remapping[i]) == (
                    targets[i].work_directory,
                    target_path(targets[i]),
                )
            &&& schedule.creations.len() <= schedule.remapping.len()
            &&& schedule.creations.len() < schedule.remapping.len() <==> shares_worktree(
                schedule.remapping,
            )
        }),
{
    lemma_creations_are_new(targets, existing);
    lemma_mapped_are_created(targets, existing);
    if scheduled(targets, existing).error is None {
        lemma_targets_are_mapped(targets, existing);
    }
    lemma_creations_are_counted(targets, existing);
}

proof fn lemma_creations_are_new(
    targets: Seq<CreationTargetContents>,
    existing: Seq<Seq<char>>,
)
    ensures
        ({
            let schedule = scheduled(targets, existing);
            &&& forall|i: int|
                0 <= i < schedule.creations.len() ==> 0 <= #[trigger] schedule.creations[i]
                    < targets.len() && targets[schedule.creations[i]].new_path is Ok
                    && !path::is_among(existing, target_path(targets[schedule.creations[i]]))
                    && is_mapped_to(
                    schedule.remapping,
                    target_path(targets[schedule.creations[i]]),
                )
            &&& forall|i: int, j: int|
                0 <= i < j < schedule.creations.len() ==> !path::is_same(
                    target_path(targets[#[trigger] schedule.creations[i]]),
                    target_path(targets[#[trigger] schedule.creations[j]]),
                )
        }),
    decreases targets.len(),
{
    if targets.len() > 0 {
        let rest = targets.drop_last();
        lemma_creations_are_new(rest, existing);
        let earlier = scheduled(rest, existing);
        let schedule = scheduled(targets, existing);
        let target = targets.last();
        let new_path = target_path(target);
        assert forall|i: int| 0 <= i < earlier.creations.len() implies targets[
        #[trigger] earlier.creations[i]] == rest[earlier.creations[i]] by {}
        if earlier.error is None && target_error(target, existing) is None {
            let pair = (target.work_directory, new_path);
            lemma_is_mapped_to_of_push(earlier.remapping, pair, new_path);
            assert forall|i: int| 0 <= i < schedule.creations.len() implies 0
                <= #[trigger] schedule.creations[i] < targets.len()
                && targets[schedule.creations[i]].new_path is Ok && !path::is_among(
                existing,
                target_path(targets[schedule.creations[i]]),
            ) && is_mapped_to(
                schedule.remapping,
                target_path(targets[schedule.creations[i]]),
            ) by {
                if i < earlier.creations.len() {
                    assert(schedule.creations[i] == earlier.creations[i]);
                    lemma_is_mapped_to_of_push(
                        earlier.remapping,
                        pair,
                        target_path(targets[schedule.creations[i]]),
                    );
                }
            }
            assert forall|i: int, j: int|
                0 <= i < j < schedule.creations.len() implies !path::is_same(
                target_path(targets[#[trigger] schedule.creations[i]]),
                target_path(targets[#[trigger] schedule.creations[j]]),
            ) by {
                assert(schedule.creations[i] == earlier.creations[i]);
                if j < earlier.creations.len() {
                    assert(schedule.creations[j] == earlier.creations[j]);
                } else {
                    let first = target_path(targets[schedule.creations[i]]);
                    assert(is_mapped_to(earlier.remapping, first));
                    if path::is_same(first, new_path) {
                        lemma_is_mapped_to_same(earlier.remapping, first, new_path);
                    }
                }
            }
        }
    }
}

proof fn lemma_is_mapped_to_of_push(
    remapping: Seq<(Seq<char>, Seq<char>)>,
    pair: (Seq<char>, Seq<char>),
    new_path: Seq<char>,
)
    ensures
        is_mapped_to(remapping.push(pair), new_path) <==> is_mapped_to(remapping, new_path)
            || path::is_same(pair.1, new_path),
{
    let after = remapping.push(pair);
    if is_mapped_to(remapping, new_path) {
        let i = choose|i: int|
            0 <= i < remapping.len() && path::is_same((#[trigger] remapping[i]).1, new_path);
        assert(path::is_same(after[i].1, new_path));
    }
    if path::is_same(pair.1, new_path) {
        assert(path::is_same(after[remapping.len() as int].1, new_path));
    }
    if is_mapped_to(after, new_path) {
        let i = choose|i: int|
            0 <= i < after.len() && path::is_same((#[trigger] after[i]).1, new_path);
        if i < remapping.len() {
            assert(path::is_same(remapping[i].1, new_path));
        }
    }
}

proof fn lemma_is_mapped_to_same(
    remapping: Seq<(Seq<char>, Seq<char>)>,
    a: Seq<char>,
    b: Seq<char>,
)
    requires
        is_mapped_to(remapping, a),
        path::is_same(a, b),
    ensures
        is_mapped_to(remapping, b),
{
    let i = choose|i: int| 0 <= i < remapping.len() && path::is_same((#[trigger] remapping[i]).1, a);
    assert(path::is_same(remapping[i].1, b));
}

proof fn lemma_is_created_stays(
    targets: Seq<CreationTargetContents>,
    existing: Seq<Seq<char>>,
    new_path: Seq<char>,
)
    requires
        targets.len() > 0,
        is_created(
            targets.drop_last(),
            scheduled(targets.drop_last(), existing).creations,
            new_path,
        ),
    ensures
        is_created(targets, scheduled(targets, existing).creations, new_path),
{
    let rest = targets.drop_last();
    let earlier = scheduled(rest, existing).creations;
    let after = scheduled(targets, existing).creations;
    lemma_creations_are_new(rest, existing);
    let k = choose|k: int|
        0 <= k < earlier.len() && path::is_same(
            target_path(rest[#[trigger] earlier[k]]),
            new_path,
        );
    assert(after[k] == earlier[k]);
    assert(targets[after[k]] == rest[earlier[k]]);
}

proof fn lemma_mapped_are_created(
    targets: Seq<CreationTargetContents>,
    existing: Seq<Seq<char>>,
)
    ensures
        forall|i: int|
            0 <= i < scheduled(targets, existing).remapping.len() ==> is_created(
                targets,
                scheduled(targets, existing).creations,
                (#[trigger] scheduled(targets, existing).remapping[i]).1,
            ),
    decreases targets.len(),
{
    if targets.len() > 0 {
        let rest = targets.drop_last();
        lemma_mapped_are_created(rest, existing);
        let earlier = scheduled(rest, existing);
        let schedule = scheduled(targets, existing);
        assert forall|i: int| 0 <= i < schedule.remapping.len() implies is_created(
            targets,
            schedule.creations,
            (#[trigger] schedule.remapping[i]).1,
        ) by {
            let new_path = schedule.remapping[i].1;
            if i < earlier.remapping.len() {
                assert(schedule.remapping[i] == earlier.remapping[i]);
                lemma_is_created_stays(targets, existing, new_path);
            } else if is_mapped_to(earlier.remapping, new_path) {
                let j = choose|j: int|
                    0 <= j < earlier.remapping.len() && path::is_same(
                        (#[trigger] earlier.remapping[j]).1,
                        new_path,
                    );
                let other = earlier.remapping[j].1;
                lemma_is_created_stays(targets, existing, other);
                let k = choose|k: int|
                    0 <= k < schedule.creations.len() && path::is_same(
                        target_path(targets[#[trigger] schedule.creations[k]]),
                        other,
                    );
                assert(path::is_same(target_path(targets[schedule.creations[k]]), new_path));
            } else {
                let last = earlier.creations.len() as int;
                assert(schedule.creations[last] == targets.len() - 1);
                assert(path::is_same(target_path(targets[schedule.creations[last]]), new_path));
            }
        }
    }
}

proof fn lemma_targets_are_mapped(
    targets: Seq<CreationTargetContents>,
    existing: Seq<Seq<char>>,
)
    requires
        scheduled(targets, existing).error is None,
    ensures
        scheduled(targets, existing).remapping.len() == targets.len(),
        forall|i: int|
            0 <= i < targets.len() ==> (#[trigger] scheduled(targets, existing).remapping[i]) == (
                targets[i].work_directory,
                target_path(targets[i]),
            ),
    decreases targets.len(),
{
    if targets.len() > 0 {
        let rest = targets.drop_last();
        lemma_targets_are_mapped(rest, existing);
        let earlier = scheduled(rest, existing);
        let schedule = scheduled(targets, existing);
        assert forall|i: int| 0 <= i < targets.len() implies (#[trigger] schedule.remapping[i]) == (
            targets[i].work_directory,
            target_path(targets[i]),
        ) by {
            if i < rest.len() {
                assert(schedule.remapping[i] == earlier.remapping[i]);
                assert(rest[i] == targets[i]);
            }
        }
    }
}

proof fn lemma_creations_are_counted(
    targets: Seq<CreationTargetContents>,
    existing: Seq<Seq<char>>,
)
    ensures
        ({
            let schedule = scheduled(targets, existing);
            &&& schedule.creations.len() <= schedule.remapping.len()
            &&& schedule.creations.len() < schedule.remapping.len() <==> shares_worktree(
                schedule.remapping,
            )
        }),
    decreases targets.len(),
{
    if targets.len() > 0 {
        let rest = targets.drop_last();
        lemma_creations_are_counted(rest, existing);
        let earlier = scheduled(rest, existing);
        let target = targets.last();
        lemma_shares_worktree_of_push(
            earlier.remapping,
            (target.work_directory, target_path(target)),
        );
    }
}

proof fn lemma_shares_worktree_of_push(
    remapping: Seq<(Seq<char>, Seq<char>)>,
    pair: (Seq<char>, Seq<char>),
)
    ensures
        shares_worktree(remapping.push(pair)) <==> shares_worktree(remapping) || is_mapped_to(
            remapping,
            pair.1,
        ),
{
    let after = remapping.push(pair);
    let n = remapping.len() as int;
    assert(after.take(n) =~= remapping);
    if shares_worktree(remapping) {
        let i = choose|i: int| 0 <= i < remapping.len() && #[trigger] is_mapped_to(
            remapping.take(i),
            remapping[i].1,
        );
        assert(after.take(i) =~= remapping.take(i));
        assert(is_mapped_to(after.take(i), after[i].1));
    }
    if is_mapped_to(remapping, pair.1) {
        assert(is_mapped_to(after.take(n), after[n].1));
    }
    if shares_worktree(after) {
        let i = choose|i: int| 0 <= i < after.len() && #[trigger] is_mapped_to(
            after.take(i),
            after[i].1,
        );
        if i < n {
            assert(after.take(i) =~= remapping.take(i));
            assert(is_mapped_to(remapping.take(i), remapping[i].1));
        }
    }
}

/// Whether a worktree can be created for a target: it has a path, and there is none at that path.
pub open spec fn is_free(target: CreationTargetContents, existing: Seq<Seq<char>>) -> bool {
    target.new_path matches Ok(new_path) && forall|i: int|
        0 <= i < existing.len() ==> path::components_of(#[trigger] existing[i])
            != path::components_of(new_path)
}

/// What speaks against a target is told just where a worktree cannot be created for it: what was said
/// where it has no path, and else the path at which there is one.
pub proof fn taken_paths_are_told(target: CreationTargetContents, existing: Seq<Seq<char>>)
    ensures
        target_error(target, existing) is None <==> is_free(target, existing),
        target.new_path matches Err(message) ==> target_error(target, existing) == Some(message),
        target.new_path matches Ok(new_path) ==> (target_error(target, existing) matches Some(told)
            ==> told == "A worktree already exists at "@ + new_path),
{
    if let Ok(new_path) = target.new_path {
        if path::is_among(existing, new_path) {
            let i = choose|i: int|
                0 <= i < existing.len() && path::is_same(#[trigger] existing[i], new_path);
            assert(path::components_of(existing[i]) == path::components_of(new_path));
        }
        if target_error(target, existing) is None {
            assert forall|i: int| 0 <= i < existing.len() implies path::components_of(
                #[trigger] existing[i],
            ) != path::components_of(new_path) by {
                assert(!path::is_same(existing[i], new_path));
            }
        }
    }
}

/// Targets are gone through in their order, up to the first for which no worktree can be created.
/// What speaks against that one is told, and the directories of those before it are mapped to their
/// paths. Of targets with one path the first is created, and no other.
pub proof fn targets_are_gone_through(
    targets: Seq<CreationTargetContents>,
    existing: Seq<Seq<char>>,
    n: int,
)
    requires
        0 <= n <= targets.len(),
        forall|i: int| 0 <= i < n ==> is_free(#[trigger] targets[i], existing),
        n < targets.len() ==> !is_free(targets[n], existing),
    ensures
        ({
            let schedule = scheduled(targets, existing);
            &&& schedule.error is None <==> n == targets.len()
            &&& n < targets.len() ==> schedule.error == target_error(targets[n], existing)
            &&& schedule.remapping.len() == n
            &&& forall|i: int|
                0 <= i < n ==> #[trigger] schedule.remapping[i] == (
                    targets[i].work_directory,
                    target_path(targets[i]),
                )
            &&& forall|k: int| #[trigger]
                schedule.creations.contains(k) <==> 0 <= k < n && forall|j: int|
                    0 <= j < k ==> !path::is_same(
                        target_path(#[trigger] targets[j]),
                        target_path(targets[k]),
                    )
        }),
    decreases targets.len(),
{
    let schedule = scheduled(targets, existing);
    if targets.len() > 0 {
        let rest = targets.drop_last();
        let last = targets.len() - 1;
        let m = if n < targets.len() {
            n
        } else {
            last
        };
        assert forall|i: int| 0 <= i < m implies is_free(#[trigger] rest[i], existing) by {
            assert(rest[i] == targets[i]);
        }
        if n < last {
            assert(rest[n] == targets[n]);
        }
        let earlier = scheduled(rest, existing);
        taken_paths_are_told(targets.last(), existing);
        if n < last {
            targets_are_gone_through(rest, existing, n);
        } else {
            targets_are_gone_through(rest, existing, last);
        }
        assert forall|i: int| 0 <= i < n implies #[trigger] schedule.remapping[i] == (
            targets[i].work_directory,
            target_path(targets[i]),
        ) by {
            if i < earlier.remapping.len() {
                assert(schedule.remapping[i] == earlier.remapping[i]);
                assert(rest[i] == targets[i]);
            }
        }
        if n == targets.len() {
            let new_path = target_path(targets.last());
            assert(is_mapped_to(earlier.remapping, new_path) <==> exists|j: int|
                0 <= j < last && path::is_same(target_path(#[trigger] targets[j]), new_path)) by {
                if is_mapped_to(earlier.remapping, new_path) {
                    let j = choose|j: int|
                        0 <= j < earlier.remapping.len() && path::is_same(
                            (#[trigger] earlier.remapping[j]).1,
                            new_path,
                        );
                    assert(rest[j] == targets[j]);
                    assert(path::is_same(target_path(targets[j]), new_path));
                }
                if exists|j: int|
                    0 <= j < last && path::is_same(target_path(#[trigger] targets[j]), new_path) {
                    let j = choose|j: int|
                        0 <= j < last && path::is_same(
                            target_path(#[trigger] targets[j]),
                            new_path,
                        );
                    assert(rest[j] == targets[j]);
                    assert(path::is_same(earlier.remapping[j].1, new_path));
                }
            }
        }
        assert forall|k: int| #[trigger]
            schedule.creations.contains(k) <==> 0 <= k < n && forall|j: int|
                0 <= j < k ==> !path::is_same(
                    target_path(#[trigger] targets[j]),
                    target_path(targets[k]),
                ) by {
            lemma_pushed_position(earlier.creations, last, k);
            assert(earlier.creations.contains(k) <==> 0 <= k < (if n < last {
                n
            } else {
                last
            }) && forall|j: int|
                0 <= j < k ==> !path::is_same(
                    target_path(#[trigger] rest[j]),
                    target_path(rest[k]),
                ));
            if 0 <= k < rest.len() {
                assert(rest[k] == targets[k]);
                assert(forall|j: int| 0 <= j < k ==> #[trigger] rest[j] == targets[j]);
                assert(forall|j: int| 0 <= j < k ==> rest[j] == #[trigger] targets[j]);
            }
        }
    } else {
        assert(!schedule.creations.contains(0));
    }
}

proof fn lemma_pushed_position(positions: Seq<int>, added: int, k: int)
    ensures
        positions.push(added).contains(k) <==> positions.contains(k) || k == added,
{
    let after = positions.push(added);
    assert(after[positions.len() as int] == added);
    if positions.contains(k) {
        let i = choose|i: int| 0 <= i < positions.len() && positions[i] == k;
        assert(after[i] == k);
    }
}

/// What is to be created for targets: the positions of those whose worktrees are created, how the
/// directories of the project are mapped to the new worktrees, and what speaks against the rest.
pub struct CreationSchedule {
    pub creations: Vec<usize>,
    pub path_remapping: Vec<(TreePath, TreePath)>,
    pub error: Option<String>,
}

/// What a mapping of directories holds.
pub open spec fn remapping_contents(remapping: Seq<(TreePath, TreePath)>) -> Seq<
    (Seq<char>, Seq<char>),
> {
    remapping.map_values(|pair: (TreePath, TreePath)| (pair.0@, pair.1@))
}

/// Positions as integers.
pub open spec fn positions(indices: Seq<usize>) -> Seq<int> {
    indices.map_values(|index: usize| index as int)
}

impl View for CreationSchedule {
    type V = ScheduleContents;

    open spec fn view(&self) -> ScheduleContents {
        ScheduleContents {
            creations: positions(self.creations@),
            remapping: remapping_contents(self.path_remapping@),
            error: text::string_option(self.error),
        }
    }
}

/// Whether `wanted` is among `paths`.
pub(crate) fn holds_path(paths: &Vec<TreePath>, wanted: &TreePath) -> (result: bool)
    ensures
        result == path::is_among(terminal_thread::path_contents(paths@), wanted@),
{
    let ghost all = terminal_thread::path_contents(paths@);
    let mut i: usize = 0;
    while i < paths.len()
        invariant
            i <= paths.len(),
            all == terminal_thread::path_contents(paths@),
            forall|j: int| 0 <= j < i ==> !path::is_same(#[trigger] all[j], wanted@),
        decreases paths.len() - i,
    {
        assert(all[i as int] == paths@[i as int]@);
        if paths[i].same_path(wanted) {
            return true;
        }
        i = i + 1;
    }
    false
}

/// A copy of a mapping of directories.
pub(crate) fn copy_remapping(remapping: &Vec<(TreePath, TreePath)>) -> (result: Vec<(TreePath, TreePath)>)
    ensures
        remapping_contents(result@) == remapping_contents(remapping@),
{
    let ghost all = remapping_contents(remapping@);
    let mut result: Vec<(TreePath, TreePath)> = Vec::new();
    let mut i: usize = 0;
    while i < remapping.len()
        invariant
            i <= remapping.len(),
            all == remapping_contents(remapping@),
            remapping_contents(result@) == all.take(i as int),
        decreases remapping.len() - i,
    {
        let ghost before = remapping_contents(result@);
        let pair = &remapping[i];
        result.push((pair.0.clone(), pair.1.clone()));
        assert(all[i as int] == (pair.0@, pair.1@));
        assert(remapping_contents(result@) =~= before.push(all[i as int]));
        assert(all.take(i + 1) =~= all.take(i as int).push(all[i as int]));
        i = i + 1;
    }
    assert(all.take(i as int) =~= all);
    result
}

/// Whether one of the mapped directories is mapped to `new_path`.
pub(crate) fn mapped_to(remapping: &Vec<(TreePath, TreePath)>, new_path: &TreePath) -> (result: bool)
    ensures
        result == is_mapped_to(remapping_contents(remapping@), new_path@),
{
    let ghost all = remapping_contents(remapping@);
    let mut i: usize = 0;
    while i < remapping.len()
        invariant
            i <= remapping.len(),
            all == remapping_contents(remapping@),
            forall|j: int| 0 <= j < i ==> !path::is_same((#[trigger] all[j]).1, new_path@),
        decreases remapping.len() - i,
    {
        assert(all[i as int].1 == remapping@[i as int].1@);
        if remapping[i].1.same_path(new_path) {
            return true;
        }
        i = i + 1;
    }
    false
}

proof fn lemma_schedule_error_stays(
    targets: Seq<CreationTargetContents>,
    existing: Seq<Seq<char>>,
    n: int,
)
    requires
        0 <= n <= targets.len(),
        scheduled(targets.take(n), existing).error is Some,
    ensures
        scheduled(targets, existing) == scheduled(targets.take(n), existing),
    decreases targets.len(),
{
    if n < targets.len() {
        assert(targets.drop_last().take(n) =~= targets.take(n));
        lemma_schedule_error_stays(targets.drop_last(), existing, n);
    } else {
        assert(targets.take(n) =~= targets);
    }
}

/// What is to be created for targets, where there are worktrees at `existing_worktree_paths`. The
/// creations are started even where something speaks against a later target.
pub fn start_worktree_creations(
    targets: &Vec<CreationTarget>,
    existing_worktree_paths: &Vec<TreePath>,
) -> (result: CreationSchedule)
    ensures
        result@ == scheduled(
            target_contents(targets@),
            terminal_thread::path_contents(existing_worktree_paths@),
        ),
{
    let ghost all = target_contents(targets@);
    let ghost existing = terminal_thread::path_contents(existing_worktree_paths@);
    let mut creations: Vec<usize> = Vec::new();
    let mut path_remapping: Vec<(TreePath, TreePath)> = Vec::new();
    let mut i: usize = 0;
    assert(all.take(0) =~= Seq::empty());
    assert(positions(creations@) =~= Seq::empty());
    assert(remapping_contents(path_remapping@) =~= Seq::empty());
    while i < targets.len()
        invariant
            i <= targets.len(),
            all == target_contents(targets@),
            existing == terminal_thread::path_contents(existing_worktree_paths@),
            scheduled(all.take(i as int), existing) == (ScheduleContents {
                creations: positions(creations@),
                remapping: remapping_contents(path_remapping@),
                error: None,
            }),
        decreases targets.len() - i,
    {
        let target = &targets[i];
        let ghost earlier = scheduled(all.take(i as int), existing);
        assert(all.take(i + 1).drop_last() =~= all.take(i as int));
        assert(all.take(i + 1).last() == target@);
        let new_path = match &target.new_path {
            Ok(new_path) => new_path,
            Err(message) => {
                proof {
                    lemma_schedule_error_stays(all, existing, i + 1);
                }
                return CreationSchedule {
                    creations,
                    path_remapping,
                    error: Some(message.clone()),
                };
            },
        };
        if holds_path(existing_worktree_paths, new_path) {
            let message = "A worktree already exists at ".to_owned().concat(
                new_path.to_text().as_str(),
            );
            proof {
                lemma_schedule_error_stays(all, existing, i + 1);
            }
            return CreationSchedule { creations, path_remapping, error: Some(message) };
        }
        if !mapped_to(&path_remapping, new_path) {
            creations.push(i);
            assert(positions(creations@) =~= earlier.creations.push(i as int));
        }
        path_remapping.push((target.work_directory.clone(), new_path.clone()));
        assert(remapping_contents(path_remapping@) =~= earlier.remapping.push(
            (target@.work_directory, new_path@),
        ));
        i = i + 1;
    }
    assert(all.take(i as int) =~= all);
    CreationSchedule { creations, path_remapping, error: None }
}

/// What came of the removal of a worktree.
pub enum RemovalEvent {
    /// Git was asked to remove every worktree.
    Requested,
    /// Git removed the worktree.
    Removed,
    /// Git did not: it failed, was canceled, took too long, or could not be asked.
    NotRemoved,
    /// The directory was removed, or what was said where it was not.
    Directory(Result<(), String>),
}

/// The contents of a `RemovalEvent`.
pub enum RemovalContents {
    Requested,
    Removed,
    NotRemoved,
    Directory(Result<(), Seq<char>>),
}

impl View for RemovalEvent {
    type V = RemovalContents;

    open spec fn view(&self) -> RemovalContents {
        match *self {
            RemovalEvent::Requested => RemovalContents::Requested,
            RemovalEvent::Removed => RemovalContents::Removed,
            RemovalEvent::NotRemoved => RemovalContents::NotRemoved,
            RemovalEvent::Directory(Ok(_)) => RemovalContents::Directory(Ok(())),
            RemovalEvent::Directory(Err(message)) => RemovalContents::Directory(Err(message@)),
        }
    }
}

/// What is to be done next to take a worktree back.
#[derive(Clone, Copy, Debug, PartialEq, Eq, Structural)]
pub enum RemovalAction {
    /// Ask Git to remove the worktrees at all positions below this number, in their order, whether
    /// their creation has ended or not, and wait for none of them yet.
    RequestRemovals(usize),
    /// Wait until Git has removed the worktree at this position.
    AwaitRemoval(usize),
    /// Remove the directory of the worktree at this position, with all that is in it.
    RemoveDirectory(usize),
}

/// How far the removal of worktrees has come: whether Git was asked to remove them, the worktree
/// that is dealt with, whether its directory is removed, and what failed.
#[verifier::ext_equal]
pub struct RollbackState {
    pub requested: bool,
    pub at: int,
    pub removing_directory: bool,
    pub failures: Seq<Seq<char>>,
}

/// The start of the removal of worktrees.
pub open spec fn rollback_start() -> RollbackState {
    RollbackState { requested: false, at: 0, removing_directory: false, failures: Seq::empty() }
}

impl RollbackState {
    /// The state with the next worktree.
    pub open spec fn with_next(self) -> RollbackState {
        RollbackState { at: self.at + 1, removing_directory: false, ..self }
    }

    /// What is to be done next, of `count` worktrees: first Git is asked to remove all of them.
    pub open spec fn action(self, count: nat) -> Option<RemovalAction> {
        if self.at >= count {
            None
        } else if !self.requested {
            Some(RemovalAction::RequestRemovals(count as usize))
        } else if self.removing_directory {
            Some(RemovalAction::RemoveDirectory(self.at as usize))
        } else {
            Some(RemovalAction::AwaitRemoval(self.at as usize))
        }
    }

    /// The state that an event leads to. Where Git does not remove a worktree, its directory is
    /// removed. An event that is not about what was to be done changes nothing.
    pub open spec fn next(
        self,
        paths: Seq<Seq<char>>,
        event: RemovalContents,
    ) -> RollbackState {
        if self.at >= paths.len() {
            self
        } else if !self.requested {
            RollbackState { requested: event is Requested, ..self }
        } else {
            match (self.removing_directory, event) {
                (false, RemovalContents::Removed) => self.with_next(),
                (false, RemovalContents::NotRemoved) => RollbackState {
                    removing_directory: true,
                    ..self
                },
                (true, RemovalContents::Directory(Ok(_))) => self.with_next(),
                (true, RemovalContents::Directory(Err(message))) => RollbackState {
                    failures: self.failures.push(
                        paths[self.at] + ": failed to remove directory: "@
                            + message,
                    ),
                    ..self
                }.with_next(),
                _ => self,
            }
        }
    }

    /// Whether a state of the removal of `count` worktrees can be reached.
    pub open spec fn valid(self, count: nat) -> bool {
        0 <= self.at <= count && (self.removing_directory ==> self.at < count)
            && self.failures.len() <= self.at && (!self.requested ==> self.at == 0
            && !self.removing_directory)
    }

    /// Whether an event is about what was to be done.
    pub open spec fn awaits(self, event: RemovalContents) -> bool {
        if !self.requested {
            event is Requested
        } else {
            !(event is Requested) && self.removing_directory == event is Directory
        }
    }

    /// The most events that are still to come, of `count` worktrees.
    pub open spec fn events_left(self, count: nat) -> int {
        2 * (count - self.at) - (if self.removing_directory {
            1int
        } else {
            0int
        }) + if self.requested {
            0int
        } else {
            1int
        }
    }
}

/// Every worktree is dealt with: Git is asked to remove all of them before any is waited for, each
/// event that was waited for brings the removal nearer to its end, and it ends only when no worktree
/// is left.
pub proof fn rollback_deals_with_every_worktree(
    paths: Seq<Seq<char>>,
    state: RollbackState,
    event: RemovalContents,
)
    requires
        state.valid(paths.len()),
        state.at < paths.len(),
        state.awaits(event),
    ensures
        state.next(paths, event).valid(paths.len()),
        0 <= state.next(paths, event).events_left(paths.len()) < state.events_left(paths.len()),
        state.action(paths.len()) is Some,
        !state.requested ==> state.action(paths.len()) == Some(
            RemovalAction::RequestRemovals(paths.len() as usize),
        ) && state.next(paths, event).at == 0,
        state.next(paths, event).at <= state.at + 1,
        state.next(paths, event).at == state.at + 1 ==> (event is Removed || event is Directory),
{
}

/// Worktrees are taken back by Git, and where Git does not, by removing their directories. What is
/// told of one whose directory cannot be removed names its path; nothing is told of the others.
pub proof fn worktrees_are_taken_back(paths: Seq<Seq<char>>, state: RollbackState, message: Seq<char>)
    requires
        0 <= state.at < paths.len(),
        state.requested,
    ensures
        ({
            let waiting = RollbackState { removing_directory: false, ..state };
            let removing = RollbackState { removing_directory: true, ..state };
            let following = RollbackState { at: state.at + 1, ..waiting };
            &&& rollback_start().failures.len() == 0 && rollback_start().at == 0
                && !rollback_start().requested
            &&& waiting.next(paths, RemovalContents::Removed) == following
            &&& waiting.next(paths, RemovalContents::NotRemoved) == removing
            &&& removing.next(paths, RemovalContents::Directory(Ok(()))) == following
            &&& removing.next(paths, RemovalContents::Directory(Err(message))) == (RollbackState {
                failures: state.failures.push(
                    paths[state.at] + ": failed to remove directory: "@ + message,
                ),
                ..following
            })
            &&& state.at <= usize::MAX ==> waiting.action(paths.len()) == Some(
                RemovalAction::AwaitRemoval(state.at as usize),
            )
            &&& state.at <= usize::MAX ==> removing.action(paths.len()) == Some(
                RemovalAction::RemoveDirectory(state.at as usize),
            )
        }),
{
}

/// What could not be cleaned up is told behind what is told, each with a comma before the next; and
/// nothing is added where everything was.
pub proof fn cleanup_failures_are_appended(message: Seq<char>, failures: Seq<Seq<char>>)
    ensures
        with_cleanup_failures(message, Seq::empty()) == message,
        failures.len() > 0 ==> with_cleanup_failures(message, failures) == message
            + "\n\nFailed to clean up: "@ + text::joined(failures, ", "@),
{
}

/// The removal of worktrees: Git is asked to remove all of them, and then each is waited for.
pub struct Rollback {
    paths: Vec<TreePath>,
    requested: bool,
    at: usize,
    removing_directory: bool,
    failures: Vec<String>,
}

impl Rollback {
    /// The paths of the worktrees.
    pub closed spec fn paths(&self) -> Seq<Seq<char>> {
        terminal_thread::path_contents(self.paths@)
    }

    /// How far the removal has come.
    pub closed spec fn state(&self) -> RollbackState {
        RollbackState {
            requested: self.requested,
            at: self.at as int,
            removing_directory: self.removing_directory,
            failures: text::strings(self.failures@),
        }
    }

    /// The state can be reached.
    pub open spec fn well_formed(&self) -> bool {
        self.state().valid(self.paths().len())
    }

    /// The start of the removal of the worktrees at `paths`.
    pub fn rollback_worktrees(paths: &Vec<TreePath>) -> (result: Rollback)
        ensures
            result.well_formed(),
            result.paths() == terminal_thread::path_contents(paths@),
            result.state() == rollback_start(),
    {
        let result = Rollback {
            paths: copy_paths(paths),
            requested: false,
            at: 0,
            removing_directory: false,
            failures: Vec::new(),
        };
        assert(text::strings(result.failures@) =~= Seq::empty());
        result
    }

    /// What is to be done next, until every worktree was dealt with.
    pub fn action(&self) -> (result: Option<RemovalAction>)
        requires
            self.well_formed(),
        ensures
            result == self.state().action(self.paths().len()),
    {
        assert(self.paths@.len() == self.paths().len());
        if self.at >= self.paths.len() {
            None
        } else if !self.requested {
            Some(RemovalAction::RequestRemovals(self.paths.len()))
        } else if self.removing_directory {
            Some(RemovalAction::RemoveDirectory(self.at))
        } else {
            Some(RemovalAction::AwaitRemoval(self.at))
        }
    }

    /// Takes what came of what was to be done.
    pub fn advance(&mut self, event: RemovalEvent)
        requires
            old(self).well_formed(),
        ensures
            final(self).well_formed(),
            final(self).paths() == old(self).paths(),
            final(self).state() == old(self).state().next(old(self).paths(), event@),
    {
        let ghost before = self.state();
        assert(self.paths@.len() == self.paths().len());
        if self.at >= self.paths.len() {
            return ;
        }
        assert(self.paths()[self.at as int] == self.paths@[self.at as int]@);
        if !self.requested {
            if let RemovalEvent::Requested = event {
                self.requested = true;
            }
            return ;
        }
        match (self.removing_directory, event) {
            (false, RemovalEvent::Removed) => {
                self.at = self.at + 1;
            },
            (false, RemovalEvent::NotRemoved) => {
                self.removing_directory = true;
            },
            (true, RemovalEvent::Directory(Ok(_))) => {
                self.at = self.at + 1;
                self.removing_directory = false;
            },
            (true, RemovalEvent::Directory(Err(message))) => {
                let failure = self.paths[self.at].to_text().concat(
                    ": failed to remove directory: ",
                ).concat(message.as_str());
                self.failures.push(failure);
                assert(text::strings(self.failures@) =~= before.failures.push(failure@));
                self.at = self.at + 1;
                self.removing_directory = false;
            },
            _ => {},
        }
    }

    /// Whether every worktree was dealt with.
    pub fn is_finished(&self) -> (result: bool)
        requires
            self.well_formed(),
        ensures
            result == (self.state().at == self.paths().len()),
    {
        assert(self.paths@.len() == self.paths().len());
        self.at >= self.paths.len()
    }

    /// `message`, followed by what failed, where anything did.
    pub fn with_failures(&self, message: &str) -> (result: String)
        ensures
            result@ == with_cleanup_failures(message@, self.state().failures),
    {
        let mut result = message.to_owned();
        if self.failures.len() > 0 {
            assert(text::strings(self.failures@).len() > 0);
            result.append("\n\nFailed to clean up: ");
            result.append(join(&self.failures, ", ").as_str());
        }
        result
    }
}

/// A message, followed by what could not be cleaned up, where there is anything.
pub open spec fn with_cleanup_failures(message: Seq<char>, failures: Seq<Seq<char>>) -> Seq<char> {
    if failures.len() == 0 {
        message
    } else {
        message + "\n\nFailed to clean up: "@ + text::joined(failures, ", "@)
    }
}

/// What to tell where the creation of worktrees took too long.
pub open spec fn timeout_message(paths: Seq<Seq<char>>) -> Seq<char> {
    "Timed out after 120 seconds while creating worktrees: "@ + text::joined(paths, ", "@)
}

/// What came of the creation of worktrees.
pub enum CreationEvent {
    /// The creation at a position ended, and what was said where it failed.
    Completed(usize, Result<(), String>),
    /// The time is up.
    TimedOut,
    /// What came of the removal of a worktree.
    Removal(RemovalEvent),
}

/// The contents of a `CreationEvent`.
pub enum CreationContents {
    Completed(int, Result<(), Seq<char>>),
    TimedOut,
    Removal(RemovalContents),
}

impl View for CreationEvent {
    type V = CreationContents;

    open spec fn view(&self) -> CreationContents {
        match *self {
            CreationEvent::Completed(at, Ok(_)) => CreationContents::Completed(at as int, Ok(())),
            CreationEvent::Completed(at, Err(message)) => CreationContents::Completed(
                at as int,
                Err(message@),
            ),
            CreationEvent::TimedOut => CreationContents::TimedOut,
            CreationEvent::Removal(event) => CreationContents::Removal(event@),
        }
    }
}

/// How far waiting for worktrees has come.
pub enum WaitStage {
    /// Some creations did not end yet.
    Waiting,
    /// A creation failed, for the reason given, and the worktrees are taken back.
    RollingBack(Seq<char>, RollbackState),
    /// The paths that were created, in the order in which they were; or what to tell.
    Finished(Result<Seq<Seq<char>>, Seq<char>>),
}

/// The state of waiting for worktrees: which creations did not end yet, which paths were created,
/// in their order, what was said first of a failure, and how far it has come.
#[verifier::ext_equal]
pub struct WaitState {
    pub pending: Seq<bool>,
    pub created: Seq<Seq<char>>,
    pub first_error: Option<Seq<char>>,
    pub stage: WaitStage,
}

/// The paths whose creations ended.
pub open spec fn ended_paths(paths: Seq<Seq<char>>, pending: Seq<bool>) -> Seq<Seq<char>>
    decreases paths.len(),
{
    if paths.len() == 0 {
        Seq::empty()
    } else {
        let earlier = ended_paths(paths.drop_last(), pending);
        if pending[paths.len() - 1] {
            earlier
        } else {
            earlier.push(paths.last())
        }
    }
}

proof fn lemma_ended_paths_of_update(paths: Seq<Seq<char>>, pending: Seq<bool>, at: int)
    requires
        paths.len() <= pending.len(),
        0 <= at < pending.len(),
        pending[at],
    ensures
        ended_paths(paths, pending.update(at, false)).to_multiset() == if at < paths.len() {
            ended_paths(paths, pending).to_multiset().insert(paths[at])
        } else {
            ended_paths(paths, pending).to_multiset()
        },
    decreases paths.len(),
{
    broadcast use vstd::seq_lib::group_to_multiset_ensures;

    if paths.len() > 0 {
        let rest = paths.drop_last();
        lemma_ended_paths_of_update(rest, pending, at);
        let before = ended_paths(rest, pending);
        let after = ended_paths(rest, pending.update(at, false));
        let last = paths.last();
        if at == paths.len() - 1 {
            assert(after.push(last).to_multiset() =~= before.to_multiset().insert(last));
        } else if !pending[paths.len() - 1] {
            assert(after.push(last).to_multiset() =~= after.to_multiset().insert(last));
            assert(before.push(last).to_multiset() =~= before.to_multiset().insert(last));
            if at < rest.len() {
                assert(before.to_multiset().insert(paths[at]).insert(last)
                    =~= before.to_multiset().insert(last).insert(paths[at]));
            }
        }
    }
}

proof fn lemma_all_ended(paths: Seq<Seq<char>>, pending: Seq<bool>)
    requires
        paths.len() <= pending.len(),
        forall|i: int| 0 <= i < paths.len() ==> !#[trigger] pending[i],
    ensures
        ended_paths(paths, pending) == paths,
    decreases paths.len(),
{
    if paths.len() > 0 {
        lemma_all_ended(paths.drop_last(), pending);
        assert(paths.drop_last().push(paths.last()) =~= paths);
    } else {
        assert(ended_paths(paths, pending) =~= paths);
    }
}

proof fn lemma_none_ended(paths: Seq<Seq<char>>, pending: Seq<bool>)
    requires
        paths.len() <= pending.len(),
        forall|i: int| 0 <= i < paths.len() ==> #[trigger] pending[i],
    ensures
        ended_paths(paths, pending) == Seq::<Seq<char>>::empty(),
    decreases paths.len(),
{
    if paths.len() > 0 {
        lemma_none_ended(paths.drop_last(), pending);
    }
}

/// The start of waiting for the worktrees at `paths`.
pub open spec fn wait_start(paths: Seq<Seq<char>>) -> WaitState {
    WaitState {
        pending: Seq::new(paths.len(), |i: int| true),
        created: Seq::empty(),
        first_error: None,
        stage: if paths.len() == 0 {
            WaitStage::Finished(Ok(Seq::empty()))
        } else {
            WaitStage::Waiting
        },
    }
}

impl WaitState {
    /// The state once nothing more is waited for: finished where nothing failed; else all
    /// worktrees are taken back.
    pub open spec fn settled(self) -> WaitState {
        WaitState {
            stage: match self.first_error {
                None => WaitStage::Finished(Ok(self.created)),
                Some(message) => WaitStage::RollingBack(message, rollback_start()),
            },
            ..self
        }
    }

    /// The state after the creation at a position ended.
    pub open spec fn completed(
        self,
        paths: Seq<Seq<char>>,
        at: int,
        result: Result<(), Seq<char>>,
    ) -> WaitState {
        let pending = self.pending.update(at, false);
        let after = match result {
            Ok(_) => WaitState { pending, created: self.created.push(paths[at]), ..self },
            Err(message) => WaitState {
                pending,
                first_error: match self.first_error {
                    Some(earlier) => Some(earlier),
                    None => Some(message),
                },
                ..self
            },
        };
        if pending.contains(true) {
            after
        } else {
            after.settled()
        }
    }

    /// The state that an event leads to. An event that was not waited for changes nothing.
    pub open spec fn next(self, paths: Seq<Seq<char>>, event: CreationContents) -> WaitState {
        match (self.stage, event) {
            (WaitStage::Waiting, CreationContents::Completed(at, result)) => if 0 <= at
                < paths.len() && self.pending[at] {
                self.completed(paths, at, result)
            } else {
                self
            },
            (WaitStage::Waiting, CreationContents::TimedOut) => WaitState {
                first_error: match self.first_error {
                    Some(earlier) => Some(earlier),
                    None => Some(timeout_message(paths)),
                },
                ..self
            }.settled(),
            (WaitStage::RollingBack(message, rollback), CreationContents::Removal(removal)) => {
                let after = rollback.next(paths, removal);
                WaitState {
                    stage: if after.at >= paths.len() {
                        WaitStage::Finished(
                            Err(
                                with_cleanup_failures(
                                    "Failed to create worktree: "@ + message,
                                    after.failures,
                                ),
                            ),
                        )
                    } else {
                        WaitStage::RollingBack(message, after)
                    },
                    ..self
                }
            },
            _ => self,
        }
    }

    /// Whether a state of waiting for `paths` can be reached.
    pub open spec fn valid(self, paths: Seq<Seq<char>>) -> bool {
        &&& self.pending.len() == paths.len()
        &&& self.first_error is None ==> self.created.to_multiset() == ended_paths(
            paths,
            self.pending,
        ).to_multiset()
        &&& match self.stage {
            WaitStage::Waiting => self.pending.contains(true),
            WaitStage::RollingBack(message, rollback) => self.first_error == Some(message)
                && rollback.valid(paths.len()) && rollback.at < paths.len(),
            WaitStage::Finished(Ok(created)) => self.first_error is None && created == self.created
                && !self.pending.contains(true),
            WaitStage::Finished(Err(_)) => self.first_error is Some,
        }
    }
}

/// Where waiting has succeeded, what is said to be created is each of the worktrees, just as often
/// as it was asked for.
pub proof fn finished_wait_created_all(paths: Seq<Seq<char>>, state: WaitState)
    requires
        state.valid(paths),
    ensures
        state.stage matches WaitStage::Finished(Ok(created)) ==> created.to_multiset()
            == paths.to_multiset() && created.len() == paths.len(),
{
    broadcast use vstd::seq_lib::group_to_multiset_ensures;

    if let WaitStage::Finished(Ok(created)) = state.stage {
        assert forall|i: int| 0 <= i < paths.len() implies !#[trigger] state.pending[i] by {
            if state.pending[i] {
                assert(state.pending.contains(true));
            }
        }
        lemma_all_ended(paths, state.pending);
        assert(created.to_multiset().len() == paths.to_multiset().len());
    }
}

/// Waiting starts in a state that can be reached.
pub proof fn wait_start_is_valid(paths: Seq<Seq<char>>)
    ensures
        wait_start(paths).valid(paths),
{
    let start = wait_start(paths);
    lemma_none_ended(paths, start.pending);
    if paths.len() > 0 {
        assert(start.pending[0]);
    }
}

/// Waiting succeeds only where every worktree was created and none failed, and what is said to be
/// created is then each of the worktrees, just as often as it was asked for; where one fails, or the
/// time is up, nothing is said to be created before all of them, and not only those that were
/// created, were taken back.
pub proof fn all_or_nothing_is_created(
    paths: Seq<Seq<char>>,
    state: WaitState,
    event: CreationContents,
)
    requires
        state.valid(paths),
    ensures
        state.next(paths, event).valid(paths),
        state.next(paths, event).stage matches WaitStage::Finished(Ok(created))
            ==> created.to_multiset() == paths.to_multiset() && created.len() == paths.len(),
        state.stage !is Finished && (state.next(paths, event).stage matches WaitStage::Finished(
            Err(_),
        )) ==> (state.stage matches WaitStage::RollingBack(_, rollback) && rollback.requested
            && rollback.at + 1 == paths.len()),
{
    broadcast use vstd::seq_lib::group_to_multiset_ensures;

    let after = state.next(paths, event);
    if let (WaitStage::Waiting, CreationContents::Completed(at, result)) = (state.stage, event) {
        if 0 <= at < paths.len() && state.pending[at] {
            lemma_ended_paths_of_update(paths, state.pending, at);
            if after.first_error is None {
                assert(after.created == state.created.push(paths[at]));
                assert(after.created.to_multiset() =~= state.created.to_multiset().insert(
                    paths[at],
                ));
            }
        }
    }
    finished_wait_created_all(paths, after);
}

/// What is told of a creation that took too long names the paths of all worktrees.
pub proof fn timeout_names_every_path(paths: Seq<Seq<char>>)
    ensures
        timeout_message(paths) == "Timed out after 120 seconds while creating worktrees: "@
            + text::joined(paths, ", "@),
{
}

/// Each creation counts once, as it ended: what was created is noted in the order in which it was,
/// and of the failures the first is kept. When the time is up, that is the failure where there was
/// none. Nothing more is waited for once every creation has ended, or the time is up.
pub proof fn creations_count_once(
    paths: Seq<Seq<char>>,
    state: WaitState,
    at: int,
    message: Seq<char>,
)
    requires
        state.stage is Waiting,
        state.pending.len() == paths.len(),
        0 <= at < paths.len(),
    ensures
        ({
            let well = state.next(paths, CreationContents::Completed(at, Ok(())));
            let badly = state.next(paths, CreationContents::Completed(at, Err(message)));
            let late = state.next(paths, CreationContents::TimedOut);
            let kept = match state.first_error {
                Some(first) => first,
                None => message,
            };
            let last = forall|i: int|
                0 <= i < paths.len() && i != at ==> !#[trigger] state.pending[i];
            &&& !state.pending[at] ==> well == state && badly == state
            &&& state.pending[at] ==> {
                &&& well.created == state.created.push(paths[at])
                &&& well.first_error == state.first_error
                &&& badly.created == state.created
                &&& badly.first_error == Some(kept)
                &&& well.pending == state.pending.update(at, false)
                &&& badly.pending == state.pending.update(at, false)
                &&& !last ==> well.stage is Waiting && badly.stage is Waiting
                &&& last ==> badly.stage == WaitStage::RollingBack(kept, rollback_start())
                &&& last && state.first_error is None ==> well.stage == WaitStage::Finished(
                    Ok::<Seq<Seq<char>>, Seq<char>>(well.created),
                )
                &&& last ==> (state.first_error matches Some(first) ==> well.stage
                    == WaitStage::RollingBack(first, rollback_start()))
            }
            &&& late.stage == WaitStage::RollingBack(
                match state.first_error {
                    Some(first) => first,
                    None => "Timed out after 120 seconds while creating worktrees: "@
                        + text::joined(paths, ", "@),
                },
                rollback_start(),
            )
        }),
{
    let pending = state.pending.update(at, false);
    let last = forall|i: int| 0 <= i < paths.len() && i != at ==> !#[trigger] state.pending[i];
    if pending.contains(true) {
        let i = choose|i: int| 0 <= i < pending.len() && pending[i];
        assert(state.pending[i]);
    }
    if !last {
        let i = choose|i: int| 0 <= i < paths.len() && i != at && #[trigger] state.pending[i];
        assert(pending[i]);
    }
}

/// A failed creation ends with what failed, once the last worktree was taken back, and with what could
/// not be cleaned up.
pub proof fn failed_creation_is_told(
    paths: Seq<Seq<char>>,
    state: WaitState,
    message: Seq<char>,
    rollback: RollbackState,
    event: RemovalContents,
)
    requires
        state.stage == WaitStage::RollingBack(message, rollback),
    ensures
        ({
            let after = rollback.next(paths, event);
            let next = state.next(paths, CreationContents::Removal(event));
            &&& after.at < paths.len() ==> next.stage == WaitStage::RollingBack(message, after)
            &&& after.at >= paths.len() && after.failures.len() == 0 ==> next.stage
                == WaitStage::Finished(
                Err::<Seq<Seq<char>>, Seq<char>>("Failed to create worktree: "@ + message),
            )
            &&& after.at >= paths.len() && after.failures.len() > 0 ==> next.stage
                == WaitStage::Finished(
                Err::<Seq<Seq<char>>, Seq<char>>(
                    "Failed to create worktree: "@ + message + "\n\nFailed to clean up: "@
                        + text::joined(after.failures, ", "@),
                ),
            )
        }),
{
}

/// What does not answer what was waited for changes nothing.
pub proof fn creation_events_out_of_turn_change_nothing(
    paths: Seq<Seq<char>>,
    state: WaitState,
    event: CreationContents,
    rollback: RollbackState,
    removal: RemovalContents,
)
    ensures
        state.stage is Finished ==> state.next(paths, event) == state,
        state.stage is Waiting && event is Removal ==> state.next(paths, event) == state,
        state.stage is RollingBack && !(event is Removal) ==> state.next(paths, event) == state,
        rollback.at >= paths.len() ==> rollback.next(paths, removal) == rollback,
        rollback.at < paths.len() && !rollback.requested && removal is Requested ==> rollback.next(
            paths,
            removal,
        ) == (RollbackState { requested: true, ..rollback }),
        rollback.at < paths.len() && !rollback.requested && !(removal is Requested)
            ==> rollback.next(paths, removal) == rollback,
        rollback.at < paths.len() && rollback.requested && rollback.removing_directory && !(
        removal is Directory) ==> rollback.next(paths, removal) == rollback,
        rollback.at < paths.len() && rollback.requested && !rollback.removing_directory && (
        removal is Directory || removal is Requested) ==> rollback.next(paths, removal) == rollback,
{
}

/// What is to be done next about worktrees that are created.
#[derive(Clone, Copy, Debug, PartialEq, Eq, Structural)]
pub enum CreationAction {
    /// Wait until a creation ends, or the time is up.
    AwaitCreation,
    /// Take a worktree back.
    Removal(RemovalAction),
}

enum Waiting {
    Waiting,
    RollingBack(String, Rollback),
    Finished(Result<(), String>),
}

/// Waiting for worktrees to be created.
pub struct CreationWait {
    paths: Vec<TreePath>,
    pending: Vec<bool>,
    created: Vec<TreePath>,
    first_error: Option<String>,
    stage: Waiting,
}

impl CreationWait {
    /// The paths of the worktrees.
    pub closed spec fn paths(&self) -> Seq<Seq<char>> {
        terminal_thread::path_contents(self.paths@)
    }

    /// The state of waiting.
    pub closed spec fn state(&self) -> WaitState {
        WaitState {
            pending: self.pending@,
            created: terminal_thread::path_contents(self.created@),
            first_error: text::string_option(self.first_error),
            stage: match self.stage {
                Waiting::Waiting => WaitStage::Waiting,
                Waiting::RollingBack(message, rollback) => WaitStage::RollingBack(
                    message@,
                    rollback.state(),
                ),
                Waiting::Finished(Ok(_)) => WaitStage::Finished(
                    Ok(terminal_thread::path_contents(self.created@)),
                ),
                Waiting::Finished(Err(message)) => WaitStage::Finished(Err(message@)),
            },
        }
    }

    /// The state can be reached.
    pub closed spec fn well_formed(&self) -> bool {
        &&& self.state().valid(self.paths())
        &&& self.stage matches Waiting::RollingBack(_, rollback) ==> rollback.paths()
            == self.paths() && rollback.well_formed()
    }

    /// In a well-formed state, nothing is said to be created unless all of it was.
    pub proof fn well_formed_is_valid(&self)
        requires
            self.well_formed(),
        ensures
            self.state().valid(self.paths()),
    {
    }

    /// What is to be done next, until the outcome is known.
    pub fn action(&self) -> (result: Option<CreationAction>)
        requires
            self.well_formed(),
        ensures
            match self.state().stage {
                WaitStage::Waiting => result == Some(CreationAction::AwaitCreation),
                WaitStage::RollingBack(_, rollback) => result == Some(
                    CreationAction::Removal(rollback.action(self.paths().len())->0),
                ),
                WaitStage::Finished(_) => result is None,
            },
    {
        match &self.stage {
            Waiting::Waiting => Some(CreationAction::AwaitCreation),
            Waiting::RollingBack(_, rollback) => match rollback.action() {
                Some(action) => Some(CreationAction::Removal(action)),
                None => None,
            },
            Waiting::Finished(_) => None,
        }
    }

    fn any_pending(&self) -> (result: bool)
        ensures
            result == self.pending@.contains(true),
    {
        let mut i: usize = 0;
        while i < self.pending.len()
            invariant
                i <= self.pending.len(),
                forall|j: int| 0 <= j < i ==> !#[trigger] self.pending@[j],
            decreases self.pending.len() - i,
        {
            if self.pending[i] {
                assert(self.pending@[i as int]);
                return true;
            }
            i = i + 1;
        }
        false
    }

    fn settle(&mut self)
        ensures
            final(self).paths() == old(self).paths(),
            final(self).state() == old(self).state().settled(),
            final(self).stage matches Waiting::RollingBack(_, rollback) ==> rollback.paths()
                == final(self).paths() && rollback.well_formed(),
    {
        match &self.first_error {
            Some(message) => {
                let message = message.clone();
                self.stage = Waiting::RollingBack(message, Rollback::rollback_worktrees(&self.paths));
            },
            None => {
                self.stage = Waiting::Finished(Ok(()));
            },
        }
    }

    fn timeout_message(&self) -> (result: String)
        ensures
            result@ == timeout_message(self.paths()),
    {
        let ghost all = self.paths();
        let mut shown: Vec<String> = Vec::new();
        let mut i: usize = 0;
        while i < self.paths.len()
            invariant
                i <= self.paths.len(),
                all == self.paths(),
                text::strings(shown@) == all.take(i as int),
            decreases self.paths.len() - i,
        {
            let ghost before = text::strings(shown@);
            shown.push(self.paths[i].to_text());
            assert(all[i as int] == self.paths@[i as int]@);
            assert(text::strings(shown@) =~= before.push(all[i as int]));
            assert(all.take(i + 1) =~= all.take(i as int).push(all[i as int]));
            i = i + 1;
        }
        assert(all.take(i as int) =~= all);
        "Timed out after 120 seconds while creating worktrees: ".to_owned().concat(
            join(&shown, ", ").as_str(),
        )
    }

    fn complete(&mut self, at: usize, result: Result<(), String>)
        requires
            old(self).well_formed(),
            old(self).stage is Waiting,
            at < old(self).pending@.len(),
            old(self).pending@[at as int],
        ensures
            final(self).paths() == old(self).paths(),
            final(self).state() == old(self).state().completed(
                old(self).paths(),
                at as int,
                CreationEvent::Completed(at, result)@->Completed_1,
            ),
            final(self).stage matches Waiting::RollingBack(_, rollback) ==> rollback.paths()
                == final(self).paths() && rollback.well_formed(),
    {
        let ghost before = self.state();
        let ghost outcome = CreationEvent::Completed(at, result)@->Completed_1;
        assert(self.paths()[at as int] == self.paths@[at as int]@);
        self.pending.set(at, false);
        match result {
            Ok(_) => {
                self.created.push(self.paths[at].clone());
                assert(terminal_thread::path_contents(self.created@) =~= before.created.push(
                    self.paths()[at as int],
                ));
            },
            Err(message) => {
                if self.first_error.is_none() {
                    self.first_error = Some(message);
                }
            },
        }
        if !self.any_pending() {
            self.settle();
        }
    }

    /// Takes what came of the creations.
    pub fn advance(&mut self, event: CreationEvent)
        requires
            old(self).well_formed(),
        ensures
            final(self).well_formed(),
            final(self).paths() == old(self).paths(),
            final(self).state() == old(self).state().next(old(self).paths(), event@),
    {
        proof {
            all_or_nothing_is_created(self.paths(), self.state(), event@);
        }
        assert(self.paths@.len() == self.paths().len());
        match event {
            CreationEvent::Completed(at, result) => {
                let waiting = match &self.stage {
                    Waiting::Waiting => true,
                    _ => false,
                };
                if waiting && at < self.pending.len() && self.pending[at] {
                    self.complete(at, result);
                }
            },
            CreationEvent::TimedOut => {
                let waiting = match &self.stage {
                    Waiting::Waiting => true,
                    _ => false,
                };
                if waiting {
                    if self.first_error.is_none() {
                        self.first_error = Some(self.timeout_message());
                    }
                    self.settle();
                }
            },
            CreationEvent::Removal(removal) => {
                self.remove(removal);
            },
        }
    }

    fn remove(&mut self, removal: RemovalEvent)
        requires
            old(self).well_formed(),
        ensures
            final(self).paths() == old(self).paths(),
            final(self).state() == old(self).state().next(
                old(self).paths(),
                CreationContents::Removal(removal@),
            ),
            final(self).stage matches Waiting::RollingBack(_, rollback) ==> rollback.paths()
                == final(self).paths() && rollback.well_formed(),
    {
        let mut finished: Option<String> = None;
        if let Waiting::RollingBack(message, rollback) = &mut self.stage {
            rollback.advance(removal);
            if rollback.is_finished() {
                let failed = "Failed to create worktree: ".to_owned().concat(message.as_str());
                finished = Some(rollback.with_failures(failed.as_str()));
            }
        }
        if let Some(message) = finished {
            self.stage = Waiting::Finished(Err(message));
        }
    }

    /// The paths that were created, each of them once, in the order in which they were, or what to
    /// tell; once the outcome is known.
    pub fn outcome(&self) -> (result: Option<Result<Vec<TreePath>, String>>)
        ensures
            match result {
                Some(Ok(created)) => {
                    &&& self.state().stage == WaitStage::Finished(
                        Ok::<Seq<Seq<char>>, Seq<char>>(
                            terminal_thread::path_contents(created@),
                        ),
                    )
                    &&& self.well_formed() ==> terminal_thread::path_contents(
                        created@,
                    ).to_multiset() == self.paths().to_multiset()
                },
                Some(Err(message)) => self.state().stage == WaitStage::Finished(
                    Err::<Seq<Seq<char>>, Seq<char>>(message@),
                ),
                None => !(self.state().stage is Finished),
            },
    {
        proof {
            if self.well_formed() {
                finished_wait_created_all(self.paths(), self.state());
            }
        }
        match &self.stage {
            Waiting::Finished(Ok(_)) => Some(Ok(copy_paths(&self.created))),
            Waiting::Finished(Err(message)) => Some(Err(message.clone())),
            _ => None,
        }
    }
}

/// The start of waiting for the worktrees at `paths`, whose creations were started.
pub fn await_and_rollback_on_failure(paths: Vec<TreePath>) -> (result: CreationWait)
    ensures
        result.well_formed(),
        result.paths() == terminal_thread::path_contents(paths@),
        result.state() == wait_start(terminal_thread::path_contents(paths@)),
{
    let ghost all = terminal_thread::path_contents(paths@);
    let mut pending: Vec<bool> = Vec::new();
    let mut i: usize = 0;
    while i < paths.len()
        invariant
            i <= paths.len(),
            pending@ == Seq::new(i as nat, |j: int| true),
        decreases paths.len() - i,
    {
        pending.push(true);
        assert(pending@ =~= Seq::new((i + 1) as nat, |j: int| true));
        i = i + 1;
    }
    let stage = if paths.len() == 0 {
        Waiting::Finished(Ok(()))
    } else {
        assert(pending@[0]);
        Waiting::Waiting
    };
    let result = CreationWait { paths, pending, created: Vec::new(), first_error: None, stage };
    assert(terminal_thread::path_contents(result.created@) =~= Seq::empty());
    proof {
        wait_start_is_valid(all);
    }
    result
}

/// What comes of creations and removals is taken as it is told.
pub proof fn creation_events_are_taken_as_they_are(
    at: usize,
    message: String,
    removal: RemovalEvent,
    work_directory: TreePath,
    new_path: TreePath,
)
    ensures
        CreationEvent::Completed(at, Ok(()))@ == CreationContents::Completed(at as int, Ok(())),
        CreationEvent::Completed(at, Err(message))@ == CreationContents::Completed(
            at as int,
            Err(message@),
        ),
        CreationEvent::TimedOut@ is TimedOut,
        CreationEvent::Removal(removal)@ == CreationContents::Removal(removal@),
        RemovalEvent::Requested@ is Requested,
        RemovalEvent::Removed@ is Removed,
        RemovalEvent::NotRemoved@ is NotRemoved,
        RemovalEvent::Directory(Ok(()))@ == RemovalContents::Directory(Ok::<(), Seq<char>>(())),
        RemovalEvent::Directory(Err(message))@ == RemovalContents::Directory(
            Err::<(), Seq<char>>(message@),
        ),
        (CreationTarget { work_directory, new_path: Ok(new_path) })@ == (CreationTargetContents {
            work_directory: work_directory@,
            new_path: Ok(new_path@),
        }),
        (CreationTarget { work_directory, new_path: Err(message) })@ == (CreationTargetContents {
            work_directory: work_directory@,
            new_path: Err(message@),
        }),
{
}

} // verus!
