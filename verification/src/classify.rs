//! Which repositories the worktrees of a project belong to.
use std::collections::HashSet;

use vstd::prelude::*;

use crate::path;
use crate::path::TreePath;
use crate::terminal_thread;

verus! {

broadcast use vstd::std_specs::hash::group_hash_axioms;

/// A repository of a project: its identity, and the directory that it works in.
pub struct RepositoryRoot {
    pub id: u64,
    pub work_directory: TreePath,
}

/// The contents of a `RepositoryRoot`.
#[verifier::ext_equal]
pub struct RootContents {
    pub id: u64,
    pub work_directory: Seq<char>,
}

impl View for RepositoryRoot {
    type V = RootContents;

    open spec fn view(&self) -> RootContents {
        RootContents { id: self.id, work_directory: self.work_directory@ }
    }
}

/// The contents of a vector of repositories.
pub open spec fn root_contents(repositories: Seq<RepositoryRoot>) -> Seq<RootContents> {
    repositories.map_values(|repository: RepositoryRoot| repository@)
}

/// Whether one repository has a claim before another to what lies in both: the deeper one, and of
/// two that are equally deep the one with the larger identity.
pub open spec fn outranks(a: RootContents, b: RootContents) -> bool {
    let held = path::depth_of(a.work_directory);
    let found = path::depth_of(b.work_directory);
    held > found || (held == found && a.id > b.id)
}

/// The position of the repository that a worktree belongs to.
pub open spec fn owner(repositories: Seq<RootContents>, worktree: Seq<char>) -> Option<int>
    decreases repositories.len(),
{
    if repositories.len() == 0 {
        None
    } else {
        let at = repositories.len() - 1;
        let earlier = owner(repositories.drop_last(), worktree);
        if !path::is_under(worktree, repositories[at].work_directory) {
            earlier
        } else if earlier matches Some(best) && outranks(repositories[best], repositories[at]) {
            earlier
        } else {
            Some(at)
        }
    }
}

/// A worktree belongs to the deepest repository that it lies in, and of equally deep ones to the
/// one with the largest identity; it belongs to none only where it lies in none.
pub proof fn owner_is_deepest(repositories: Seq<RootContents>, worktree: Seq<char>)
    ensures
        match owner(repositories, worktree) {
            Some(at) => {
                let best = repositories[at];
                &&& 0 <= at < repositories.len()
                &&& path::is_under(worktree, best.work_directory)
                &&& forall|other: int|
                    0 <= other < repositories.len() && path::is_under(
                        worktree,
                        (#[trigger] repositories[other]).work_directory,
                    ) ==> path::depth_of(repositories[other].work_directory) <= path::depth_of(
                        best.work_directory,
                    )
                &&& forall|other: int|
                    0 <= other < repositories.len() && path::is_under(
                        worktree,
                        (#[trigger] repositories[other]).work_directory,
                    ) && path::depth_of(repositories[other].work_directory) == path::depth_of(
                        best.work_directory,
                    ) ==> repositories[other].id <= best.id
            },
            None => forall|other: int|
                0 <= other < repositories.len() ==> !path::is_under(
                    worktree,
                    (#[trigger] repositories[other]).work_directory,
                ),
        },
    decreases repositories.len(),
{
    if repositories.len() > 0 {
        let rest = repositories.drop_last();
        owner_is_deepest(rest, worktree);
        assert forall|other: int| 0 <= other < rest.len() implies #[trigger] repositories[other]
            == rest[other] by {}
    }
}

/// The identities of the repositories that worktrees belong to, each once, in the order of the
/// worktrees.
pub open spec fn owning_ids(
    repositories: Seq<RootContents>,
    worktrees: Seq<Seq<char>>,
) -> Seq<u64>
    decreases worktrees.len(),
{
    if worktrees.len() == 0 {
        Seq::empty()
    } else {
        let earlier = owning_ids(repositories, worktrees.drop_last());
        match owner(repositories, worktrees.last()) {
            Some(at) if !earlier.contains(repositories[at].id) => earlier.push(
                repositories[at].id,
            ),
            _ => earlier,
        }
    }
}

/// The worktrees that belong to no repository.
pub open spec fn unowned(
    repositories: Seq<RootContents>,
    worktrees: Seq<Seq<char>>,
) -> Seq<Seq<char>>
    decreases worktrees.len(),
{
    if worktrees.len() == 0 {
        Seq::empty()
    } else if owner(repositories, worktrees.last()) is Some {
        unowned(repositories, worktrees.drop_last())
    } else {
        unowned(repositories, worktrees.drop_last()).push(worktrees.last())
    }
}

/// Every worktree is accounted for: its repository is named, or it is listed as belonging to none.
/// No repository is named twice.
pub proof fn every_worktree_is_classified(
    repositories: Seq<RootContents>,
    worktrees: Seq<Seq<char>>,
)
    ensures
        owning_ids(repositories, worktrees).no_duplicates(),
        forall|i: int|
            #![trigger worktrees[i]]
            0 <= i < worktrees.len() ==> match owner(repositories, worktrees[i]) {
                Some(at) => owning_ids(repositories, worktrees).contains(repositories[at].id),
                None => unowned(repositories, worktrees).contains(worktrees[i]),
            },
    decreases worktrees.len(),
{
    if worktrees.len() > 0 {
        let rest = worktrees.drop_last();
        every_worktree_is_classified(repositories, rest);
        let earlier = owning_ids(repositories, rest);
        let ids = owning_ids(repositories, worktrees);
        let others = unowned(repositories, rest);
        let lone = unowned(repositories, worktrees);
        assert forall|id: u64| earlier.contains(id) implies ids.contains(id) by {
            let i = choose|i: int| 0 <= i < earlier.len() && earlier[i] == id;
            assert(ids[i] == id);
        }
        assert forall|p: Seq<char>| others.contains(p) implies lone.contains(p) by {
            let i = choose|i: int| 0 <= i < others.len() && others[i] == p;
            assert(lone[i] == p);
        }
        assert forall|i: int|
            #![trigger worktrees[i]]
            0 <= i < worktrees.len() implies match owner(repositories, worktrees[i]) {
            Some(at) => ids.contains(repositories[at].id),
            None => lone.contains(worktrees[i]),
        } by {
            if i < rest.len() {
                assert(rest[i] == worktrees[i]);
            } else {
                match owner(repositories, worktrees[i]) {
                    Some(at) => {
                        if !earlier.contains(repositories[at].id) {
                            assert(ids[earlier.len() as int] == repositories[at].id);
                        }
                    },
                    None => {
                        assert(lone[others.len() as int] == worktrees[i]);
                    },
                }
            }
        }
    }
}

/// Nothing is made up: every repository that is named is the owner of one of the worktrees, and
/// every worktree that is listed as belonging to none is one of them and lies in no repository.
pub proof fn only_what_is_there_is_classified(
    repositories: Seq<RootContents>,
    worktrees: Seq<Seq<char>>,
)
    ensures
        forall|id: u64| #[trigger]
            owning_ids(repositories, worktrees).contains(id) ==> exists|i: int|
                0 <= i < worktrees.len() && (owner(repositories, #[trigger] worktrees[i]) matches
                    Some(at) && repositories[at].id == id),
        forall|lone: Seq<char>, other: int| #[trigger]
            unowned(repositories, worktrees).contains(lone) && 0 <= other < repositories.len()
                ==> worktrees.contains(lone) && !path::is_under(
                lone,
                (#[trigger] repositories[other]).work_directory,
            ),
        unowned(repositories, worktrees).len() + owning_ids(repositories, worktrees).len()
            <= worktrees.len(),
    decreases worktrees.len(),
{
    if worktrees.len() > 0 {
        let rest = worktrees.drop_last();
        let last = worktrees.last();
        only_what_is_there_is_classified(repositories, rest);
        owner_is_deepest(repositories, last);
        let earlier = owning_ids(repositories, rest);
        let ids = owning_ids(repositories, worktrees);
        let others = unowned(repositories, rest);
        let lones = unowned(repositories, worktrees);
        assert(worktrees[worktrees.len() - 1] == last);
        assert forall|id: u64| #[trigger] ids.contains(id) implies exists|i: int|
            0 <= i < worktrees.len() && (owner(repositories, #[trigger] worktrees[i]) matches Some(
                at,
            ) && repositories[at].id == id) by {
            if earlier.contains(id) {
                let i = choose|i: int|
                    0 <= i < rest.len() && (owner(repositories, #[trigger] rest[i]) matches Some(
                        at,
                    ) && repositories[at].id == id);
                assert(worktrees[i] == rest[i]);
            }
        }
        assert forall|lone: Seq<char>, other: int| #[trigger]
            lones.contains(lone) && 0 <= other < repositories.len() implies worktrees.contains(lone)
            && !path::is_under(lone, (#[trigger] repositories[other]).work_directory) by {
            if others.contains(lone) {
                let i = choose|i: int| 0 <= i < rest.len() && rest[i] == lone;
                assert(worktrees[i] == lone);
            }
        }
    }
}

/// The order is that of the worktrees: what more of them add comes behind.
pub proof fn classification_keeps_the_order(
    repositories: Seq<RootContents>,
    worktrees: Seq<Seq<char>>,
    more: Seq<Seq<char>>,
)
    ensures
        ({
            let ids = owning_ids(repositories, worktrees);
            let all = owning_ids(repositories, worktrees + more);
            ids.len() <= all.len() && all.take(ids.len() as int) == ids
        }),
        unowned(repositories, worktrees + more) == unowned(repositories, worktrees) + unowned(
            repositories,
            more,
        ),
    decreases more.len(),
{
    let whole = worktrees + more;
    if more.len() == 0 {
        assert(whole =~= worktrees);
        assert(unowned(repositories, worktrees) + unowned(repositories, more) =~= unowned(
            repositories,
            worktrees,
        ));
        let ids = owning_ids(repositories, worktrees);
        assert(ids.take(ids.len() as int) =~= ids);
    } else {
        let rest = more.drop_last();
        classification_keeps_the_order(repositories, worktrees, rest);
        assert(whole.drop_last() =~= worktrees + rest);
        assert(whole.last() == more.last());
        let ids = owning_ids(repositories, worktrees);
        let before = owning_ids(repositories, worktrees + rest);
        let all = owning_ids(repositories, whole);
        assert(all.take(ids.len() as int) =~= before.take(ids.len() as int));
        assert(unowned(repositories, whole) =~= unowned(repositories, worktrees) + unowned(
            repositories,
            more,
        ));
    }
}

fn find_owner(repositories: &Vec<RepositoryRoot>, worktree: &TreePath) -> (result: Option<usize>)
    ensures
        match result {
            Some(at) => at < repositories@.len() && owner(
                root_contents(repositories@),
                worktree@,
            ) == Some(at as int),
            None => owner(root_contents(repositories@), worktree@) is None,
        },
{
    let ghost all = root_contents(repositories@);
    let mut best: Option<usize> = None;
    let mut i: usize = 0;
    assert(all.take(0) =~= Seq::empty());
    while i < repositories.len()
        invariant
            i <= repositories.len(),
            all == root_contents(repositories@),
            match best {
                Some(at) => at < i && owner(all.take(i as int), worktree@) == Some(at as int),
                None => owner(all.take(i as int), worktree@) is None,
            },
        decreases repositories.len() - i,
    {
        let ghost now = all.take(i + 1);
        assert(now.drop_last() =~= all.take(i as int));
        assert(now[i as int] == repositories@[i as int]@);
        if worktree.starts_with(&repositories[i].work_directory) {
            let kept = match best {
                Some(at) => {
                    assert(now[at as int] == repositories@[at as int]@);
                    let held = repositories[at].work_directory.depth();
                    let found = repositories[i].work_directory.depth();
                    held > found || (held == found && repositories[at].id > repositories[i].id)
                },
                None => false,
            };
            if !kept {
                best = Some(i);
            }
        }
        i = i + 1;
    }
    assert(all.take(i as int) =~= all);
    best
}

/// The repositories that the visible worktrees of a project belong to, each once, and the
/// worktrees that belong to none.
pub fn classify_worktrees(repositories: &Vec<RepositoryRoot>, worktrees: &Vec<TreePath>) -> (result:
    (Vec<u64>, Vec<TreePath>))
    ensures
        result.0@ == owning_ids(
            root_contents(repositories@),
            terminal_thread::path_contents(worktrees@),
        ),
        terminal_thread::path_contents(result.1@) == unowned(
            root_contents(repositories@),
            terminal_thread::path_contents(worktrees@),
        ),
{
    let ghost roots = root_contents(repositories@);
    let ghost all = terminal_thread::path_contents(worktrees@);
    let mut git_repositories: Vec<u64> = Vec::new();
    let mut non_git_paths: Vec<TreePath> = Vec::new();
    let mut seen: HashSet<u64> = HashSet::new();
    let mut i: usize = 0;
    assert(all.take(0) =~= Seq::empty());
    assert(terminal_thread::path_contents(non_git_paths@) =~= Seq::empty());
    while i < worktrees.len()
        invariant
            i <= worktrees.len(),
            roots == root_contents(repositories@),
            all == terminal_thread::path_contents(worktrees@),
            git_repositories@ == owning_ids(roots, all.take(i as int)),
            terminal_thread::path_contents(non_git_paths@) == unowned(roots, all.take(i as int)),
            forall|id: u64| seen@.contains(id) <==> git_repositories@.contains(id),
        decreases worktrees.len() - i,
    {
        let ghost now = all.take(i + 1);
        assert(now.drop_last() =~= all.take(i as int));
        assert(now.last() == worktrees@[i as int]@);
        match find_owner(repositories, &worktrees[i]) {
            Some(at) => {
                let id = repositories[at].id;
                assert(roots[at as int].id == id);
                let ghost before = git_repositories@;
                if !seen.contains(&id) {
                    seen.insert(id);
                    git_repositories.push(id);
                    assert forall|other: u64|
                        seen@.contains(other) <==> git_repositories@.contains(other) by {
                        assert(git_repositories@[before.len() as int] == id);
                        if before.contains(other) {
                            let j = choose|j: int| 0 <= j < before.len() && before[j] == other;
                            assert(git_repositories@[j] == other);
                        }
                    }
                }
            },
            None => {
                let ghost before = terminal_thread::path_contents(non_git_paths@);
                non_git_paths.push(worktrees[i].clone());
                assert(terminal_thread::path_contents(non_git_paths@) =~= before.push(
                    worktrees@[i as int]@,
                ));
            },
        }
        i = i + 1;
    }
    assert(all.take(i as int) =~= all);
    (git_repositories, non_git_paths)
}

} // verus!
