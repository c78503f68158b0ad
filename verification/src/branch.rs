//! The branches that worktrees are created from, and what is told when one cannot be fetched.
use vstd::prelude::*;

use crate::text;
use crate::text::{position_of, same, strip_prefix};

verus! {

/// What a new worktree is based on.
#[derive(Clone, Debug, PartialEq, Eq)]
pub enum NewWorktreeBranchTarget {
    CurrentBranch,
    ExistingBranch { name: String },
    RemoteBranch { remote_name: String, branch_name: String },
}

/// The contents of a `NewWorktreeBranchTarget`.
pub enum TargetContents {
    CurrentBranch,
    ExistingBranch(Seq<char>),
    RemoteBranch(BranchContents),
}

impl View for NewWorktreeBranchTarget {
    type V = TargetContents;

    open spec fn view(&self) -> TargetContents {
        match *self {
            NewWorktreeBranchTarget::CurrentBranch => TargetContents::CurrentBranch,
            NewWorktreeBranchTarget::ExistingBranch { name } => TargetContents::ExistingBranch(
                name@,
            ),
            NewWorktreeBranchTarget::RemoteBranch { remote_name, branch_name } =>
                TargetContents::RemoteBranch(
                BranchContents { remote_name: remote_name@, branch_name: branch_name@ },
            ),
        }
    }
}

/// A remote-tracking branch, as its remote and its branch on that remote.
#[derive(Clone, Debug, PartialEq, Eq)]
pub struct RemoteBranchName {
    pub remote_name: String,
    pub branch_name: String,
}

/// The contents of a `RemoteBranchName`.
#[verifier::ext_equal]
pub struct BranchContents {
    pub remote_name: Seq<char>,
    pub branch_name: Seq<char>,
}

impl View for RemoteBranchName {
    type V = BranchContents;

    open spec fn view(&self) -> BranchContents {
        BranchContents { remote_name: self.remote_name@, branch_name: self.branch_name@ }
    }
}

impl BranchContents {
    /// The name that is shown: the remote, a slash, and the branch.
    pub open spec fn display(self) -> Seq<char> {
        self.remote_name + "/"@ + self.branch_name
    }

    /// The full name of the reference.
    pub open spec fn reference(self) -> Seq<char> {
        "refs/remotes/"@ + self.display()
    }
}

/// A name without `refs/remotes/` before it.
pub open spec fn short_name(name: Seq<char>) -> Seq<char> {
    if text::begins_with(name, "refs/remotes/"@) {
        name.skip("refs/remotes/"@.len() as int)
    } else {
        name
    }
}

/// The remote-tracking branch that a name stands for: what comes before the first slash, and what
/// comes after it, where both are there.
pub open spec fn branch_named(name: Seq<char>) -> Option<BranchContents> {
    let short = short_name(name);
    let at = text::first_of(short, '/', '/');
    if 0 < at && at + 1 < short.len() {
        Some(BranchContents { remote_name: short.take(at), branch_name: short.skip(at + 1) })
    } else {
        None
    }
}

impl RemoteBranchName {
    /// The remote-tracking branch that a name stands for.
    pub fn parse(name: &str) -> (result: Option<RemoteBranchName>)
        ensures
            match result {
                Some(branch) => branch_named(name@) == Some(branch@),
                None => branch_named(name@) is None,
            },
    {
        let short = match strip_prefix(name, "refs/remotes/") {
            Some(rest) => rest,
            None => name,
        };
        assert(short@ == short_name(name@));
        let at = position_of(short, '/');
        let length = short.unicode_len();
        if at == 0 || at >= length || at + 1 >= length {
            return None;
        }
        let remote_name = short.substring_char(0, at).to_owned();
        let branch_name = short.substring_char(at + 1, length).to_owned();
        assert(remote_name@ =~= short@.take(at as int));
        assert(branch_name@ =~= short@.skip(at + 1));
        Some(RemoteBranchName { remote_name, branch_name })
    }

    /// The name that is shown.
    pub fn display_name(&self) -> (result: String)
        ensures
            result@ == self@.display(),
    {
        self.remote_name.clone().concat("/").concat(self.branch_name.as_str())
    }
}

/// Whether `s` holds no slash.
pub open spec fn is_plain(s: Seq<char>) -> bool {
    forall|i: int| 0 <= i < s.len() ==> #[trigger] s[i] != '/'
}

/// A branch is found again by the name that is shown of it, unless the remote is named `refs` and
/// the branch begins with `remotes/`.
pub proof fn display_name_round_trip(branch: BranchContents)
    requires
        branch.remote_name.len() > 0,
        is_plain(branch.remote_name),
        branch.branch_name.len() > 0,
        !text::begins_with(branch.display(), "refs/remotes/"@),
    ensures
        branch_named(branch.display()) == Some(branch),
{
    lemma_split(branch);
}

/// A branch is found again by the full name of its reference.
pub proof fn reference_round_trip(branch: BranchContents)
    requires
        branch.remote_name.len() > 0,
        is_plain(branch.remote_name),
        branch.branch_name.len() > 0,
    ensures
        branch_named(branch.reference()) == Some(branch),
{
    let name = branch.reference();
    assert(name.take("refs/remotes/"@.len() as int) =~= "refs/remotes/"@);
    assert(name.skip("refs/remotes/"@.len() as int) =~= branch.display());
    lemma_split(branch);
}

proof fn lemma_split(branch: BranchContents)
    requires
        branch.remote_name.len() > 0,
        is_plain(branch.remote_name),
    ensures
        text::first_of(branch.display(), '/', '/') == branch.remote_name.len(),
        branch.display().take(branch.remote_name.len() as int) == branch.remote_name,
        branch.display().skip(branch.remote_name.len() as int + 1) == branch.branch_name,
        branch.display().len() == branch.remote_name.len() + 1 + branch.branch_name.len(),
{
    reveal_strlit("/");
    let at = branch.remote_name.len() as int;
    assert(branch.display()[at] == '/');
    assert(forall|i: int| 0 <= i < at ==> branch.display()[i] == branch.remote_name[i]);
    text::lemma_first_of_is(branch.display(), '/', '/', at);
    assert(branch.display().take(at) =~= branch.remote_name);
    assert(branch.display().skip(at + 1) =~= branch.branch_name);
}

/// What can be offered as the base of a new worktree.
#[derive(Clone, Debug, PartialEq, Eq)]
pub enum WorktreeCreateTarget {
    CurrentBranch,
    DefaultBranch(RemoteBranchName),
}

/// The contents of a `WorktreeCreateTarget`.
pub enum OfferContents {
    CurrentBranch,
    DefaultBranch(BranchContents),
}

impl View for WorktreeCreateTarget {
    type V = OfferContents;

    open spec fn view(&self) -> OfferContents {
        match *self {
            WorktreeCreateTarget::CurrentBranch => OfferContents::CurrentBranch,
            WorktreeCreateTarget::DefaultBranch(branch) => OfferContents::DefaultBranch(branch@),
        }
    }
}

impl WorktreeCreateTarget {
    /// What a worktree that is created for this offer is based on.
    pub fn branch_target(&self) -> (result: NewWorktreeBranchTarget)
        ensures
            result@ == match self@ {
                OfferContents::CurrentBranch => TargetContents::CurrentBranch,
                OfferContents::DefaultBranch(branch) => TargetContents::RemoteBranch(branch),
            },
    {
        match self {
            WorktreeCreateTarget::CurrentBranch => NewWorktreeBranchTarget::CurrentBranch,
            WorktreeCreateTarget::DefaultBranch(default_branch) => {
                NewWorktreeBranchTarget::RemoteBranch {
                    remote_name: default_branch.remote_name.clone(),
                    branch_name: default_branch.branch_name.clone(),
                }
            },
        }
    }

    /// How this offer is labelled.
    pub fn branch_label(
        &self,
        has_multiple_repositories: bool,
        current_branch_name: Option<&str>,
    ) -> (result: String)
        ensures
            result@ == match self@ {
                OfferContents::DefaultBranch(branch) => branch.display(),
                OfferContents::CurrentBranch => if has_multiple_repositories {
                    "current branches"@
                } else {
                    match current_branch_name {
                        Some(name) => name@,
                        None => "HEAD"@,
                    }
                },
            },
    {
        match self {
            WorktreeCreateTarget::DefaultBranch(default_branch) => default_branch.display_name(),
            WorktreeCreateTarget::CurrentBranch => {
                if has_multiple_repositories {
                    "current branches".to_owned()
                } else {
                    match current_branch_name {
                        Some(name) => name.to_owned(),
                        None => "HEAD".to_owned(),
                    }
                }
            },
        }
    }
}

/// What an optional branch holds.
pub open spec fn branch_option(branch: Option<RemoteBranchName>) -> Option<BranchContents> {
    match branch {
        Some(inner) => Some(inner@),
        None => None,
    }
}

/// What is offered: the default branch of the remote, where there is one repository and it has
/// one, and the current branch unless it is that branch.
pub open spec fn offers(
    has_multiple_repositories: bool,
    default_branch: Option<BranchContents>,
    current_branch_name: Option<Seq<char>>,
) -> Seq<OfferContents> {
    match default_branch {
        Some(branch) if !has_multiple_repositories => if current_branch_name == Some(
            branch.branch_name,
        ) {
            seq![OfferContents::DefaultBranch(branch)]
        } else {
            seq![OfferContents::DefaultBranch(branch), OfferContents::CurrentBranch]
        },
        _ => seq![OfferContents::CurrentBranch],
    }
}

/// What can be offered as the base of a new worktree.
pub fn worktree_create_targets(
    has_multiple_repositories: bool,
    default_branch: Option<RemoteBranchName>,
    current_branch_name: Option<&str>,
) -> (result: Vec<WorktreeCreateTarget>)
    ensures
        result@.map_values(|target: WorktreeCreateTarget| target@) == offers(
            has_multiple_repositories,
            branch_option(default_branch),
            text::text_option(current_branch_name),
        ),
{
    let mut targets: Vec<WorktreeCreateTarget> = Vec::new();
    let ghost expected = offers(
        has_multiple_repositories,
        branch_option(default_branch),
        text::text_option(current_branch_name),
    );
    match default_branch {
        Some(default_branch) if !has_multiple_repositories => {
            let is_different = match current_branch_name {
                Some(current) => !same(current, default_branch.branch_name.as_str()),
                None => true,
            };
            targets.push(WorktreeCreateTarget::DefaultBranch(default_branch));
            if is_different {
                targets.push(WorktreeCreateTarget::CurrentBranch);
            }
        },
        _ => {
            targets.push(WorktreeCreateTarget::CurrentBranch);
        },
    }
    assert(targets@.map_values(|target: WorktreeCreateTarget| target@) =~= expected);
    targets
}

/// Whether the remote is asked for a branch before a worktree is created from it.
#[derive(Clone, Copy, Debug, PartialEq, Eq, Structural)]
pub enum RemoteBranchFetchMode {
    Fetch,
    UseLocal,
}

impl RemoteBranchFetchMode {
    /// Whether the remote is asked.
    pub fn should_fetch(self) -> (result: bool)
        ensures
            result == (self == RemoteBranchFetchMode::Fetch),
    {
        match self {
            RemoteBranchFetchMode::Fetch => true,
            RemoteBranchFetchMode::UseLocal => false,
        }
    }
}

/// The reference that a worktree is based on; none is the current head.
pub fn resolve_worktree_branch_target(branch_target: &NewWorktreeBranchTarget) -> (result: Option<
    String,
>)
    ensures
        text::string_option(result) == match branch_target@ {
            TargetContents::CurrentBranch => None,
            TargetContents::ExistingBranch(name) => Some(name),
            TargetContents::RemoteBranch(branch) => Some(branch.reference()),
        },
{
    match branch_target {
        NewWorktreeBranchTarget::CurrentBranch => None,
        NewWorktreeBranchTarget::ExistingBranch { name } => Some(name.clone()),
        NewWorktreeBranchTarget::RemoteBranch { remote_name, branch_name } => {
            let name = "refs/remotes/".to_owned().concat(remote_name.as_str()).concat("/").concat(
                branch_name.as_str(),
            );
            assert(name@ =~= (BranchContents {
                remote_name: remote_name@,
                branch_name: branch_name@,
            }).reference());
            Some(name)
        },
    }
}

/// The branch to fetch before a worktree is based on a target.
pub open spec fn branch_to_fetch(
    target: TargetContents,
    mode: RemoteBranchFetchMode,
) -> Option<BranchContents> {
    match target {
        TargetContents::RemoteBranch(branch) if mode == RemoteBranchFetchMode::Fetch => Some(
            branch,
        ),
        _ => None,
    }
}

/// The remote and the branch that a target names, where it is on a remote.
pub fn remote_branch_to_fetch(branch_target: &NewWorktreeBranchTarget) -> (result: Option<
    (&str, &str),
>)
    ensures
        match result {
            Some((remote_name, branch_name)) => branch_target@ == TargetContents::RemoteBranch(
                BranchContents { remote_name: remote_name@, branch_name: branch_name@ },
            ),
            None => !(branch_target@ is RemoteBranch),
        },
{
    match branch_target {
        NewWorktreeBranchTarget::RemoteBranch { remote_name, branch_name } => Some(
            (remote_name.as_str(), branch_name.as_str()),
        ),
        _ => None,
    }
}

/// A fetch that failed while a worktree was created: the branch, what was said of it in short, and
/// what was said of it in full.
#[derive(Debug)]
pub struct WorktreeFetchError {
    pub remote_name: String,
    pub branch_name: String,
    pub source: String,
    pub source_chain: String,
}

impl WorktreeFetchError {
    /// The branch.
    pub open spec fn branch(self) -> BranchContents {
        BranchContents { remote_name: self.remote_name@, branch_name: self.branch_name@ }
    }

    /// The name that is shown of the branch.
    pub fn remote_branch_name(&self) -> (result: String)
        ensures
            result@ == self.branch().display(),
    {
        self.remote_name.clone().concat("/").concat(self.branch_name.as_str())
    }

    /// What is shown as the output of the fetch.
    pub fn output(&self) -> (result: String)
        ensures
            result@ == "git fetch "@ + self.remote_name@ + " failed:\n"@ + self.source_chain@,
    {
        "git fetch ".to_owned().concat(self.remote_name.as_str()).concat(" failed:\n").concat(
            self.source_chain.as_str(),
        )
    }

    /// What to tell of this error.
    pub fn message(&self) -> (result: String)
        ensures
            result@ == "git fetch "@ + self.remote_name@
                + " failed while creating worktree from "@ + self.branch().display() + ": "@
                + self.source@,
    {
        let branch = self.remote_branch_name();
        "git fetch ".to_owned().concat(self.remote_name.as_str()).concat(
            " failed while creating worktree from ",
        ).concat(branch.as_str()).concat(": ").concat(self.source.as_str())
    }

    /// What the notice of this error shows.
    pub fn notice(&self) -> (result: WorktreeFetchFailedNotice)
        ensures
            result.label@ == "git fetch failed for "@ + self.branch().display(),
            result.use_local_label@ == "Use local "@ + self.branch().display(),
            result.operation@ == "fetch "@ + self.remote_name@,
            result.output@ == "git fetch "@ + self.remote_name@ + " failed:\n"@
                + self.source_chain@,
    {
        let branch = self.remote_branch_name();
        WorktreeFetchFailedNotice {
            label: "git fetch failed for ".to_owned().concat(branch.as_str()),
            use_local_label: "Use local ".to_owned().concat(branch.as_str()),
            operation: "fetch ".to_owned().concat(self.remote_name.as_str()),
            output: self.output(),
        }
    }
}

/// The notice of a fetch that failed: its label, the label of the button that goes on with the
/// local branch, the operation that the output is shown under, and the output.
#[derive(Debug)]
pub struct WorktreeFetchFailedNotice {
    pub label: String,
    pub use_local_label: String,
    pub operation: String,
    pub output: String,
}

/// The name that is shown of a branch is its remote, a slash and its name there; the reference has
/// `refs/remotes/` before that.
pub proof fn branches_are_written_out(branch: BranchContents)
    ensures
        branch.display() == branch.remote_name + seq!['/'] + branch.branch_name,
        branch.reference() == "refs/remotes/"@ + (branch.remote_name + seq!['/']
            + branch.branch_name),
{
    reveal_strlit("/");
    assert("/"@ =~= seq!['/']);
}

/// A name stands for a branch just where, without `refs/remotes/`, something comes before its first
/// slash and something behind it: the remote and the branch.
pub proof fn names_are_read_at_the_first_slash(name: Seq<char>)
    ensures
        ({
            let prefix = "refs/remotes/"@;
            let short = if text::begins_with(name, prefix) {
                name.skip(prefix.len() as int)
            } else {
                name
            };
            &&& branch_named(name) matches Some(branch) ==> branch.remote_name.len() > 0
                && branch.branch_name.len() > 0 && is_plain(branch.remote_name) && short
                == branch.remote_name + seq!['/'] + branch.branch_name
            &&& branch_named(name) is None ==> is_plain(short) || short[0] == '/' || (forall|i: int|
                0 <= i < short.len() - 1 ==> #[trigger] short[i] != '/')
        }),
{
    let short = short_name(name);
    text::lemma_first_of(short, '/', '/');
    let at = text::first_of(short, '/', '/');
    if let Some(branch) = branch_named(name) {
        assert(short =~= branch.remote_name + seq!['/'] + branch.branch_name);
    }
}

/// The default branch of the remote is offered first, where there is one repository and it has one;
/// the current branch is offered unless it is that branch. Nothing else is offered.
pub proof fn default_branch_is_offered_first(
    multiple: bool,
    branch: BranchContents,
    current: Option<Seq<char>>,
)
    ensures
        offers(multiple, None, current) == seq![OfferContents::CurrentBranch],
        offers(true, Some(branch), current) == seq![OfferContents::CurrentBranch],
        current == Some(branch.branch_name) ==> offers(false, Some(branch), current) == seq![
            OfferContents::DefaultBranch(branch),
        ],
        current != Some(branch.branch_name) ==> offers(false, Some(branch), current) == seq![
            OfferContents::DefaultBranch(branch),
            OfferContents::CurrentBranch,
        ],
{
}

/// A branch is fetched just where it is one of a remote and fetching is wanted.
pub proof fn only_remote_branches_are_fetched(
    target: TargetContents,
    branch: BranchContents,
    name: Seq<char>,
)
    ensures
        branch_to_fetch(TargetContents::RemoteBranch(branch), RemoteBranchFetchMode::Fetch) == Some(
            branch,
        ),
        branch_to_fetch(target, RemoteBranchFetchMode::UseLocal) is None,
        branch_to_fetch(TargetContents::CurrentBranch, RemoteBranchFetchMode::Fetch) is None,
        branch_to_fetch(TargetContents::ExistingBranch(name), RemoteBranchFetchMode::Fetch) is None,
{
}

/// What is known of a target is what it holds: no target is taken for another.
pub proof fn targets_are_taken_as_they_are(name: String, remote_name: String, branch_name: String)
    ensures
        NewWorktreeBranchTarget::CurrentBranch@ is CurrentBranch,
        (NewWorktreeBranchTarget::ExistingBranch { name })@ == TargetContents::ExistingBranch(name@),
        (NewWorktreeBranchTarget::RemoteBranch { remote_name, branch_name })@
            == TargetContents::RemoteBranch(
            BranchContents { remote_name: remote_name@, branch_name: branch_name@ },
        ),
        WorktreeCreateTarget::CurrentBranch@ is CurrentBranch,
        (RemoteBranchName { remote_name, branch_name })@ == (BranchContents {
            remote_name: remote_name@,
            branch_name: branch_name@,
        }),
        WorktreeCreateTarget::DefaultBranch(RemoteBranchName { remote_name, branch_name })@
            == OfferContents::DefaultBranch(
            BranchContents { remote_name: remote_name@, branch_name: branch_name@ },
        ),
{
}

} // verus!
