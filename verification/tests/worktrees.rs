use std::collections::BTreeMap;

use worktree_sessions::activity::{
    activity_priority, ProjectGroupKey, WorktreeActivity, WorktreeActivityKey,
    WorktreeActivityStatus, WorktreeActivityStore, WorktreeActivityUpdate,
};
use worktree_sessions::branch::{
    remote_branch_to_fetch, resolve_worktree_branch_target, worktree_create_targets,
    NewWorktreeBranchTarget, RemoteBranchFetchMode, RemoteBranchName, WorktreeCreateTarget,
    WorktreeFetchError,
};
use worktree_sessions::classify::{classify_worktrees, RepositoryRoot};
use worktree_sessions::include_copy::{CopyAction, CopyEvent, FileMetadata, IncludeCopies};
use worktree_sessions::include_matcher::IncludeMatcher;
use worktree_sessions::path::TreePath;
use worktree_sessions::scan_roots::worktree_include_scan_roots;
use worktree_sessions::timestamp::Timestamp;

fn path(text: &str) -> TreePath {
    TreePath::parse(text)
}

fn texts(paths: &[TreePath]) -> Vec<String> {
    paths.iter().map(|path| path.to_text()).collect()
}

#[test]
fn paths_are_compared_by_components() {
    assert!(path("/a//b/./c/").same_path(&path("/a/b/c")));
    assert!(!path("./a").same_path(&path("a")));
    assert!(path("/a/b").starts_with(&path("/a")));
    assert!(!path("/ab").starts_with(&path("/a")));
    assert_eq!(path("/a/b/c").strip_prefix(&path("/a")).unwrap().to_text(), "b/c");
    assert!(path("/a").strip_prefix(&path("/b")).is_none());
    assert_eq!(path("/a/b").join(&path("c")).to_text(), "/a/b/c");
    assert_eq!(path("/a").join(&path("./b")).to_text(), "/a/./b");
    assert_eq!(path("/a").join(&path("")).to_text(), "/a/");
    assert_eq!(path("/a").join(&path("/b")).to_text(), "/b");
    assert_eq!(path("/a/..").file_name(), None);
    assert_eq!(path("/a/b").file_name().as_deref(), Some("b"));
    assert_eq!(path("/a/b").parent_name().as_deref(), Some("a"));
    assert_eq!(path("/").parent_name(), None);
    assert_eq!(path("").parent_name(), None);
}

#[test]
fn paths_are_shown_as_they_are_written() {
    for text in ["", "/", "/a//b/./c/", "./a", "a/."] {
        assert_eq!(path(text).to_text(), text);
        assert_eq!(path(text).clone().as_str(), text);
    }
    let rest = path("/a//b/./c//d/./").strip_prefix(&path("/a")).unwrap();
    assert_eq!(rest.to_text(), "b/./c//d");
}

const WRITTEN: [&str; 31] = [
    "", "/", "//", ".", "./", "..", "/..", "a", "/a", "a/", "./a", "././a", "a/./b", "a//b", "/./a",
    "//a/.", "a/..", "../a", "/a/b/../c/.", ".//", "./.", "/.", "//.//", "a/./", "./a//", "/a/b/",
    "..a", ".a/b", "a/./b//c/./", "/a//b/./c", "...",
];

fn files_agree(text: &str) -> bool {
    let ours = path(text);
    let std_path = std::path::Path::new(text);
    let components: Vec<String> = std_path
        .components()
        .map(|component| component.as_os_str().to_str().unwrap().to_string())
        .collect();
    let name = |path: &std::path::Path| {
        path.file_name().map(|name| name.to_str().unwrap().to_string())
    };
    ours.components() == components
        && ours.depth() == components.len()
        && ours.file_name() == name(std_path)
        && ours.parent_name() == std_path.parent().and_then(name)
}

#[test]
fn paths_have_the_components_that_std_gives() {
    for text in WRITTEN {
        assert!(files_agree(text), "{}", text);
    }
}

#[test]
fn paths_are_joined_and_stripped_as_std_does() {
    for first in WRITTEN {
        for second in WRITTEN {
            let (a, b) = (std::path::Path::new(first), std::path::Path::new(second));
            let (ours, other) = (path(first), path(second));
            let joined = a.join(b);
            assert_eq!(ours.join(&other).as_str(), joined.to_str().unwrap());
            assert_eq!(ours.same_path(&other), a == b, "{first} {second}");
            assert_eq!(ours.starts_with(&other), a.starts_with(b), "{first} {second}");
            for (whole, text) in [(a, first), (joined.as_path(), joined.to_str().unwrap())] {
                let rest = path(text).strip_prefix(&other).map(|rest| rest.to_text());
                let expected =
                    whole.strip_prefix(b).ok().map(|rest| rest.to_str().unwrap().to_string());
                assert_eq!(rest, expected, "{text} behind {second}");
                let rest = path(text).strip_prefix(&ours).map(|rest| rest.to_text());
                let expected =
                    whole.strip_prefix(a).ok().map(|rest| rest.to_str().unwrap().to_string());
                assert_eq!(rest, expected, "{text} behind {first}");
            }
        }
    }
}

#[test]
fn test_remote_branch_name_parse() {
    assert_eq!(
        RemoteBranchName::parse("refs/remotes/origin/main"),
        Some(RemoteBranchName {
            remote_name: "origin".to_string(),
            branch_name: "main".to_string(),
        })
    );
    assert_eq!(
        RemoteBranchName::parse("upstream/feature/foo"),
        Some(RemoteBranchName {
            remote_name: "upstream".to_string(),
            branch_name: "feature/foo".to_string(),
        })
    );
    assert_eq!(RemoteBranchName::parse("main"), None);
    assert_eq!(RemoteBranchName::parse("origin/"), None);
}

#[test]
fn branches_are_found_again_by_their_names() {
    let branch = RemoteBranchName {
        remote_name: "origin".to_string(),
        branch_name: "feature/x".to_string(),
    };
    assert_eq!(branch.display_name(), "origin/feature/x");
    assert_eq!(RemoteBranchName::parse(&branch.display_name()), Some(branch.clone()));
    let reference = resolve_worktree_branch_target(
        &WorktreeCreateTarget::DefaultBranch(branch.clone()).branch_target(),
    );
    assert_eq!(reference.as_deref(), Some("refs/remotes/origin/feature/x"));
    assert_eq!(RemoteBranchName::parse(&reference.unwrap()), Some(branch));
    assert_eq!(RemoteBranchName::parse("/main"), None);
    assert_eq!(RemoteBranchName::parse("refs/remotes/"), None);
}

#[test]
fn test_worktree_create_targets() {
    let origin_main = RemoteBranchName {
        remote_name: "origin".to_string(),
        branch_name: "main".to_string(),
    };

    assert_eq!(
        worktree_create_targets(true, Some(origin_main.clone()), Some("feature")),
        vec![WorktreeCreateTarget::CurrentBranch]
    );
    assert_eq!(
        worktree_create_targets(false, Some(origin_main.clone()), Some("feature")),
        vec![
            WorktreeCreateTarget::DefaultBranch(origin_main.clone()),
            WorktreeCreateTarget::CurrentBranch,
        ]
    );
    assert_eq!(
        worktree_create_targets(false, Some(origin_main.clone()), Some("main")),
        vec![WorktreeCreateTarget::DefaultBranch(origin_main)]
    );
    assert_eq!(
        worktree_create_targets(false, None, Some("feature")),
        vec![WorktreeCreateTarget::CurrentBranch]
    );
}

#[test]
fn test_worktree_create_target_branch_label() {
    let origin_main = RemoteBranchName {
        remote_name: "origin".to_string(),
        branch_name: "main".to_string(),
    };
    assert_eq!(
        WorktreeCreateTarget::DefaultBranch(origin_main).branch_label(false, Some("feature")),
        "origin/main"
    );
    assert_eq!(
        WorktreeCreateTarget::CurrentBranch.branch_label(false, Some("feature")),
        "feature"
    );
    assert_eq!(WorktreeCreateTarget::CurrentBranch.branch_label(false, None), "HEAD");
    assert_eq!(
        WorktreeCreateTarget::CurrentBranch.branch_label(true, Some("feature")),
        "current branches"
    );
}

#[test]
fn targets_are_resolved_and_fetched() {
    let existing = NewWorktreeBranchTarget::ExistingBranch { name: "topic".to_string() };
    let remote = NewWorktreeBranchTarget::RemoteBranch {
        remote_name: "origin".to_string(),
        branch_name: "main".to_string(),
    };
    assert_eq!(resolve_worktree_branch_target(&NewWorktreeBranchTarget::CurrentBranch), None);
    assert_eq!(resolve_worktree_branch_target(&existing).as_deref(), Some("topic"));
    assert_eq!(remote_branch_to_fetch(&existing), None);
    assert_eq!(remote_branch_to_fetch(&remote), Some(("origin", "main")));
    assert!(RemoteBranchFetchMode::Fetch.should_fetch());
    assert!(!RemoteBranchFetchMode::UseLocal.should_fetch());
    let error = WorktreeFetchError {
        remote_name: "origin".to_string(),
        branch_name: "main".to_string(),
        source: "no network".to_string(),
        source_chain: "no network: timed out".to_string(),
    };
    assert_eq!(
        error.message(),
        "git fetch origin failed while creating worktree from origin/main: no network"
    );
    assert_eq!(error.output(), "git fetch origin failed:\nno network: timed out");
    let notice = error.notice();
    assert_eq!(notice.label, "git fetch failed for origin/main");
    assert_eq!(notice.use_local_label, "Use local origin/main");
    assert_eq!(notice.operation, "fetch origin");
}

#[test]
fn worktrees_belong_to_the_deepest_repository() {
    let repositories = vec![
        RepositoryRoot { id: 1, work_directory: path("/code") },
        RepositoryRoot { id: 2, work_directory: path("/code/inner") },
        RepositoryRoot { id: 4, work_directory: path("/twin") },
        RepositoryRoot { id: 3, work_directory: path("/twin/") },
    ];
    let worktrees = vec![
        path("/code/inner/src"),
        path("/plain"),
        path("/code"),
        path("/code/inner"),
        path("/twin"),
    ];
    let (owners, plain) = classify_worktrees(&repositories, &worktrees);
    assert_eq!(owners, vec![2, 1, 4]);
    assert_eq!(texts(&plain), vec!["/plain"]);
}

#[test]
fn scan_roots_are_outermost() {
    let roots = |contents: &str| worktree_include_scan_roots(contents).unwrap();
    assert_eq!(roots("a/b/c\na/b\n# a/x\n!a/y\nz/*.txt\n"), vec!["z", "a/b"]);
    assert_eq!(roots("a/b\n*.log\n"), vec![""]);
    assert_eq!(roots("/\n\n  \n"), Vec::<String>::new());
    assert_eq!(roots("\\#dir/file"), vec!["dir/file"]);
    assert_eq!(roots("./a/x\n"), vec!["./a/x"]);
    assert_eq!(roots("/a//b/[x]/c"), vec!["a/b"]);
    assert_eq!(
        worktree_include_scan_roots("ok/x\na/../b").unwrap_err(),
        ".worktreeinclude patterns cannot leave the worktree root"
    );
}

#[test]
fn patterns_select_files() {
    let contents = "*.env\nbuild/\n!keep.env\n# note\n/top\n";
    let matcher =
        IncludeMatcher::build_worktree_include_matcher("/w", "/w/.worktreeinclude", contents)
            .ok()
            .unwrap();
    assert!(matcher.selects("/w/a/.env", false));
    assert!(!matcher.selects("/w/keep.env", false));
    assert!(matcher.selects("/w/build", true));
    assert!(!matcher.selects("/w/build", false));
    assert!(matcher.selects("/w/build/x/y", false));
    assert!(matcher.selects("/w/top", false));
    assert!(!matcher.selects("/w/a/top", false));
    assert!(!matcher.selects("/w", true));
    let empty = IncludeMatcher::build_worktree_include_matcher("/w", "/w/f", "# only\n\n");
    assert!(!empty.ok().unwrap().selects("/w/x", false));
    let refused = IncludeMatcher::build_worktree_include_matcher("/w", "/w/f", "a{b\n");
    assert!(refused.is_err());
}

#[derive(Clone, Debug, PartialEq, Eq)]
enum Node {
    Directory,
    File(String),
    Link(String),
    Fifo,
}

fn normal(text: &str) -> String {
    let components: std::path::PathBuf = std::path::Path::new(text).components().collect();
    components.to_str().unwrap().to_string()
}

fn tree(entries: &[(&str, Node)]) -> BTreeMap<String, Node> {
    let mut tree = BTreeMap::new();
    for (text, node) in entries {
        for directory in std::path::Path::new(text).ancestors().skip(1) {
            tree.entry(directory.to_str().unwrap().to_string()).or_insert(Node::Directory);
        }
        tree.insert(text.to_string(), node.clone());
    }
    tree
}

fn perform(tree: &mut BTreeMap<String, Node>, action: &CopyAction) -> CopyEvent {
    match action {
        CopyAction::IsFile(text) => {
            CopyEvent::IsFile(matches!(tree.get(&normal(text)), Some(Node::File(_))))
        }
        CopyAction::Load(text) => match tree.get(&normal(text)) {
            Some(Node::File(contents)) => CopyEvent::Contents(contents.clone()),
            _ => CopyEvent::Failed("no file".to_string()),
        },
        CopyAction::ReadMetadata(text) => {
            CopyEvent::Metadata(tree.get(&normal(text)).map(|node| FileMetadata {
                is_dir: *node == Node::Directory,
                is_symlink: matches!(node, Node::Link(_)),
                is_fifo: *node == Node::Fifo,
            }))
        }
        CopyAction::ReadLink(text) => match tree.get(&normal(text)) {
            Some(Node::Link(target)) => CopyEvent::LinkTarget(target.clone()),
            _ => CopyEvent::Failed("no link".to_string()),
        },
        CopyAction::CreateDirectory(text) => {
            assert!(tree.insert(normal(text), Node::Directory).is_none());
            CopyEvent::Done
        }
        CopyAction::CreateSymlink { path, target } => {
            assert!(tree.insert(normal(path), Node::Link(target.clone())).is_none());
            CopyEvent::Done
        }
        CopyAction::CopyFile { from, to } => {
            let node = tree.get(&normal(from)).unwrap().clone();
            assert!(tree.insert(normal(to), node).is_none());
            CopyEvent::Done
        }
        CopyAction::ReadDirectory(text) => {
            let directory = std::path::Path::new(text);
            CopyEvent::Entries(
                tree.keys()
                    .filter(|key| std::path::Path::new(key).parent() == Some(directory))
                    .map(|key| path(key).file_name().unwrap())
                    .collect(),
            )
        }
    }
}

fn run_copy(
    tree: &mut BTreeMap<String, Node>,
    pairs: &[(&str, &str)],
) -> Result<(), String> {
    let remapping =
        pairs.iter().map(|(source, destination)| (path(source), path(destination))).collect();
    let mut work = IncludeCopies::copy_worktree_included_files(remapping);
    while let Some(action) = work.action() {
        let event = perform(tree, &action);
        work.advance(event);
    }
    work.outcome().unwrap()
}

fn file(contents: &str) -> Node {
    Node::File(contents.to_string())
}

#[test]
fn test_copy_worktree_included_files_without_overwriting_checkout() {
    let mut fs = tree(&[
        ("/root/source/.git/private", file("do not copy")),
        (
            "/root/source/.worktreeinclude",
            file(".env.local\nconfig/local/**\n!config/local/skip.txt\nlinks/tool\n.git/**\n"),
        ),
        ("/root/source/.env.local", file("source secret")),
        ("/root/source/config/local/settings.json", file("copied settings")),
        ("/root/source/config/local/skip.txt", file("excluded")),
        ("/root/source/links", Node::Directory),
        ("/root/destination/.git", Node::Directory),
        ("/root/destination/.env.local", file("checkout wins")),
        (
            "/root/source/links/tool",
            Node::Link("../config/local/settings.json".to_string()),
        ),
    ]);

    run_copy(&mut fs, &[("/root/source", "/root/destination")])
        .expect("included files should copy");

    assert_eq!(fs.get("/root/destination/.env.local"), Some(&file("checkout wins")));
    assert_eq!(
        fs.get("/root/destination/config/local/settings.json"),
        Some(&file("copied settings"))
    );
    assert_eq!(fs.get("/root/destination/config/local/skip.txt"), None);
    assert_eq!(fs.get("/root/destination/.git/private"), None);
    assert_eq!(
        fs.get("/root/destination/links/tool"),
        Some(&Node::Link("../config/local/settings.json".to_string()))
    );
    assert!(worktree_include_scan_roots("../outside").is_err());
    assert!(worktree_include_scan_roots("..").is_err());
    assert_eq!(
        worktree_include_scan_roots("config/local/file\\ ")
            .expect("escaped patterns should be valid"),
        vec!["".to_string()]
    );
}

#[test]
fn copying_stays_out_of_the_new_worktree() {
    let mut fs = tree(&[
        ("/w/.worktreeinclude", file("*.txt\n./named/only\n")),
        ("/w/a.txt", file("a")),
        ("/w/new/b.txt", file("b")),
        ("/w/named/only", file("c")),
    ]);
    run_copy(&mut fs, &[("/w", "/w/new")]).unwrap();
    assert_eq!(fs.get("/w/new/a.txt"), Some(&file("a")));
    assert_eq!(fs.get("/w/new/new/b.txt"), None);

    let mut fs = tree(&[
        ("/w/.worktreeinclude", file("./named/only\n")),
        ("/w/named/only", file("c")),
        ("/v", Node::Directory),
    ]);
    run_copy(&mut fs, &[("/w", "/v")]).unwrap();
    assert_eq!(fs.get("/v/named/only"), Some(&file("c")));
}

#[test]
fn copying_reports_what_fails() {
    let mut fs = tree(&[
        ("/w/.worktreeinclude", file("pipe\n")),
        ("/w/pipe", Node::Fifo),
        ("/v", Node::Directory),
    ]);
    assert_eq!(
        run_copy(&mut fs, &[("/w", "/v")]),
        Err("Cannot copy FIFO /w/pipe selected by /w/.worktreeinclude".to_string())
    );
    let mut fs = tree(&[
        ("/w/.worktreeinclude", file("dir/x\n")),
        ("/w/dir/x", file("x")),
        ("/v/dir", file("in the way")),
    ]);
    assert_eq!(
        run_copy(&mut fs, &[("/w", "/v")]),
        Err("Cannot create worktree setup directory because /v/dir is not a directory".to_string())
    );
    let mut fs = tree(&[("/w/.worktreeinclude", file("../x\n")), ("/v", Node::Directory)]);
    assert_eq!(
        run_copy(&mut fs, &[("/none", "/v"), ("/w", "/v")]),
        Err(".worktreeinclude patterns cannot leave the worktree root".to_string())
    );

    let fails_at = |wanted: &str| {
        let mut fs = tree(&[
            ("/w/.worktreeinclude", file("d/f\nd/l\ne/\n")),
            ("/w/d/f", file("f")),
            ("/w/d/l", Node::Link("f".to_string())),
            ("/w/e", Node::Directory),
            ("/v", Node::Directory),
        ]);
        let mut work =
            IncludeCopies::copy_worktree_included_files(vec![(path("/w"), path("/v"))]);
        while let Some(action) = work.action() {
            let event = if format!("{:?}", action) == wanted {
                CopyEvent::Failed("broken".to_string())
            } else {
                perform(&mut fs, &action)
            };
            work.advance(event);
        }
        work.outcome().unwrap()
    };
    assert_eq!(fails_at(""), Ok(()));
    for (action, message) in [
        ("Load(\"/w/.worktreeinclude\")", "loading /w/.worktreeinclude: broken"),
        ("ReadMetadata(\"/w/d/f\")", "reading metadata for /w/d/f: broken"),
        ("ReadMetadata(\"/v/d/f\")", "broken"),
        ("CreateDirectory(\"/v/d\")", "creating /v/d: broken"),
        ("ReadLink(\"/w/d/l\")", "reading symlink /w/d/l: broken"),
        ("CreateSymlink { path: \"/v/d/l\", target: \"f\" }", "copying symlink /w/d/l: broken"),
        ("CopyFile { from: \"/w/d/f\", to: \"/v/d/f\" }", "copying /w/d/f to /v/d/f: broken"),
        ("CreateDirectory(\"/v/e\")", "creating /v/e: broken"),
        ("ReadDirectory(\"/w/e\")", "reading /w/e: broken"),
    ] {
        assert_eq!(fails_at(action), Err(message.to_string()), "{}", action);
    }
}

#[test]
fn copying_tells_paths_as_they_are_written() {
    let actions = |source: &str, destination: &str, patterns: &str| {
        let mut fs = tree(&[
            ("/w/.worktreeinclude", file(patterns)),
            ("/w/d/e/f", file("f")),
            ("/v/other", file("o")),
        ]);
        let mut work =
            IncludeCopies::copy_worktree_included_files(vec![(path(source), path(destination))]);
        let mut shown = Vec::new();
        while let Some(action) = work.action() {
            shown.push(format!("{:?}", action));
            let event = perform(&mut fs, &action);
            work.advance(event);
        }
        assert_eq!(work.outcome(), Some(Ok(())));
        assert_eq!(fs.get("/v/d/e/f"), Some(&file("f")));
        shown
    };
    let shown = actions("/w/", "/v//", "d/./e/f\n");
    assert_eq!(shown[0], "IsFile(\"/w/.worktreeinclude\")");
    assert_eq!(shown[2], "ReadMetadata(\"/w/d/./e/f\")");
    assert_eq!(shown[3], "ReadMetadata(\"/v//d/./e/f\")");
    assert_eq!(shown[4], "ReadMetadata(\"/v//d\")");
    assert_eq!(shown[5], "CreateDirectory(\"/v//d\")");
    assert_eq!(shown[6], "ReadMetadata(\"/v//d/e\")");
    assert_eq!(shown[8], "CopyFile { from: \"/w/d/./e/f\", to: \"/v//d/./e/f\" }");
    let shown = actions("//w", "/v", "f\n");
    assert_eq!(shown[0], "IsFile(\"//w/.worktreeinclude\")");
    assert_eq!(shown[2], "ReadMetadata(\"//w/\")");
    assert!(shown.contains(&"CopyFile { from: \"//w/d/e/f\", to: \"/v/d/e/f\" }".to_string()));
}

#[test]
fn copying_goes_by_any_root() {
    for (root, first, found) in [
        ("", "", "x"),
        (".", "./", "./x"),
        ("./", "./", "./x"),
        ("./w", "./w/", "./w/x"),
        ("/", "/", "/x"),
        ("//", "//", "//x"),
        ("w//", "w//", "w//x"),
        ("/w/.", "/w/./", "/w/./x"),
    ] {
        let mut work = IncludeCopies::copy_worktree_included_files(vec![(path(root), path("/v"))]);
        let mut shown = Vec::new();
        while let Some(action) = work.action() {
            let event = match &action {
                CopyAction::IsFile(_) => CopyEvent::IsFile(true),
                CopyAction::Load(_) => CopyEvent::Contents("/x\n".to_string()),
                CopyAction::ReadMetadata(text) if text.starts_with("/v") => {
                    CopyEvent::Metadata(None)
                }
                CopyAction::ReadMetadata(text) => CopyEvent::Metadata(Some(FileMetadata {
                    is_dir: !text.ends_with('x'),
                    is_symlink: false,
                    is_fifo: false,
                })),
                CopyAction::ReadDirectory(_) => CopyEvent::Entries(vec!["x".to_string()]),
                _ => CopyEvent::Done,
            };
            shown.push(action);
            work.advance(event);
        }
        assert_eq!(work.outcome(), Some(Ok(())));
        assert_eq!(shown[2], CopyAction::ReadMetadata(first.to_string()), "{root}");
        let copied = CopyAction::CopyFile { from: found.to_string(), to: "/v/x".to_string() };
        assert_eq!(shown.last(), Some(&copied), "{root}");
    }
}

#[test]
fn copying_tells_of_the_root_with_a_slash() {
    let mut work = IncludeCopies::copy_worktree_included_files(vec![(path("w"), path("dest"))]);
    let is_dir = FileMetadata { is_dir: true, is_symlink: false, is_fifo: false };
    for event in [
        CopyEvent::IsFile(true),
        CopyEvent::Contents("**\n".to_string()),
        CopyEvent::Metadata(Some(is_dir)),
        CopyEvent::Metadata(None),
    ] {
        work.advance(event);
    }
    assert_eq!(work.action(), Some(CopyAction::CreateDirectory("dest/".to_string())));
    work.advance(CopyEvent::Failed("broken".to_string()));
    assert_eq!(work.outcome(), Some(Err("creating dest/: broken".to_string())));
}

fn key(worktree: &str) -> WorktreeActivityKey {
    WorktreeActivityKey {
        project_group_key: ProjectGroupKey { identity: "group".to_string() },
        worktree_path: path(worktree),
    }
}

fn update(source_id: u64, worktree: &str, status: WorktreeActivityStatus) -> WorktreeActivityUpdate {
    WorktreeActivityUpdate {
        source_id,
        key: key(worktree),
        agent_label: "Codex".to_string(),
        source_label: "terminal".to_string(),
        status,
        focus_source: source_id + 100,
    }
}

fn at(seconds: i64) -> Timestamp {
    Timestamp { seconds, nanos: 0 }
}

fn shown(store: &WorktreeActivityStore, worktree: &str) -> Vec<u64> {
    let key = key(worktree);
    let listed: Vec<WorktreeActivity> =
        store.activities_for_worktree(&key.project_group_key, &key.worktree_path);
    let first = store.activity_for_worktree(&key.project_group_key, &key.worktree_path);
    assert_eq!(
        first.map(|activity| activity.source_id),
        listed.first().map(|activity| activity.source_id)
    );
    listed.iter().map(|activity| activity.source_id).collect()
}

#[test]
fn activities_are_shown_by_urgency() {
    let mut store = WorktreeActivityStore::new();
    assert!(store.update_activity_at(update(1, "/w", WorktreeActivityStatus::Running), at(5)));
    assert!(store.update_activity_at(update(2, "/w", WorktreeActivityStatus::Attention), at(1)));
    assert!(store.update_activity_at(update(3, "/w/", WorktreeActivityStatus::Running), at(9)));
    assert!(store.update_activity_at(update(4, "/v", WorktreeActivityStatus::Finished), at(2)));
    assert!(store.update_activity_at(update(5, "/w", WorktreeActivityStatus::Finished), at(2)));
    assert_eq!(shown(&store, "/w"), vec![2, 5, 3, 1]);
    assert_eq!(shown(&store, "/v"), vec![4]);
    assert_eq!(shown(&store, "/none"), Vec::<u64>::new());
    assert_eq!(activity_priority(WorktreeActivityStatus::Working), 1);
}

#[test]
fn activities_follow_their_sources() {
    let mut store = WorktreeActivityStore::new();
    let group = key("/w").project_group_key;
    assert!(store.update_activity(update(1, "/w", WorktreeActivityStatus::Working)));
    assert!(!store.update_activity(update(1, "/w", WorktreeActivityStatus::Working)));
    let activity = store.activity_for_worktree(&group, &path("/w")).unwrap();
    assert_eq!(activity.tooltip(), "Codex working in terminal");
    assert_eq!(activity.focus_source, 101);
    assert!(store.mark_running(1));
    assert!(!store.mark_running(1));
    let activity = store.activity_for_worktree(&group, &path("/w")).unwrap();
    assert_eq!(activity.tooltip(), "Codex running in terminal");
    assert!(store.mark_finished_at(1, at(7)));
    assert!(!store.mark_finished_at(1, at(8)));
    let activity = store.activity_for_worktree(&group, &path("/w")).unwrap();
    assert_eq!((activity.tooltip().as_str(), activity.updated_at.seconds), ("Codex finished in terminal", 7));
    assert!(store.mark_attention(1));
    let activity = store.activity_for_worktree(&group, &path("/w")).unwrap();
    assert_eq!(activity.tooltip(), "Codex needs attention");
    assert!(store.acknowledge_source_at(1, true, at(9)));
    assert!(!store.acknowledge_source_at(1, true, at(10)));
    let activity = store.activity_for_worktree(&group, &path("/w")).unwrap();
    assert_eq!(activity.status, WorktreeActivityStatus::Running);
    assert!(!activity.acknowledged);
    assert_eq!(activity.updated_at.seconds, 9);
    assert!(store.acknowledge_source(1, false));
    assert!(!store.remove_source(1));
    assert!(!store.mark_finished(1) && !store.mark_attention_at(1, at(1)));
    assert!(store.activity_for_worktree(&group, &path("/w")).is_none());
}
