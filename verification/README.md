# worktree_sessions

Terminal threads and the Git worktrees that they run in.

* The registry of terminal threads: `terminal_thread`, `metadata_store` and `row` keep what a
  terminal runs, whether it is attached, and the columns that a database keeps of it. Once a
  terminal is to be stopped, no later save makes it anything else.
* Their live status: `status_store`, `title`, `snapshot` and `poll` read it from the titles and
  screens of tmux panes.
* Their tmux sessions: `tmux_command`, `tmux_session` and `command` say which commands to run and
  what the replies mean.
* Worktrees: `branch`, `classify`, `creation`, `scan_roots`, `include_matcher`, `include_copy`,
  `create_worktree`, `open_workspace` and `worktree_service` plan the creation of worktrees, the
  copying of the files that `.worktreeinclude` selects, and the opening of the workspace.
  `activity` keeps what goes on in each worktree.

`src/` is verified with Verus. Work that touches the outside is written there as a state machine:
`action` (or `command`) says what to do next, and `advance` (or `reply`) takes what came of it. Its
contract says, for every state and every event, which state follows.

`app/` drives these machines with processes, a database, a file system and windows, through a few
traits. Paths are compared by their components, so that `/a//b/` and `/a/b` are one path, and are
shown as they are written.
