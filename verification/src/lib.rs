//! Sessions and worktrees: the registry of terminal threads, the tmux sessions that back them,
//! and the planning of Git worktrees that they run in.
pub mod text;
pub mod path;
pub mod terminal_id;
pub mod timestamp;
pub mod title;
pub mod terminal_thread;
pub mod status_store;
pub mod metadata_store;
pub mod row;
pub mod command;
pub mod tmux_command;
pub mod tmux_session;
pub mod snapshot;
pub mod poll;
pub mod activity;
pub mod branch;
pub mod classify;
pub mod scan_roots;
pub mod include_matcher;
pub mod creation;
pub mod include_copy;
pub mod open_workspace;
pub mod create_worktree;
pub mod worktree_service;
