use std::collections::HashSet;

use worktree_sessions::command::{CommandOutput, CommandReply};
use worktree_sessions::metadata_store::TerminalThreadMetadataStore;
use worktree_sessions::poll::{apply_snapshots, poll_targets, PollErrors};
use worktree_sessions::snapshot::{
    codex_status_from_screen, list_sessions, parse_snapshots, should_capture_codex_screen,
    status_for_snapshot, PaneActivities, PaneActivityState, SessionListing, SessionSnapshot,
    TitleStatus,
};
use worktree_sessions::status_store::{AgentThreadStatus, TerminalThreadStatusStore};
use worktree_sessions::terminal_id::{
    terminal_thread_tmux_session_name, TerminalId, TERMINAL_THREAD_TMUX_SERVER_NAME,
};
use worktree_sessions::terminal_thread::{
    TerminalThreadKind, TerminalThreadMetadata, TerminalThreadProvider,
    TerminalThreadRegistryMetadata, WorktreePaths,
};
use worktree_sessions::timestamp::Timestamp;
use worktree_sessions::tmux_command::{
    attach_shell, capture_pane, kill_session, list_panes_args, recovery_session_options,
    server_option_contains, TmuxSessionRecoveryMetadata,
};
use worktree_sessions::tmux_session::EnsureSession;

fn new_id() -> TerminalId {
    TerminalId { value: uuid::Uuid::new_v4().as_u128() }
}

fn idle_title() -> TitleStatus {
    TitleStatus { codex: AgentThreadStatus::Completed, process: None }
}

fn output(success: bool, stdout: &str, stderr: &str) -> CommandOutput {
    CommandOutput {
        success,
        status: "exit status: 1".to_string(),
        stdout: stdout.as_bytes().to_vec(),
        stderr: stderr.as_bytes().to_vec(),
    }
}

fn ran(success: bool, stdout: &str, stderr: &str) -> CommandReply {
    CommandReply::Ran(output(success, stdout, stderr))
}

#[test]
fn attach_forces_utf8_for_gui_launches_without_a_locale() {
    let terminal_id = new_id();
    let args = attach_shell(terminal_id, None).args;

    assert_eq!(
        args,
        [
            "-u",
            "-L",
            TERMINAL_THREAD_TMUX_SERVER_NAME,
            "attach-session",
            "-t",
            terminal_thread_tmux_session_name(terminal_id).as_str(),
        ]
    );
    assert_eq!(attach_shell(terminal_id, None).program, "tmux");
    assert_eq!(attach_shell(terminal_id, Some("/usr/bin/tmux")).program, "/usr/bin/tmux");
    assert_eq!(attach_shell(terminal_id, None).title_override.as_deref(), Some("Codex"));
}

#[test]
fn recovery_options_include_worktree_and_agent_identity() {
    let terminal_id = new_id();
    let options = recovery_session_options(
        terminal_id,
        &TmuxSessionRecoveryMetadata {
            worktree_path: Some("/project-feature".to_string()),
            kind: TerminalThreadKind::Agent,
            provider: Some(TerminalThreadProvider::Codex),
        },
    );

    assert_eq!(
        options,
        vec![
            ("@zed-managed", "1".to_string()),
            ("@zed-terminal-id", terminal_id.to_key_string()),
            ("@zed-worktree-path", "/project-feature".to_string()),
            ("@zed-terminal-kind", "agent".to_string()),
            ("@zed-provider", "codex".to_string()),
        ]
    );
}

#[test]
fn server_option_list_values_are_added_idempotently() {
    assert!(server_option_contains("xterm*:RGB,xterm*:extkeys", "xterm*:extkeys"));
    assert!(server_option_contains("xterm*:RGB, xterm*:extkeys\n", "xterm*:extkeys"));
    assert!(server_option_contains("xterm*:RGB\nxterm*:extkeys\n", "xterm*:extkeys"));
    assert!(!server_option_contains("xterm*:RGB", "xterm*:extkeys"));
    assert!(server_option_contains("xterm*:RGB,xterm*:extkeys", "xterm*:RGB"));
}

#[test]
fn parses_managed_tmux_panes_and_skips_unmanaged_panes() {
    let terminal_id = new_id();
    let output = format!(
        "\t%1\tvim\tuser pane\t/tmp\t0\t1\nnot-a-uuid\t%2\tfish\tstale\t/tmp\t0\t2\n{}\t%3\tcodex\t[ ! ] Action Required | zed\t/project\t0\t3\n",
        terminal_id.to_key_string()
    );

    let snapshots = parse_snapshots(&output);
    assert_eq!(snapshots.len(), 1);
    assert_eq!(
        format!("{:?}", snapshots[0]),
        format!(
            "{:?}",
            SessionSnapshot {
                terminal_id,
                pane_id: "%3".to_string(),
                command: "codex".to_string(),
                title: "[ ! ] Action Required | zed".to_string(),
                working_directory: Some("/project".to_string()),
                dead: false,
                activity: Some(3),
                screen: None,
            }
        )
    );
}

#[test]
fn incomplete_lines_tell_of_no_pane() {
    let key = new_id().to_key_string();
    assert!(parse_snapshots(&format!("{key}\t%1\tfish\tt\t/d\t0")).is_empty());
    assert!(parse_snapshots(&format!("{key}\t\tfish\tt\t/d\t0\t1")).is_empty());
    let odd = parse_snapshots(&format!("{key}\t%1\tfish\tt\t\t1\t1\tmore\r\n{key}\t%2\t\t\t\t\t+7"));
    assert_eq!(odd.len(), 2);
    assert_eq!(odd[0].activity, None);
    assert!(odd[0].dead);
    assert_eq!(odd[0].working_directory, None);
    assert_eq!(odd[1].activity, Some(7));
    assert!(!odd[1].dead);
}

#[test]
fn live_non_agent_pane_is_not_an_error() {
    let terminal_id = new_id();
    let snapshot = SessionSnapshot {
        terminal_id,
        pane_id: "%1".to_string(),
        command: "fish".to_string(),
        title: "project".to_string(),
        working_directory: Some("/project".to_string()),
        dead: false,
        activity: Some(1),
        screen: None,
    };

    assert_eq!(
        status_for_snapshot(Some(&snapshot), idle_title(), false, AgentThreadStatus::Completed),
        AgentThreadStatus::Completed
    );
}

#[test]
fn missing_pane_is_idle_and_dead_pane_is_an_error() {
    assert_eq!(
        status_for_snapshot(None, idle_title(), true, AgentThreadStatus::Running),
        AgentThreadStatus::Completed
    );

    let mut snapshot = SessionSnapshot {
        terminal_id: new_id(),
        pane_id: "%1".to_string(),
        command: "codex-aarch64-a".to_string(),
        title: "project".to_string(),
        working_directory: Some("/project".to_string()),
        dead: true,
        activity: Some(1),
        screen: None,
    };
    assert_eq!(
        status_for_snapshot(Some(&snapshot), idle_title(), true, AgentThreadStatus::Completed),
        AgentThreadStatus::Error
    );

    snapshot.dead = false;
    assert_eq!(
        status_for_snapshot(Some(&snapshot), idle_title(), true, AgentThreadStatus::Completed),
        AgentThreadStatus::Completed
    );
}

#[test]
fn detects_observed_codex_titles_when_tmux_reports_a_shell() {
    let terminal_id = new_id();
    let snapshot = |title: &str| SessionSnapshot {
        terminal_id,
        pane_id: "%1".to_string(),
        command: "fish".to_string(),
        title: title.to_string(),
        working_directory: Some("/project".to_string()),
        dead: false,
        activity: Some(1),
        screen: None,
    };
    let shows = |codex| TitleStatus { codex, process: None };

    assert_eq!(
        status_for_snapshot(
            Some(&snapshot("⠸ zed")),
            shows(AgentThreadStatus::Running),
            true,
            AgentThreadStatus::Completed
        ),
        AgentThreadStatus::Running
    );
    assert_eq!(
        status_for_snapshot(
            Some(&snapshot("[ ! ] Action Required | zed")),
            shows(AgentThreadStatus::WaitingForConfirmation),
            true,
            AgentThreadStatus::Completed
        ),
        AgentThreadStatus::WaitingForConfirmation
    );
    assert_eq!(
        status_for_snapshot(
            Some(&snapshot("zed")),
            shows(AgentThreadStatus::Completed),
            true,
            AgentThreadStatus::Completed
        ),
        AgentThreadStatus::Completed
    );
}

#[test]
fn animations_off_uses_activity_gated_screen_status() {
    let terminal_id = new_id();
    let mut snapshot = SessionSnapshot {
        terminal_id,
        pane_id: "%1".to_string(),
        command: "codex-aarch64-a".to_string(),
        title: "zed".to_string(),
        working_directory: Some("/project".to_string()),
        dead: false,
        activity: Some(10),
        screen: None,
    };
    let codex_terminal_ids = HashSet::from([terminal_id.value]);
    let no_running_terminal_ids = HashSet::new();
    let idle = AgentThreadStatus::Completed;

    assert!(should_capture_codex_screen(
        &snapshot,
        idle,
        &codex_terminal_ids,
        &no_running_terminal_ids,
        None
    ));
    assert!(should_capture_codex_screen(
        &snapshot,
        idle,
        &codex_terminal_ids,
        &no_running_terminal_ids,
        Some(PaneActivityState { activity: Some(10), needs_follow_up_capture: true })
    ));
    assert!(!should_capture_codex_screen(
        &snapshot,
        idle,
        &codex_terminal_ids,
        &no_running_terminal_ids,
        Some(PaneActivityState { activity: Some(10), needs_follow_up_capture: false })
    ));
    assert!(should_capture_codex_screen(
        &snapshot,
        idle,
        &codex_terminal_ids,
        &HashSet::from([terminal_id.value]),
        Some(PaneActivityState { activity: Some(10), needs_follow_up_capture: false })
    ));

    snapshot.screen = Some(
        "› Think for at least 8 seconds without tools.\n\
         \n\
         Working (0s • esc to interrupt)\n"
            .to_string(),
    );
    assert_eq!(
        status_for_snapshot(Some(&snapshot), idle_title(), true, AgentThreadStatus::Completed),
        AgentThreadStatus::Running
    );

    snapshot.screen = None;
    assert_eq!(
        status_for_snapshot(Some(&snapshot), idle_title(), true, AgentThreadStatus::Running),
        AgentThreadStatus::Running,
        "an unchanged pane must retain its previous status without another capture"
    );

    snapshot.activity = Some(16);
    snapshot.screen = Some(
        "• NO_ANIMATION_DONE\n\
         \n\
         › Use /skills to list available skills\n\
         \n\
           gpt-5.6-sol max · ~/project\n"
            .to_string(),
    );
    assert_eq!(
        status_for_snapshot(Some(&snapshot), idle_title(), true, AgentThreadStatus::Running),
        AgentThreadStatus::Completed
    );
}

#[test]
fn animations_off_detects_approval_from_screen() {
    let snapshot = SessionSnapshot {
        terminal_id: new_id(),
        pane_id: "%1".to_string(),
        command: "codex-aarch64-a".to_string(),
        title: "zed".to_string(),
        working_directory: Some("/project".to_string()),
        dead: false,
        activity: Some(10),
        screen: Some(
            "Would you like to run the following command?\n\
             \n\
             › 1. Yes, proceed (y)\n\
               3. No, and tell Codex what to do differently (esc)\n"
                .to_string(),
        ),
    };

    assert_eq!(
        status_for_snapshot(Some(&snapshot), idle_title(), true, AgentThreadStatus::Running),
        AgentThreadStatus::WaitingForConfirmation
    );
}

#[test]
fn shell_after_codex_exit_is_completed() {
    let snapshot = SessionSnapshot {
        terminal_id: new_id(),
        pane_id: "%1".to_string(),
        command: "fish".to_string(),
        title: "~/project".to_string(),
        working_directory: Some("/project".to_string()),
        dead: false,
        activity: Some(1),
        screen: Some("z@host ~/project>\n".to_string()),
    };

    assert_eq!(
        status_for_snapshot(Some(&snapshot), idle_title(), true, AgentThreadStatus::Completed),
        AgentThreadStatus::Completed
    );
}

#[test]
fn screens_show_a_status() {
    assert_eq!(codex_status_from_screen(""), None);
    assert_eq!(
        codex_status_from_screen("enter to submit all"),
        Some(AgentThreadStatus::WaitingForConfirmation)
    );
    assert_eq!(
        codex_status_from_screen(">_ OpenAI Codex (v1)"),
        Some(AgentThreadStatus::Running)
    );
    assert_eq!(codex_status_from_screen("Starting Codex"), Some(AgentThreadStatus::Running));
    assert_eq!(
        codex_status_from_screen("› a\nb\n\nc\nd\n"),
        Some(AgentThreadStatus::Completed)
    );
    assert_eq!(codex_status_from_screen("› a\nb\n\nc\nd\ne\n"), None);
}

#[test]
fn sessions_are_created_and_configured() {
    let id = new_id();
    let name = terminal_thread_tmux_session_name(id);
    let recovery = TmuxSessionRecoveryMetadata {
        worktree_path: None,
        kind: TerminalThreadKind::Shell,
        provider: None,
    };
    let mut work = EnsureSession::ensure_session(id, Some("/project".to_string()), recovery);
    let mut commands: Vec<Vec<String>> = Vec::new();
    while let Some(command) = work.command() {
        let reply = match command[3].as_str() {
            "has-session" => ran(false, "", "can't find session"),
            "show-options" => ran(true, "xterm*:RGB\n", ""),
            _ => ran(true, "", ""),
        };
        commands.push(command);
        work.reply(reply);
    }
    assert_eq!(work.outcome(), Some(Ok(true)));
    let shown: Vec<String> = commands.iter().map(|command| command[3..].join(" ")).collect();
    assert_eq!(
        shown,
        vec![
            format!("has-session -t {name}"),
            format!("new-session -d -s {name} -c /project"),
            "set-option -s extended-keys always".to_string(),
            "set-option -s extended-keys-format csi-u".to_string(),
            "show-options -sv terminal-features".to_string(),
            "set-option -sa terminal-features ,xterm*:extkeys".to_string(),
            format!("set-option -t {name} @zed-managed 1"),
            format!("set-option -t {name} @zed-terminal-id {}", id.to_key_string()),
            format!("set-option -t {name} @zed-worktree-path "),
            format!("set-option -t {name} @zed-terminal-kind shell"),
            format!("set-option -t {name} @zed-provider "),
            format!("set-option -t {name} mouse on"),
            format!("set-option -t {name} remain-on-exit on"),
            format!("set-option -t {name} status-right %Y-%m-%d  %H:%M "),
        ]
    );
}

fn run_until_finished(
    work: &mut EnsureSession,
    reply: impl Fn(&str) -> CommandReply,
) -> Vec<String> {
    let mut verbs = Vec::new();
    while let Some(command) = work.command() {
        verbs.push(command[3].clone());
        work.reply(reply(&command[3]));
    }
    verbs
}

fn plain_work(id: TerminalId) -> EnsureSession {
    EnsureSession::ensure_session(
        id,
        None,
        TmuxSessionRecoveryMetadata {
            worktree_path: None,
            kind: TerminalThreadKind::Shell,
            provider: None,
        },
    )
}

#[test]
fn sessions_that_cannot_be_had_are_reported() {
    let id = new_id();
    let name = terminal_thread_tmux_session_name(id);

    let mut work = plain_work(id);
    run_until_finished(&mut work, |_| ran(true, "a, xterm*:extkeys", ""));
    assert_eq!(work.outcome(), Some(Ok(false)));

    let mut work = plain_work(id);
    run_until_finished(&mut work, |_| CommandReply::NoProgram("no tmux".to_string()));
    assert_eq!(work.outcome(), Some(Err("no tmux".to_string())));

    let mut work = plain_work(id);
    run_until_finished(&mut work, |_| CommandReply::NotStarted("denied".to_string()));
    assert_eq!(
        work.outcome(),
        Some(Err(
            "failed to run tmux; install tmux and ensure it is available in PATH: denied"
                .to_string()
        ))
    );

    let mut work = plain_work(id);
    let verbs = run_until_finished(&mut work, |_| ran(false, " said \n", " \n"));
    assert_eq!(verbs, vec!["has-session", "new-session", "has-session"]);
    assert_eq!(
        work.outcome(),
        Some(Err(format!("failed to create tmux session {name}: said")))
    );

    let mut work = plain_work(id);
    let verbs = run_until_finished(&mut work, |verb| match verb {
        "has-session" | "set-option" => ran(false, "", ""),
        _ => ran(true, "", ""),
    });
    assert_eq!(verbs, vec!["has-session", "new-session", "set-option", "kill-session"]);
    assert_eq!(
        work.outcome(),
        Some(Err(
            "failed to configure tmux server option extended-keys: tmux exited with exit status: 1"
                .to_string()
        ))
    );

    let mut work = plain_work(id);
    let verbs = run_until_finished(&mut work, |verb| match verb {
        "set-option" => CommandReply::NotStarted("gone".to_string()),
        _ => ran(true, "", ""),
    });
    assert_eq!(verbs, vec!["has-session", "set-option"]);
    assert_eq!(
        work.outcome(),
        Some(Err("failed to configure tmux server option extended-keys: gone".to_string()))
    );
}

#[test]
fn replies_to_other_commands() {
    let id = new_id();
    let name = terminal_thread_tmux_session_name(id);
    assert_eq!(kill_session(id, ran(true, "", "")), Ok(()));
    assert_eq!(kill_session(id, ran(false, "", "no server running on x")), Ok(()));
    assert_eq!(
        kill_session(id, ran(false, "", "bad")),
        Err(format!("failed to close tmux session {name}: bad"))
    );
    assert_eq!(capture_pane("%1", ran(true, "shown", "")), Ok("shown".to_string()));
    assert_eq!(
        capture_pane("%1", ran(false, "", "bad")),
        Err("failed to capture tmux pane %1: bad".to_string())
    );
    let broken = CommandReply::Ran(CommandOutput {
        success: true,
        status: String::new(),
        stdout: vec![b'a', 0xff, b'b'],
        stderr: Vec::new(),
    });
    assert_eq!(capture_pane("%1", broken), Ok("a\u{fffd}b".to_string()));
    assert_eq!(list_panes_args()[3..7].join(" "), "list-panes -a -f #{&&:#{window_active},#{pane_active}}");
}

#[test]
fn screens_are_asked_for_once_more_after_activity() {
    let codex = new_id();
    let shell = new_id();
    let listing = format!(
        "{}\t%1\tfish\tt\t/d\t0\t1\n{}\t%2\tfish\tzed\t/d\t0\t5\n",
        shell.to_key_string(),
        codex.to_key_string()
    );
    let codex_ids = HashSet::from([codex.value]);
    let running_ids = HashSet::new();
    let titles = vec![AgentThreadStatus::Completed, AgentThreadStatus::Completed];
    let mut activities = PaneActivities::new();
    let look = |activities: &mut PaneActivities, screen: Option<&str>| {
        let mut work = SessionListing::new(parse_snapshots(&listing), activities);
        let asked = work.next_capture(&titles, &codex_ids, &running_ids, activities);
        if asked.is_some() {
            work.captured(screen.map(|text| text.to_string()), activities);
            assert_eq!(work.next_capture(&titles, &codex_ids, &running_ids, activities), None);
        }
        (asked, work.into_snapshots())
    };
    let (asked, snapshots) = look(&mut activities, None);
    assert_eq!(asked.as_deref(), Some("%2"));
    assert_eq!(snapshots[1].screen, None);
    assert_eq!(activities.get(codex), None);
    let (asked, snapshots) = look(&mut activities, Some("shown"));
    assert_eq!(asked.as_deref(), Some("%2"));
    assert_eq!(snapshots[1].screen.as_deref(), Some("shown"));
    assert_eq!(
        activities.get(codex),
        Some(PaneActivityState { activity: Some(5), needs_follow_up_capture: true })
    );
    let (asked, _) = look(&mut activities, Some("again"));
    assert_eq!(asked.as_deref(), Some("%2"));
    let (asked, _) = look(&mut activities, Some("never"));
    assert_eq!(asked, None);
    assert_eq!(
        activities.get(shell),
        Some(PaneActivityState { activity: Some(1), needs_follow_up_capture: false })
    );
    activities.retain(&Vec::new());
    assert_eq!(activities.get(shell), None);
}

fn record(title: &str, command: Option<&str>) -> TerminalThreadMetadata {
    let terminal_id = new_id();
    TerminalThreadMetadata {
        terminal_id,
        title: title.to_string(),
        custom_title: None,
        created_at: Timestamp { seconds: 0, nanos: 0 },
        worktree_paths: WorktreePaths::default(),
        remote_connection: None,
        working_directory: Some("/d/".to_string()),
        initial_command: None,
        registry: TerminalThreadRegistryMetadata::for_launch(terminal_id, command, None),
    }
}

#[test]
fn a_look_brings_the_stores_up_to_date() {
    let mut records = TerminalThreadMetadataStore::new();
    let mut statuses = TerminalThreadStatusStore::new();
    assert!(poll_targets(&records, &statuses).is_none());
    let codex = record("zed", Some("codex"));
    let shell = record("old", None);
    let gone = record("gone", None);
    let (codex_id, shell_id, gone_id) =
        (codex.terminal_id, shell.terminal_id, gone.terminal_id);
    records.save(codex);
    records.save(shell);
    records.save(gone);
    statuses.set_status(gone_id, AgentThreadStatus::Running);
    statuses.set_status(codex_id, AgentThreadStatus::Running);
    let (codex_ids, running_ids) = poll_targets(&records, &statuses).unwrap();
    assert_eq!(codex_ids, HashSet::from([codex_id.value]));
    assert_eq!(running_ids, HashSet::from([codex_id.value]));

    let snapshots = parse_snapshots(&format!(
        "{}\t%1\tcodex\t⠋ zed\t/d\t0\t1\n{}\t%2\tfish\tstale\t/d\t1\t1\n{}\t%3\tfish\tnew\t/d\t0\t1\n",
        codex_id.to_key_string(),
        shell_id.to_key_string(),
        shell_id.to_key_string()
    ));
    let titles = vec![
        TitleStatus { codex: AgentThreadStatus::Running, process: None },
        idle_title(),
        TitleStatus {
            codex: AgentThreadStatus::Completed,
            process: Some(AgentThreadStatus::WaitingForConfirmation),
        },
    ];
    let effects = apply_snapshots(&snapshots, &titles, &mut records, &mut statuses);
    assert_eq!(statuses.status(codex_id), AgentThreadStatus::Running);
    assert_eq!(statuses.status(shell_id), AgentThreadStatus::WaitingForConfirmation);
    assert_eq!(statuses.status(gone_id), AgentThreadStatus::Completed);
    assert_eq!(effects.changes.len(), 2);
    assert!(!effects.start_animation);
    assert_eq!(effects.operations.len(), 1);
    assert_eq!(effects.operations[0].id(), shell_id);
    assert_eq!(records.entry(shell_id).unwrap().title, "new");
    assert_eq!(records.entry(shell_id).unwrap().working_directory.as_deref(), Some("/d"));
    assert_eq!(records.entry(codex_id).unwrap().working_directory.as_deref(), Some("/d/"));
}

#[test]
fn the_same_failure_is_told_once() {
    let mut errors = PollErrors::new();
    assert!(errors.failed("a".to_string()));
    assert!(!errors.failed("a".to_string()));
    assert!(errors.failed("b".to_string()));
    errors.succeeded();
    assert!(errors.failed("b".to_string()));
}

#[test]
fn an_appended_value_is_listed_from_then_on() {
    for current in ["", "xterm*:RGB", "a, b\n"] {
        let extended = format!("{current},xterm*:extkeys");
        assert!(server_option_contains(&extended, "xterm*:extkeys"));
    }
    assert!(server_option_contains("a, b\n,xterm*:extkeys", "b"));
}

#[test]
fn a_listed_pane_is_read_back() {
    let id = new_id();
    let line = [id.to_key_string().as_str(), "%7", "vim", "notes", "", "1", "42"].join("\t");
    let snapshots = parse_snapshots(&line);
    assert_eq!(snapshots.len(), 1);
    assert_eq!(snapshots[0].terminal_id, id);
    assert_eq!(snapshots[0].pane_id, "%7");
    assert_eq!(snapshots[0].command, "vim");
    assert_eq!(snapshots[0].title, "notes");
    assert_eq!(snapshots[0].working_directory, None);
    assert!(snapshots[0].dead);
    assert_eq!(snapshots[0].activity, Some(42));
}

#[test]
fn what_is_known_of_panes_stays_where_there_is_no_session() {
    let id = new_id();
    let line = format!("{}\t%1\tfish\tt\t/d\t0\t1\n", id.to_key_string());
    let known = Some(PaneActivityState { activity: Some(1), needs_follow_up_capture: false });
    let none = HashSet::new();
    let mut activities = PaneActivities::new();
    let mut listing = list_sessions(ran(true, &line, ""), &mut activities).ok().unwrap().unwrap();
    assert_eq!(listing.listed().len(), 1);
    let titles = vec![AgentThreadStatus::Completed];
    assert_eq!(listing.next_capture(&titles, &none, &none, &mut activities), None);
    assert_eq!(activities.get(id), known);

    for message in ["no sessions", "no server running on /tmp/x", "error connecting to /tmp/x"] {
        let reply = list_sessions(ran(false, "", message), &mut activities);
        assert!(reply.ok().unwrap().is_none());
        assert_eq!(activities.get(id), known);
    }
    assert_eq!(
        list_sessions(ran(false, "", "bad"), &mut activities).err().unwrap(),
        "failed to query tmux sessions: bad"
    );
    let reply = CommandReply::NotStarted("denied".to_string());
    assert_eq!(
        list_sessions(reply, &mut activities).err().unwrap(),
        "failed to query tmux terminal sessions: denied"
    );
    assert_eq!(activities.get(id), known);

    let listing = list_sessions(ran(true, "", ""), &mut activities).ok().unwrap().unwrap();
    assert!(listing.listed().is_empty());
    assert_eq!(activities.get(id), None);
}
