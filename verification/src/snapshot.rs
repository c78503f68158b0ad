//! What tmux tells of the panes of terminal sessions, and the status that it shows.
use std::collections::{HashMap, HashSet};

use vstd::prelude::*;

use crate::command;
use crate::command::{
    command_error, is_missing_session_output, printed_text, CommandReply, OutputContents,
    ReplyContents,
};
use crate::status_store::AgentThreadStatus;
use crate::terminal_id;
use crate::terminal_id::TerminalId;
use crate::terminal_thread;
use crate::terminal_thread::is_codex_command;
use crate::text;
use crate::text::{contains, lines, parse_unsigned, same, split, starts_with, trim, trim_start};

verus! {

broadcast use vstd::std_specs::hash::group_hash_axioms;

/// What tmux tells of the pane of a session, with what the pane shows where that was asked for.
#[derive(Debug)]
pub struct SessionSnapshot {
    pub terminal_id: TerminalId,
    pub pane_id: String,
    pub command: String,
    pub title: String,
    pub working_directory: Option<String>,
    pub dead: bool,
    pub activity: Option<u64>,
    pub screen: Option<String>,
}

/// The contents of a `SessionSnapshot`.
#[verifier::ext_equal]
pub struct SnapshotContents {
    pub terminal_id: TerminalId,
    pub pane_id: Seq<char>,
    pub command: Seq<char>,
    pub title: Seq<char>,
    pub working_directory: Option<Seq<char>>,
    pub dead: bool,
    pub activity: Option<u64>,
    pub screen: Option<Seq<char>>,
}

impl View for SessionSnapshot {
    type V = SnapshotContents;

    open spec fn view(&self) -> SnapshotContents {
        SnapshotContents {
            terminal_id: self.terminal_id,
            pane_id: self.pane_id@,
            command: self.command@,
            title: self.title@,
            working_directory: text::string_option(self.working_directory),
            dead: self.dead,
            activity: self.activity,
            screen: text::string_option(self.screen),
        }
    }
}

/// The contents of a vector of snapshots.
pub open spec fn snapshot_contents(snapshots: Seq<SessionSnapshot>) -> Seq<SnapshotContents> {
    snapshots.map_values(|snapshot: SessionSnapshot| snapshot@)
}

/// The snapshot that a line tells of. Its fields, between tabs, are the terminal, the pane, the
/// command, the title, the working directory, whether the pane is dead, and when the window last
/// showed activity. A line that has fewer, or that names no terminal or no pane, tells of none.
/// What follows a further tab belongs to the last field, which is then no number.
pub open spec fn line_snapshot(line: Seq<char>) -> Option<SnapshotContents> {
    let fields = text::pieces(line, '\t', '\t');
    if fields.len() < 7 || fields[0].len() == 0 || fields[1].len() == 0 {
        None
    } else {
        match terminal_id::key_value(fields[0]) {
            None => None,
            Some(id) => Some(
                SnapshotContents {
                    terminal_id: TerminalId { value: id },
                    pane_id: fields[1],
                    command: fields[2],
                    title: fields[3],
                    working_directory: if fields[4].len() == 0 {
                        None
                    } else {
                        Some(fields[4])
                    },
                    dead: fields[5] == "1"@,
                    activity: if fields.len() == 7 {
                        text::unsigned_value(fields[6])
                    } else {
                        None
                    },
                    screen: None,
                },
            ),
        }
    }
}

/// A line of the fields of a pane, with a tab between each two, tells of that pane.
pub proof fn listed_pane_is_read_back(id: u128, fields: Seq<Seq<char>>)
    requires
        fields.len() == 7,
        fields[0] == terminal_id::key_text(id),
        fields[1].len() > 0,
        forall|i: int, j: int|
            0 <= i < fields.len() && 0 <= j < fields[i].len() ==> #[trigger] fields[i][j] != '\t',
    ensures
        line_snapshot(text::joined(fields, seq!['\t'])) == Some(
            SnapshotContents {
                terminal_id: TerminalId { value: id },
                pane_id: fields[1],
                command: fields[2],
                title: fields[3],
                working_directory: if fields[4].len() == 0 {
                    None
                } else {
                    Some(fields[4])
                },
                dead: fields[5] == "1"@,
                activity: text::unsigned_value(fields[6]),
                screen: None,
            },
        ),
{
    text::lemma_pieces_of_joined(fields, '\t');
    terminal_id::key_text_round_trip(id);
    assert(fields[0].len() > 0) by {
        if fields[0].len() == 0 {
            assert(terminal_id::key_value(fields[0]) is None);
        }
    }
}

/// A line that names no terminal of ours, in the form in which terminals are named, tells of none.
pub proof fn foreign_pane_is_not_adopted(line: Seq<char>)
    requires
        terminal_id::key_value(text::pieces(line, '\t', '\t')[0]) is None,
    ensures
        line_snapshot(line) is None,
{
}

/// A line with fewer than seven fields, or without a pane, tells of none. Of one with more, the last
/// field is not a number, and what comes before it is read as ever.
pub proof fn unusual_lines_are_read(line: Seq<char>)
    ensures
        ({
            let fields = text::pieces(line, '\t', '\t');
            &&& fields.len() < 7 ==> line_snapshot(line) is None
            &&& fields.len() >= 2 && fields[1].len() == 0 ==> line_snapshot(line) is None
            &&& line_snapshot(line) matches Some(snapshot) ==> {
                &&& terminal_id::key_value(fields[0]) == Some(snapshot.terminal_id.value)
                &&& snapshot.pane_id == fields[1] && snapshot.pane_id.len() > 0
                &&& snapshot.command == fields[2]
                &&& snapshot.title == fields[3]
                &&& snapshot.working_directory is None <==> fields[4].len() == 0
                &&& snapshot.working_directory matches Some(directory) ==> directory == fields[4]
                &&& snapshot.dead <==> fields[5] == "1"@
                &&& fields.len() > 7 ==> snapshot.activity is None
                &&& fields.len() == 7 ==> snapshot.activity == text::unsigned_value(fields[6])
                &&& snapshot.screen is None
            }
            &&& line_snapshot(line) is None ==> fields.len() < 7 || fields[1].len() == 0
                || fields[0].len() == 0 || terminal_id::key_value(fields[0]) is None
        }),
{
}

/// The snapshots that lines tell of, in their order.
pub open spec fn line_snapshots(lines: Seq<Seq<char>>) -> Seq<SnapshotContents>
    decreases lines.len(),
{
    if lines.len() == 0 {
        Seq::empty()
    } else {
        match line_snapshot(lines.last()) {
            Some(snapshot) => line_snapshots(lines.drop_last()).push(snapshot),
            None => line_snapshots(lines.drop_last()),
        }
    }
}

/// Every line tells of its own pane, and the panes come in the order of the lines.
pub proof fn lines_are_read_one_by_one(first: Seq<Seq<char>>, line: Seq<char>, last: Seq<Seq<char>>)
    ensures
        line_snapshots(Seq::empty()) == Seq::<SnapshotContents>::empty(),
        line_snapshots(first + seq![line] + last) == line_snapshots(first) + (match line_snapshot(
            line,
        ) {
            Some(snapshot) => seq![snapshot],
            None => Seq::empty(),
        }) + line_snapshots(last),
    decreases last.len(),
{
    let whole = first + seq![line] + last;
    let middle = match line_snapshot(line) {
        Some(snapshot) => seq![snapshot],
        None => Seq::empty(),
    };
    if last.len() == 0 {
        assert(whole.drop_last() =~= first);
        assert(whole.last() == line);
        assert(line_snapshots(whole) =~= line_snapshots(first) + middle + line_snapshots(last));
    } else {
        let rest = last.drop_last();
        lines_are_read_one_by_one(first, line, rest);
        assert(whole.drop_last() =~= first + seq![line] + rest);
        assert(whole.last() == last.last());
        assert(line_snapshots(whole) =~= line_snapshots(first) + middle + line_snapshots(last));
    }
}

fn parse_snapshot(line: &str) -> (result: Option<SessionSnapshot>)
    ensures
        match result {
            Some(snapshot) => line_snapshot(line@) == Some(snapshot@),
            None => line_snapshot(line@) is None,
        },
{
    let fields = split(line, '\t', '\t');
    let ghost all = text::pieces(line@, '\t', '\t');
    assert(text::texts(fields@) == all);
    if fields.len() < 7 {
        return None;
    }
    assert(forall|i: int| 0 <= i < all.len() ==> #[trigger] all[i] == fields@[i]@);
    if fields[0].is_empty() || fields[1].is_empty() {
        return None;
    }
    let terminal_id = match TerminalId::from_key_string(fields[0]) {
        Ok(terminal_id) => terminal_id,
        Err(_) => {
            return None;
        },
    };
    let snapshot = SessionSnapshot {
        terminal_id,
        pane_id: fields[1].to_owned(),
        command: fields[2].to_owned(),
        title: fields[3].to_owned(),
        working_directory: if fields[4].is_empty() {
            None
        } else {
            Some(fields[4].to_owned())
        },
        dead: same(fields[5], "1"),
        activity: if fields.len() == 7 {
            parse_unsigned(fields[6])
        } else {
            None
        },
        screen: None,
    };
    assert(line_snapshot(line@)->0 =~= snapshot@);
    Some(snapshot)
}

/// The snapshots that a listing of panes tells of.
pub fn parse_snapshots(output: &str) -> (result: Vec<SessionSnapshot>)
    ensures
        snapshot_contents(result@) == line_snapshots(text::line_texts(output@)),
{
    let listed = lines(output);
    let ghost all = text::line_texts(output@);
    let mut result: Vec<SessionSnapshot> = Vec::new();
    let mut i: usize = 0;
    assert(all.take(0) =~= Seq::empty());
    assert(snapshot_contents(result@) =~= Seq::empty());
    while i < listed.len()
        invariant
            i <= listed.len(),
            text::texts(listed@) == all,
            snapshot_contents(result@) == line_snapshots(all.take(i as int)),
        decreases listed.len() - i,
    {
        let ghost before = snapshot_contents(result@);
        assert(all[i as int] == listed@[i as int]@);
        assert(all.take(i + 1).drop_last() =~= all.take(i as int));
        assert(all.take(i + 1).last() == all[i as int]);
        if let Some(snapshot) = parse_snapshot(listed[i]) {
            result.push(snapshot);
            assert(snapshot_contents(result@) =~= before.push(snapshot@));
        }
        i = i + 1;
    }
    assert(all.take(i as int) =~= all);
    result
}

/// Whether a screen asks for an approval or an answer.
pub open spec fn screen_asks(screen: Seq<char>) -> bool {
    ||| text::holds_text(screen, "Would you like to run the following command?"@)
    ||| text::holds_text(screen, "Would you like to grant these permissions?"@)
    ||| text::holds_text(screen, "Would you like to make the following edits?"@)
    ||| text::holds_text(screen, "Yes, proceed"@)
    ||| text::holds_text(screen, "No, and tell Codex what to do differently"@)
    ||| text::holds_text(screen, "enter to submit answer"@)
    ||| text::holds_text(screen, "ctrl + j to submit answer"@)
    ||| text::holds_text(screen, "enter to submit all"@)
}

/// Whether one of the last `count` lines that are not blank begins with the mark of an input
/// field.
pub open spec fn has_composer(lines: Seq<Seq<char>>, count: int) -> bool
    decreases lines.len(),
{
    if lines.len() == 0 || count <= 0 {
        false
    } else if text::trimmed(lines.last()).len() == 0 {
        has_composer(lines.drop_last(), count)
    } else {
        text::begins_with(text::trimmed_start(lines.last()), "›"@) || has_composer(
            lines.drop_last(),
            count - 1,
        )
    }
}

/// The status that a screen shows, if it shows any.
pub open spec fn screen_status(screen: Seq<char>) -> Option<AgentThreadStatus> {
    if screen_asks(screen) {
        Some(AgentThreadStatus::WaitingForConfirmation)
    } else if text::holds_text(screen, "to interrupt"@) {
        Some(AgentThreadStatus::Running)
    } else if has_composer(text::line_texts(screen), 4) {
        Some(AgentThreadStatus::Completed)
    } else if text::holds_text(screen, ">_ OpenAI Codex"@) || text::holds_text(
        screen,
        "Starting Codex"@,
    ) {
        Some(AgentThreadStatus::Running)
    } else {
        None
    }
}

/// A screen that holds one of the eight texts by which Codex asks for an approval or an answer
/// waits for the user, whatever else it holds; and no other screen does.
pub proof fn screen_with_a_question_waits(screen: Seq<char>, marker: Seq<char>)
    ensures
        text::holds_text(screen, marker) && seq![
            "Would you like to run the following command?"@,
            "Would you like to grant these permissions?"@,
            "Would you like to make the following edits?"@,
            "Yes, proceed"@,
            "No, and tell Codex what to do differently"@,
            "enter to submit answer"@,
            "ctrl + j to submit answer"@,
            "enter to submit all"@,
        ].contains(marker) ==> screen_status(screen) == Some(
            AgentThreadStatus::WaitingForConfirmation,
        ),
        screen_status(screen) == Some(AgentThreadStatus::WaitingForConfirmation)
            ==> text::holds_text(screen, "Would you like to run the following command?"@)
            || text::holds_text(screen, "Would you like to grant these permissions?"@)
            || text::holds_text(screen, "Would you like to make the following edits?"@)
            || text::holds_text(screen, "Yes, proceed"@) || text::holds_text(
            screen,
            "No, and tell Codex what to do differently"@,
        ) || text::holds_text(screen, "enter to submit answer"@) || text::holds_text(
            screen,
            "ctrl + j to submit answer"@,
        ) || text::holds_text(screen, "enter to submit all"@),
{
    let markers = seq![
        "Would you like to run the following command?"@,
        "Would you like to grant these permissions?"@,
        "Would you like to make the following edits?"@,
        "Yes, proceed"@,
        "No, and tell Codex what to do differently"@,
        "enter to submit answer"@,
        "ctrl + j to submit answer"@,
        "enter to submit all"@,
    ];
    if markers.contains(marker) {
        let i = choose|i: int| 0 <= i < markers.len() && markers[i] == marker;
        assert(i == 0 || i == 1 || i == 2 || i == 3 || i == 4 || i == 5 || i == 6 || i == 7);
    }
}

/// Whether the line at a position of a screen is that of an input field near the end: it begins with
/// the mark of one, and fewer than four lines behind it are not blank.
pub open spec fn is_composer_line(lines: Seq<Seq<char>>, i: int) -> bool {
    &&& 0 <= i < lines.len()
    &&& text::trimmed(lines[i]).len() > 0
    &&& text::begins_with(text::trimmed_start(lines[i]), "›"@)
    &&& lines.skip(i + 1).filter(|line: Seq<char>| text::trimmed(line).len() > 0).len() < 4
}

proof fn lemma_has_composer(lines: Seq<Seq<char>>, count: int)
    ensures
        has_composer(lines, count) <==> exists|i: int|
            0 <= i < lines.len() && text::trimmed(#[trigger] lines[i]).len() > 0
                && text::begins_with(text::trimmed_start(lines[i]), "›"@) && lines.skip(
                i + 1,
            ).filter(|line: Seq<char>| text::trimmed(line).len() > 0).len() < count,
    decreases lines.len(),
{
    reveal(Seq::filter);
    let filled = |line: Seq<char>| text::trimmed(line).len() > 0;
    if lines.len() > 0 && count > 0 {
        let rest = lines.drop_last();
        let last = lines.len() - 1;
        let fewer = if filled(lines.last()) {
            count - 1
        } else {
            count
        };
        lemma_has_composer(rest, fewer);
        assert(lines.skip(last + 1) =~= Seq::empty());
        assert(lines.skip(last + 1).filter(filled).len() == 0);
        assert forall|i: int| 0 <= i < rest.len() implies #[trigger] lines[i] == rest[i] && (
        lines.skip(i + 1).filter(filled).len() < count <==> rest.skip(i + 1).filter(filled).len()
            < fewer) by {
            assert(lines.skip(i + 1).drop_last() =~= rest.skip(i + 1));
            assert(lines.skip(i + 1).last() == lines.last());
        }
        if exists|i: int|
            0 <= i < rest.len() && filled(#[trigger] rest[i]) && text::begins_with(
                text::trimmed_start(rest[i]),
                "›"@,
            ) && rest.skip(i + 1).filter(filled).len() < fewer {
            let i = choose|i: int|
                0 <= i < rest.len() && filled(#[trigger] rest[i]) && text::begins_with(
                    text::trimmed_start(rest[i]),
                    "›"@,
                ) && rest.skip(i + 1).filter(filled).len() < fewer;
            assert(lines[i] == rest[i]);
        }
    }
}

/// A screen without a question is that of a running session where it says how to interrupt it. Else
/// it is that of one that is done where one of its last four lines that are not blank is an input
/// field. Else it is that of one that starts where it says so, and shows nothing otherwise.
pub proof fn screen_without_a_question_is_read(screen: Seq<char>)
    requires
        screen_status(screen) != Some(AgentThreadStatus::WaitingForConfirmation),
    ensures
        ({
            let lines = text::line_texts(screen);
            let interrupts = text::holds_text(screen, "to interrupt"@);
            let composes = exists|i: int| #[trigger] is_composer_line(lines, i);
            let starts = text::holds_text(screen, ">_ OpenAI Codex"@) || text::holds_text(
                screen,
                "Starting Codex"@,
            );
            &&& interrupts ==> screen_status(screen) == Some(AgentThreadStatus::Running)
            &&& !interrupts && composes ==> screen_status(screen) == Some(
                AgentThreadStatus::Completed,
            )
            &&& !interrupts && !composes && starts ==> screen_status(screen) == Some(
                AgentThreadStatus::Running,
            )
            &&& !interrupts && !composes && !starts ==> screen_status(screen) is None
        }),
{
    let lines = text::line_texts(screen);
    lemma_has_composer(lines, 4);
    if has_composer(lines, 4) {
        let i = choose|i: int|
            0 <= i < lines.len() && text::trimmed(#[trigger] lines[i]).len() > 0
                && text::begins_with(text::trimmed_start(lines[i]), "›"@) && lines.skip(
                i + 1,
            ).filter(|line: Seq<char>| text::trimmed(line).len() > 0).len() < 4;
        assert(is_composer_line(lines, i));
    }
    if exists|i: int| #[trigger] is_composer_line(lines, i) {
        let i = choose|i: int| #[trigger] is_composer_line(lines, i);
        assert(text::trimmed(lines[i]).len() > 0);
    }
}

fn has_idle_composer(screen: &str) -> (result: bool)
    ensures
        result == has_composer(text::line_texts(screen@), 4),
{
    let shown = lines(screen);
    let ghost all = text::line_texts(screen@);
    let mut left: usize = shown.len();
    let mut count: usize = 4;
    assert(all.take(left as int) =~= all);
    while left > 0 && count > 0
        invariant
            left <= shown.len(),
            text::texts(shown@) == all,
            all == text::line_texts(screen@),
            has_composer(all, 4) == has_composer(all.take(left as int), count as int),
        decreases left,
    {
        let line = shown[left - 1];
        assert(all[left - 1] == line@);
        assert(all.take(left as int).last() == line@);
        assert(all.take(left as int).drop_last() =~= all.take(left - 1));
        if !trim(line).is_empty() {
            if starts_with(trim_start(line), "›") {
                return true;
            }
            count = count - 1;
        }
        left = left - 1;
    }
    false
}

/// The status that the screen of a Codex session shows, if it shows any.
pub fn codex_status_from_screen(screen: &str) -> (result: Option<AgentThreadStatus>)
    ensures
        result == screen_status(screen@),
{
    if contains(screen, "Would you like to run the following command?") || contains(
        screen,
        "Would you like to grant these permissions?",
    ) || contains(screen, "Would you like to make the following edits?") || contains(
        screen,
        "Yes, proceed",
    ) || contains(screen, "No, and tell Codex what to do differently") || contains(
        screen,
        "enter to submit answer",
    ) || contains(screen, "ctrl + j to submit answer") || contains(screen, "enter to submit all") {
        return Some(AgentThreadStatus::WaitingForConfirmation);
    }
    if contains(screen, "to interrupt") {
        return Some(AgentThreadStatus::Running);
    }
    if has_idle_composer(screen) {
        return Some(AgentThreadStatus::Completed);
    }
    if contains(screen, ">_ OpenAI Codex") || contains(screen, "Starting Codex") {
        Some(AgentThreadStatus::Running)
    } else {
        None
    }
}

/// The status that the title of a pane shows: read as the title of a Codex session, and read
/// together with the command of the pane, where that shows any.
#[derive(Clone, Copy, Debug, PartialEq, Eq, Structural)]
pub struct TitleStatus {
    pub codex: AgentThreadStatus,
    pub process: Option<AgentThreadStatus>,
}

/// The status of a terminal, going by the snapshot of its pane and the status that the title
/// shows. Without a pane nothing runs; a dead pane is an error. A Codex session whose title shows
/// nothing has the status of its screen, and where that was not asked for or shows nothing, the
/// status that it had.
pub open spec fn snapshot_status(
    snapshot: Option<SnapshotContents>,
    title_status: TitleStatus,
    is_codex_session: bool,
    previous_status: AgentThreadStatus,
) -> AgentThreadStatus {
    match snapshot {
        None => AgentThreadStatus::Completed,
        Some(pane) => if pane.dead {
            AgentThreadStatus::Error
        } else if is_codex_session {
            if title_status.codex != AgentThreadStatus::Completed {
                title_status.codex
            } else {
                match pane.screen {
                    Some(screen) => match screen_status(screen) {
                        Some(status) => status,
                        None => previous_status,
                    },
                    None => previous_status,
                }
            }
        } else {
            match title_status.process {
                Some(status) => status,
                None => AgentThreadStatus::Completed,
            }
        },
    }
}

/// Without a pane a terminal is done, and with a dead one it is in error, whatever else is known.
/// What the title of a Codex session shows comes before its screen, and its screen before the status
/// that it had. Of any other session only the title counts.
pub proof fn status_goes_by_the_pane(
    pane: SnapshotContents,
    title_status: TitleStatus,
    is_codex_session: bool,
    previous_status: AgentThreadStatus,
)
    ensures
        ({
            let status = snapshot_status(
                Some(pane),
                title_status,
                is_codex_session,
                previous_status,
            );
            let quiet = title_status.codex == AgentThreadStatus::Completed;
            &&& snapshot_status(None, title_status, is_codex_session, previous_status)
                == AgentThreadStatus::Completed
            &&& pane.dead ==> status == AgentThreadStatus::Error
            &&& !pane.dead && is_codex_session && !quiet ==> status == title_status.codex
            &&& !pane.dead && is_codex_session && quiet ==> (pane.screen matches Some(screen) ==> (
            screen_status(screen) matches Some(shown) ==> status == shown))
            &&& !pane.dead && is_codex_session && quiet ==> (pane.screen matches Some(screen) ==> (
            screen_status(screen) is None ==> status == previous_status))
            &&& !pane.dead && is_codex_session && quiet && pane.screen is None ==> status
                == previous_status
            &&& !pane.dead && !is_codex_session ==> (title_status.process matches Some(shown)
                ==> status == shown)
            &&& !pane.dead && !is_codex_session && title_status.process is None ==> status
                == AgentThreadStatus::Completed
        }),
{
}

/// What an optional snapshot holds.
pub open spec fn snapshot_option(snapshot: Option<&SessionSnapshot>) -> Option<SnapshotContents> {
    match snapshot {
        Some(pane) => Some(pane@),
        None => None,
    }
}

/// The status of a terminal, going by the snapshot of its pane and the status that the title
/// shows.
pub fn status_for_snapshot(
    snapshot: Option<&SessionSnapshot>,
    title_status: TitleStatus,
    is_codex_session: bool,
    previous_status: AgentThreadStatus,
) -> (result: AgentThreadStatus)
    ensures
        result == snapshot_status(
            snapshot_option(snapshot),
            title_status,
            is_codex_session,
            previous_status,
        ),
{
    let pane = match snapshot {
        Some(pane) => pane,
        None => {
            return AgentThreadStatus::Completed;
        },
    };
    if pane.dead {
        return AgentThreadStatus::Error;
    }
    if is_codex_session {
        if title_status.codex != AgentThreadStatus::Completed {
            return title_status.codex;
        }
        return match &pane.screen {
            Some(screen) => match codex_status_from_screen(screen.as_str()) {
                Some(status) => status,
                None => previous_status,
            },
            None => previous_status,
        };
    }
    match title_status.process {
        Some(status) => status,
        None => AgentThreadStatus::Completed,
    }
}

/// When a pane was last seen to be active, and whether its screen is to be asked for once more.
#[derive(Clone, Copy, Debug, PartialEq, Eq, Structural)]
pub struct PaneActivityState {
    pub activity: Option<u64>,
    pub needs_follow_up_capture: bool,
}

/// Whether the screen of a pane is to be asked for: where a live Codex session shows nothing in
/// its title, and it was running, or it was active since it was last seen, or a screen that was
/// taken then may have been taken too early.
pub open spec fn wants_capture(
    snapshot: SnapshotContents,
    title_status: AgentThreadStatus,
    codex_ids: Set<u128>,
    running_ids: Set<u128>,
    previous: Option<PaneActivityState>,
) -> bool {
    &&& !snapshot.dead
    &&& codex_ids.contains(snapshot.terminal_id.value) || terminal_thread::is_codex_name(
        snapshot.command,
    )
    &&& title_status == AgentThreadStatus::Completed
    &&& running_ids.contains(snapshot.terminal_id.value) || (previous matches Some(state)
        ==> state.activity != snapshot.activity || state.needs_follow_up_capture)
}

fn same_activity(a: Option<u64>, b: Option<u64>) -> (result: bool)
    ensures
        result == (a == b),
{
    match (a, b) {
        (Some(x), Some(y)) => x == y,
        (None, None) => true,
        _ => false,
    }
}

/// Whether the screen of a pane is to be asked for. `title_status` is the status that its title
/// shows, read as the title of a Codex session.
pub fn should_capture_codex_screen(
    snapshot: &SessionSnapshot,
    title_status: AgentThreadStatus,
    codex_terminal_ids: &HashSet<u128>,
    running_terminal_ids: &HashSet<u128>,
    previous_activity: Option<PaneActivityState>,
) -> (result: bool)
    ensures
        result == wants_capture(
            snapshot@,
            title_status,
            codex_terminal_ids@,
            running_terminal_ids@,
            previous_activity,
        ),
{
    if snapshot.dead {
        return false;
    }
    if !codex_terminal_ids.contains(&snapshot.terminal_id.value) && !is_codex_command(
        snapshot.command.as_str(),
    ) {
        return false;
    }
    if title_status != AgentThreadStatus::Completed {
        return false;
    }
    if running_terminal_ids.contains(&snapshot.terminal_id.value) {
        return true;
    }
    match previous_activity {
        Some(previous) => !same_activity(previous.activity, snapshot.activity)
            || previous.needs_follow_up_capture,
        None => true,
    }
}

/// A pane of a Codex session that is not running, and that was not active since it was last seen,
/// keeps its status, and its screen is not asked for again.
pub proof fn unchanged_pane_keeps_status(
    snapshot: SnapshotContents,
    title_status: TitleStatus,
    codex_ids: Set<u128>,
    running_ids: Set<u128>,
    previous_status: AgentThreadStatus,
)
    requires
        !snapshot.dead,
        snapshot.screen is None,
        title_status.codex == AgentThreadStatus::Completed,
        !running_ids.contains(snapshot.terminal_id.value),
    ensures
        !wants_capture(
            snapshot,
            title_status.codex,
            codex_ids,
            running_ids,
            Some(
                PaneActivityState { activity: snapshot.activity, needs_follow_up_capture: false },
            ),
        ),
        snapshot_status(Some(snapshot), title_status, true, previous_status) == previous_status,
{
}

/// The screen of a dead pane is never asked for, nor that of a session that is not one of Codex, nor
/// one whose title tells its status. That of any other is asked for while it runs, when it is first
/// seen, when it was active since, and once more after that.
pub proof fn captures_are_wanted(
    snapshot: SnapshotContents,
    title_status: AgentThreadStatus,
    codex_ids: Set<u128>,
    running_ids: Set<u128>,
    previous: Option<PaneActivityState>,
)
    ensures
        ({
            let id = snapshot.terminal_id.value;
            let wanted = wants_capture(snapshot, title_status, codex_ids, running_ids, previous);
            let is_codex = codex_ids.contains(id) || snapshot.command == "codex"@
                || text::begins_with(snapshot.command, "codex-"@);
            let quiet = title_status == AgentThreadStatus::Completed;
            &&& snapshot.dead || !is_codex || !quiet ==> !wanted
            &&& !snapshot.dead && is_codex && quiet && running_ids.contains(id) ==> wanted
            &&& !snapshot.dead && is_codex && quiet && previous is None ==> wanted
            &&& !snapshot.dead && is_codex && quiet ==> (previous matches Some(state) ==> (
            state.activity != snapshot.activity ==> wanted))
            &&& !snapshot.dead && is_codex && quiet ==> (previous matches Some(state) ==> (
            state.needs_follow_up_capture ==> wanted))
            &&& !running_ids.contains(id) ==> (previous matches Some(state) ==> (state.activity
                == snapshot.activity && !state.needs_follow_up_capture ==> !wanted))
        }),
{
}

/// When the pane of each terminal was last seen to be active.
pub struct PaneActivities {
    states: HashMap<u128, PaneActivityState>,
}

impl View for PaneActivities {
    type V = Map<u128, PaneActivityState>;

    closed spec fn view(&self) -> Map<u128, PaneActivityState> {
        self.states@
    }
}

/// Whether one of the snapshots is of the terminal `id`.
pub open spec fn has_snapshot(snapshots: Seq<SnapshotContents>, id: u128) -> bool {
    exists|i: int| 0 <= i < snapshots.len() && (#[trigger] snapshots[i]).terminal_id.value == id
}

/// Whether `after` holds what `states` holds of the terminals that one of the snapshots is of, and
/// nothing else.
pub open spec fn keeps_listed(
    states: Map<u128, PaneActivityState>,
    snapshots: Seq<SnapshotContents>,
    after: Map<u128, PaneActivityState>,
) -> bool {
    &&& forall|id: u128| #[trigger]
        after.contains_key(id) <==> states.contains_key(id) && has_snapshot(snapshots, id)
    &&& forall|id: u128| #[trigger] after.contains_key(id) ==> after[id] == states[id]
}

/// The state that is kept of a terminal.
pub open spec fn state_of(states: Map<u128, PaneActivityState>, id: u128) -> Option<
    PaneActivityState,
> {
    if states.contains_key(id) {
        Some(states[id])
    } else {
        None
    }
}

/// The states after panes were seen whose screens were not asked for.
pub open spec fn after_seeing(
    states: Map<u128, PaneActivityState>,
    snapshots: Seq<SnapshotContents>,
) -> Map<u128, PaneActivityState>
    decreases snapshots.len(),
{
    if snapshots.len() == 0 {
        states
    } else {
        after_seeing(states, snapshots.drop_last()).insert(
            snapshots.last().terminal_id.value,
            PaneActivityState {
                activity: snapshots.last().activity,
                needs_follow_up_capture: false,
            },
        )
    }
}

/// Whether the screen of the pane at position `i` is to be asked for, once the panes from `start`
/// on before it were seen.
pub open spec fn wants_capture_at(
    snapshots: Seq<SnapshotContents>,
    title_statuses: Seq<AgentThreadStatus>,
    codex_ids: Set<u128>,
    running_ids: Set<u128>,
    states: Map<u128, PaneActivityState>,
    start: int,
    i: int,
) -> bool {
    wants_capture(
        snapshots[i],
        title_statuses[i],
        codex_ids,
        running_ids,
        state_of(
            after_seeing(states, snapshots.subrange(start, i)),
            snapshots[i].terminal_id.value,
        ),
    )
}

/// Seeing panes adds nothing about terminals that none of them is of.
pub proof fn only_listed_terminals_are_noted(
    states: Map<u128, PaneActivityState>,
    snapshots: Seq<SnapshotContents>,
    id: u128,
)
    requires
        after_seeing(states, snapshots).contains_key(id),
    ensures
        states.contains_key(id) || has_snapshot(snapshots, id),
    decreases snapshots.len(),
{
    if snapshots.len() > 0 {
        let rest = snapshots.drop_last();
        if snapshots.last().terminal_id.value == id {
            assert(snapshots[snapshots.len() - 1].terminal_id.value == id);
        } else {
            only_listed_terminals_are_noted(states, rest, id);
            if has_snapshot(rest, id) {
                let i = choose|i: int|
                    0 <= i < rest.len() && (#[trigger] rest[i]).terminal_id.value == id;
                assert(snapshots[i].terminal_id.value == id);
            }
        }
    }
}

/// Of a terminal that has a pane, the activity of its last pane is noted, and that its screen need
/// not be asked for once more; what is known of any other stays.
pub proof fn seen_panes_are_noted(
    states: Map<u128, PaneActivityState>,
    snapshots: Seq<SnapshotContents>,
    at: int,
    id: u128,
)
    requires
        at < snapshots.len(),
        0 <= at ==> snapshots[at].terminal_id.value == id,
        forall|i: int| at < i < snapshots.len() && 0 <= i ==> (
        #[trigger] snapshots[i]).terminal_id.value != id,
    ensures
        0 <= at ==> state_of(after_seeing(states, snapshots), id) == Some(
            PaneActivityState { activity: snapshots[at].activity, needs_follow_up_capture: false },
        ),
        at < 0 ==> state_of(after_seeing(states, snapshots), id) == state_of(states, id),
    decreases snapshots.len(),
{
    if snapshots.len() > 0 && at < snapshots.len() - 1 {
        let rest = snapshots.drop_last();
        assert(snapshots[snapshots.len() - 1].terminal_id.value != id);
        assert forall|i: int| at < i < rest.len() && 0 <= i implies (
        #[trigger] rest[i]).terminal_id.value != id by {
            assert(rest[i] == snapshots[i]);
        }
        seen_panes_are_noted(states, rest, at, id);
    }
}

/// Whether a screen is asked for goes by what was last seen of the terminal: by an earlier pane of it
/// in the same look, and else by what was known before.
pub proof fn earlier_panes_of_a_look_count(
    snapshots: Seq<SnapshotContents>,
    title_statuses: Seq<AgentThreadStatus>,
    codex_ids: Set<u128>,
    running_ids: Set<u128>,
    states: Map<u128, PaneActivityState>,
    start: int,
    i: int,
    at: int,
)
    requires
        0 <= start <= i < snapshots.len(),
        at < i,
        start <= at ==> snapshots[at].terminal_id.value == snapshots[i].terminal_id.value,
        forall|k: int|
            start <= k < i && at < k ==> (#[trigger] snapshots[k]).terminal_id.value
                != snapshots[i].terminal_id.value,
    ensures
        wants_capture_at(
            snapshots,
            title_statuses,
            codex_ids,
            running_ids,
            states,
            start,
            i,
        ) <==> wants_capture(
            snapshots[i],
            title_statuses[i],
            codex_ids,
            running_ids,
            if start <= at {
                Some(
                    PaneActivityState {
                        activity: snapshots[at].activity,
                        needs_follow_up_capture: false,
                    },
                )
            } else if states.contains_key(snapshots[i].terminal_id.value) {
                Some(states[snapshots[i].terminal_id.value])
            } else {
                None
            },
        ),
{
    let id = snapshots[i].terminal_id.value;
    let seen = snapshots.subrange(start, i);
    let position = if start <= at {
        at - start
    } else {
        -1
    };
    assert(start <= at ==> seen[position] == snapshots[at]);
    assert forall|k: int| position < k < seen.len() && 0 <= k implies (
    #[trigger] seen[k]).terminal_id.value != id by {
        assert(seen[k] == snapshots[start + k]);
    }
    seen_panes_are_noted(states, seen, position, id);
}

/// What is kept of a look is just what is known of terminals that have a pane.
pub proof fn terminals_without_a_pane_are_forgotten(
    states: Map<u128, PaneActivityState>,
    snapshots: Seq<SnapshotContents>,
    after: Map<u128, PaneActivityState>,
    id: u128,
)
    requires
        keeps_listed(states, snapshots, after),
    ensures
        (exists|i: int|
            0 <= i < snapshots.len() && (#[trigger] snapshots[i]).terminal_id.value == id)
            ==> state_of(after, id) == state_of(states, id),
        (forall|i: int|
            0 <= i < snapshots.len() ==> (#[trigger] snapshots[i]).terminal_id.value != id)
            ==> !after.contains_key(id),
{
    assert(after.contains_key(id) <==> states.contains_key(id) && has_snapshot(snapshots, id));
}

impl PaneActivities {
    /// No pane was seen yet.
    pub fn new() -> (result: PaneActivities)
        ensures
            result@ == Map::<u128, PaneActivityState>::empty(),
    {
        PaneActivities { states: HashMap::new() }
    }

    /// What is known of the pane of a terminal.
    pub fn get(&self, terminal_id: TerminalId) -> (result: Option<PaneActivityState>)
        ensures
            result == state_of(self@, terminal_id.value),
    {
        match self.states.get(&terminal_id.value) {
            Some(state) => Some(*state),
            None => None,
        }
    }

    /// Forgets the terminals that none of `snapshots` is of.
    pub fn retain(&mut self, snapshots: &Vec<SessionSnapshot>)
        ensures
            keeps_listed(old(self)@, snapshot_contents(snapshots@), final(self)@),
    {
        let ghost before = self@;
        let ghost all = snapshot_contents(snapshots@);
        let mut kept: HashMap<u128, PaneActivityState> = HashMap::new();
        let mut i: usize = 0;
        while i < snapshots.len()
            invariant
                i <= snapshots.len(),
                self@ == before,
                all == snapshot_contents(snapshots@),
                forall|id: u128| #[trigger]
                    kept@.contains_key(id) <==> before.contains_key(id) && has_snapshot(
                        all.take(i as int),
                        id,
                    ),
                forall|id: u128| #[trigger] kept@.contains_key(id) ==> kept@[id] == before[id],
            decreases snapshots.len() - i,
        {
            let ghost kept_before = kept@;
            let id = snapshots[i].terminal_id.value;
            if let Some(state) = self.states.get(&id) {
                kept.insert(id, *state);
            }
            assert forall|other: u128| #[trigger]
                kept@.contains_key(other) <==> before.contains_key(other) && has_snapshot(
                    all.take(i + 1),
                    other,
                ) by {
                let now = all.take(i + 1);
                assert(now[i as int].terminal_id.value == id);
                if has_snapshot(all.take(i as int), other) {
                    let j = choose|j: int|
                        0 <= j < i && (#[trigger] all.take(i as int)[j]).terminal_id.value == other;
                    assert(now[j].terminal_id.value == other);
                }
                if has_snapshot(now, other) && other != id {
                    let j = choose|j: int|
                        0 <= j < i + 1 && (#[trigger] now[j]).terminal_id.value == other;
                    assert(all.take(i as int)[j].terminal_id.value == other);
                }
                assert(kept_before.contains_key(other) <==> before.contains_key(other)
                    && has_snapshot(all.take(i as int), other));
            }
            i = i + 1;
        }
        assert(all.take(i as int) =~= all);
        self.states = kept;
    }
}

/// A look at the panes of all sessions, during which the screens of some are asked for.
pub struct SessionListing {
    snapshots: Vec<SessionSnapshot>,
    seen: usize,
}

impl SessionListing {
    /// The snapshots, with the screens that were asked for so far.
    pub closed spec fn snapshots(&self) -> Seq<SnapshotContents> {
        snapshot_contents(self.snapshots@)
    }

    /// The number of panes that were dealt with.
    pub closed spec fn seen(&self) -> int {
        self.seen as int
    }

    /// No more panes were dealt with than there are.
    pub open spec fn well_formed(&self) -> bool {
        0 <= self.seen() <= self.snapshots().len()
    }

    /// The start of a look: what is known of terminals that have no pane any more is forgotten.
    pub fn new(snapshots: Vec<SessionSnapshot>, activities: &mut PaneActivities) -> (result:
        SessionListing)
        ensures
            result.well_formed(),
            result.snapshots() == snapshot_contents(snapshots@),
            result.seen() == 0,
            keeps_listed(old(activities)@, snapshot_contents(snapshots@), final(activities)@),
    {
        activities.retain(&snapshots);
        SessionListing { snapshots, seen: 0 }
    }

    /// The pane whose screen is to be asked for next, if there is one. The panes before it, whose
    /// screens are not asked for, are noted as seen. `title_statuses` holds, for each snapshot,
    /// the status that its title shows, read as the title of a Codex session.
    pub fn next_capture(
        &mut self,
        title_statuses: &Vec<AgentThreadStatus>,
        codex_terminal_ids: &HashSet<u128>,
        running_terminal_ids: &HashSet<u128>,
        activities: &mut PaneActivities,
    ) -> (result: Option<String>)
        requires
            old(self).well_formed(),
            title_statuses@.len() == old(self).snapshots().len(),
        ensures
            final(self).well_formed(),
            final(self).snapshots() == old(self).snapshots(),
            old(self).seen() <= final(self).seen(),
            final(activities)@ == after_seeing(
                old(activities)@,
                old(self).snapshots().subrange(old(self).seen(), final(self).seen()),
            ),
            forall|i: int|
                old(self).seen() <= i < final(self).seen() ==> !#[trigger] wants_capture_at(
                    old(self).snapshots(),
                    title_statuses@,
                    codex_terminal_ids@,
                    running_terminal_ids@,
                    old(activities)@,
                    old(self).seen(),
                    i,
                ),
            match result {
                Some(pane_id) => final(self).seen() < old(self).snapshots().len() && pane_id@ == old(
                    self,
                ).snapshots()[final(self).seen()].pane_id && wants_capture_at(
                    old(self).snapshots(),
                    title_statuses@,
                    codex_terminal_ids@,
                    running_terminal_ids@,
                    old(activities)@,
                    old(self).seen(),
                    final(self).seen(),
                ),
                None => final(self).seen() == old(self).snapshots().len(),
            },
    {
        let ghost start = self.seen();
        let ghost all = self.snapshots();
        let ghost before = activities@;
        assert(all.subrange(start, start) =~= Seq::empty());
        while self.seen < self.snapshots.len()
            invariant
                self.well_formed(),
                start == old(self).seen(),
                all == old(self).snapshots(),
                before == old(activities)@,
                self.snapshots() == all,
                title_statuses@.len() == all.len(),
                start <= self.seen(),
                activities@ == after_seeing(before, all.subrange(start, self.seen())),
                forall|i: int|
                    start <= i < self.seen() ==> !#[trigger] wants_capture_at(
                        all,
                        title_statuses@,
                        codex_terminal_ids@,
                        running_terminal_ids@,
                        before,
                        start,
                        i,
                    ),
            decreases self.snapshots.len() - self.seen,
        {
            let snapshot = &self.snapshots[self.seen];
            assert(all[self.seen as int] == snapshot@);
            let previous = activities.get(snapshot.terminal_id);
            if should_capture_codex_screen(
                snapshot,
                title_statuses[self.seen],
                codex_terminal_ids,
                running_terminal_ids,
                previous,
            ) {
                return Some(snapshot.pane_id.clone());
            }
            activities.states.insert(
                snapshot.terminal_id.value,
                PaneActivityState { activity: snapshot.activity, needs_follow_up_capture: false },
            );
            assert(all.subrange(start, self.seen + 1).drop_last() =~= all.subrange(
                start,
                self.seen as int,
            ));
            assert(all.subrange(start, self.seen + 1).last() == snapshot@);
            self.seen = self.seen + 1;
        }
        None
    }

    /// Takes the screen of the pane that was asked for, or none where it could not be had. A pane
    /// that was active since it was last seen is to be asked for once more; of one whose screen
    /// could not be had, nothing new is noted.
    pub fn captured(&mut self, screen: Option<String>, activities: &mut PaneActivities)
        requires
            old(self).well_formed(),
            old(self).seen() < old(self).snapshots().len(),
        ensures
            final(self).well_formed(),
            final(self).seen() == old(self).seen() + 1,
            ({
                let at = old(self).seen();
                let snapshot = old(self).snapshots()[at];
                let previous = state_of(old(activities)@, snapshot.terminal_id.value);
                match screen {
                    Some(shown) => {
                        &&& final(self).snapshots() == old(self).snapshots().update(
                            at,
                            SnapshotContents { screen: Some(shown@), ..snapshot },
                        )
                        &&& final(activities)@ == old(activities)@.insert(
                            snapshot.terminal_id.value,
                            PaneActivityState {
                                activity: snapshot.activity,
                                needs_follow_up_capture: previous matches Some(state)
                                    ==> state.activity != snapshot.activity,
                            },
                        )
                    },
                    None => {
                        &&& final(self).snapshots() == old(self).snapshots()
                        &&& final(activities)@ == old(activities)@
                    },
                }
            }),
    {
        let ghost all = self.snapshots();
        let at = self.seen;
        assert(at < self.snapshots.len());
        if let Some(shown) = screen {
            let terminal_id = self.snapshots[at].terminal_id;
            let activity = self.snapshots[at].activity;
            assert(all[at as int] == self.snapshots@[at as int]@);
            let activity_changed = match activities.get(terminal_id) {
                Some(previous) => !same_activity(previous.activity, activity),
                None => true,
            };
            self.snapshots[at].screen = Some(shown);
            assert(self.snapshots() =~= all.update(
                at as int,
                SnapshotContents { screen: Some(shown@), ..all[at as int] },
            ));
            activities.states.insert(
                terminal_id.value,
                PaneActivityState { activity, needs_follow_up_capture: activity_changed },
            );
        }
        self.seen = at + 1;
    }

    /// The snapshots so far, in their order.
    pub fn listed(&self) -> (result: &Vec<SessionSnapshot>)
        ensures
            snapshot_contents(result@) == self.snapshots(),
    {
        &self.snapshots
    }

    /// The snapshots, once every pane was dealt with.
    pub fn into_snapshots(self) -> (result: Vec<SessionSnapshot>)
        ensures
            snapshot_contents(result@) == self.snapshots(),
    {
        self.snapshots
    }
}

/// What a reply to the command that lists the panes tells of.
pub enum ListingReply {
    /// These panes.
    Panes(Seq<SnapshotContents>),
    /// That there is no session, or no server at all.
    NoSession,
    /// That they could not be listed, with what to tell.
    Failed(Seq<char>),
}

/// What a reply to the command that lists the panes tells of.
pub open spec fn listing_reply(reply: ReplyContents) -> ListingReply {
    match command::ran(reply, "failed to query tmux terminal sessions"@) {
        Err(message) => ListingReply::Failed(message),
        Ok(output) => if output.success {
            ListingReply::Panes(line_snapshots(text::line_texts(output.stdout)))
        } else if command::tells_of_missing_session(output.stderr) {
            ListingReply::NoSession
        } else {
            ListingReply::Failed(
                "failed to query tmux sessions: "@ + command::error_text(
                    output.stderr,
                    output.stdout,
                    output.status,
                ),
            )
        },
    }
}

/// A listing that succeeds tells of the panes that it prints. One that fails because there is no
/// server, no connection to it or no session tells of no session, and any other failure is told.
pub proof fn failed_listings_are_told_apart(output: OutputContents, message: Seq<char>)
    ensures
        output.success ==> listing_reply(ReplyContents::Ran(output)) == ListingReply::Panes(
            line_snapshots(text::line_texts(output.stdout)),
        ),
        ({
            let missing = text::holds_text(output.stderr, "no server running"@)
                || text::holds_text(output.stderr, "error connecting"@) || text::holds_text(
                output.stderr,
                "can't find session"@,
            ) || text::holds_text(output.stderr, "no sessions"@);
            &&& !output.success && missing ==> listing_reply(ReplyContents::Ran(output))
                is NoSession
            &&& !output.success && !missing ==> listing_reply(ReplyContents::Ran(output))
                == ListingReply::Failed(
                "failed to query tmux sessions: "@ + command::error_text(
                    output.stderr,
                    output.stdout,
                    output.status,
                ),
            )
        }),
        listing_reply(ReplyContents::NoProgram(message)) == ListingReply::Failed(message),
        listing_reply(ReplyContents::NotStarted(message)) == ListingReply::Failed(
            "failed to query tmux terminal sessions"@ + ": "@ + message,
        ),
{
}

/// The look that a reply to the command that lists the panes begins; none where there is no
/// session. What is known of terminals is forgotten only where panes were listed and none is theirs:
/// where there is no session, or the panes could not be listed, it stays as it was.
pub fn list_sessions(reply: CommandReply, activities: &mut PaneActivities) -> (result: Result<
    Option<SessionListing>,
    String,
>)
    ensures
        match listing_reply(reply@) {
            ListingReply::Panes(snapshots) => {
                &&& result matches Ok(Some(listing))
                &&& listing.well_formed()
                &&& listing.snapshots() == snapshots
                &&& listing.seen() == 0
                &&& keeps_listed(old(activities)@, snapshots, final(activities)@)
            },
            ListingReply::NoSession => {
                &&& result matches Ok(None)
                &&& final(activities)@ == old(activities)@
            },
            ListingReply::Failed(message) => {
                &&& result matches Err(told)
                &&& told@ == message
                &&& final(activities)@ == old(activities)@
            },
        },
{
    match reply.ran("failed to query tmux terminal sessions") {
        Ok(output) => if output.success {
            let snapshots = parse_snapshots(printed_text(&output).as_str());
            Ok(Some(SessionListing::new(snapshots, activities)))
        } else if is_missing_session_output(&output) {
            Ok(None)
        } else {
            let error = command_error(&output);
            Err("failed to query tmux sessions: ".to_owned().concat(error.as_str()))
        },
        Err(message) => Err(message),
    }
}

} // verus!
