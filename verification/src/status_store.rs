//! The live status of each terminal thread, and the frames of the animation that marks the
//! running ones.
use std::collections::HashMap;

use vstd::prelude::*;

use crate::terminal_id::TerminalId;

verus! {

broadcast use vstd::std_specs::hash::group_hash_axioms;

/// What a terminal thread is seen to be doing.
#[derive(Clone, Copy, Debug, PartialEq, Eq, Structural)]
pub enum AgentThreadStatus {
    Completed,
    Running,
    WaitingForConfirmation,
    Error,
}

impl Default for AgentThreadStatus {
    fn default() -> (result: Self)
        ensures
            result == AgentThreadStatus::Completed,
    {
        AgentThreadStatus::Completed
    }
}

/// The number of frames of the animation.
pub const RUNNING_STATUS_FRAME_COUNT: u8 = 8;

/// A change of a terminal's status.
#[derive(Clone, Copy, Debug, PartialEq, Eq, Structural)]
pub struct TerminalThreadStatusChanged {
    pub terminal_id: TerminalId,
    pub previous_status: Option<AgentThreadStatus>,
    pub status: AgentThreadStatus,
}

/// What to do after a status was set: tell of the change, and start the animation.
#[derive(Clone, Copy, Debug, PartialEq, Eq, Structural)]
pub struct StatusEffects {
    pub changed: Option<TerminalThreadStatusChanged>,
    pub start_animation: bool,
}

/// The status of each terminal, by the value of its identity.
pub struct TerminalThreadStatusStore {
    statuses: HashMap<u128, AgentThreadStatus>,
    running_status_frames: HashMap<u128, u8>,
    running_status_animation_active: bool,
}

/// The contents of a `TerminalThreadStatusStore`.
#[verifier::ext_equal]
pub struct StatusContents {
    pub statuses: Map<u128, AgentThreadStatus>,
    pub frames: Map<u128, u8>,
    pub animated: bool,
}

impl StatusContents {
    /// The status of a terminal; one that has none is completed.
    pub open spec fn status(self, id: u128) -> AgentThreadStatus {
        if self.statuses.contains_key(id) {
            self.statuses[id]
        } else {
            AgentThreadStatus::Completed
        }
    }

    /// The terminals with a frame are the running ones, every frame is one of the animation, and
    /// the animation runs while there is a frame to show.
    pub open spec fn coherent(self) -> bool {
        &&& forall|id: u128| #[trigger]
            self.frames.contains_key(id) <==> self.statuses.contains_key(id) && self.statuses[id]
                == AgentThreadStatus::Running
        &&& forall|id: u128| #[trigger]
            self.frames.contains_key(id) ==> self.frames[id] < RUNNING_STATUS_FRAME_COUNT
        &&& self.frames.dom().finite()
        &&& self.frames.len() > 0 ==> self.animated
    }

    /// The contents after the status of `id` is set.
    pub open spec fn set(self, id: u128, status: AgentThreadStatus) -> StatusContents {
        if self.statuses.contains_key(id) && self.statuses[id] == status {
            self
        } else if status == AgentThreadStatus::Running {
            StatusContents {
                statuses: self.statuses.insert(id, status),
                frames: self.frames.insert(id, 0),
                animated: true,
            }
        } else {
            StatusContents {
                statuses: self.statuses.insert(id, status),
                frames: self.frames.remove(id),
                animated: self.animated,
            }
        }
    }

    /// The contents after `id` is forgotten.
    pub open spec fn without(self, id: u128) -> StatusContents {
        StatusContents {
            statuses: self.statuses.remove(id),
            frames: self.frames.remove(id),
            animated: self.animated,
        }
    }

    /// The contents after each frame gave way to the next.
    pub open spec fn advanced(self) -> StatusContents {
        StatusContents { frames: self.frames.map_values(|frame: u8| next_frame(frame)), ..self }
    }
}

/// The frame that follows `frame`; the first follows the last.
pub open spec fn next_frame(frame: u8) -> u8 {
    ((frame + 1) % RUNNING_STATUS_FRAME_COUNT as int) as u8
}

/// The contents of an empty store.
pub open spec fn no_statuses() -> StatusContents {
    StatusContents { statuses: Map::empty(), frames: Map::empty(), animated: false }
}

impl View for TerminalThreadStatusStore {
    type V = StatusContents;

    closed spec fn view(&self) -> StatusContents {
        StatusContents {
            statuses: self.statuses@,
            frames: self.running_status_frames@,
            animated: self.running_status_animation_active,
        }
    }
}

/// An empty store is coherent.
pub proof fn no_statuses_coherent()
    ensures
        no_statuses().coherent(),
{
}

/// Setting a status keeps a store coherent: a terminal is animated exactly while it runs.
pub proof fn set_keeps_coherent(contents: StatusContents, id: u128, status: AgentThreadStatus)
    requires
        contents.coherent(),
    ensures
        contents.set(id, status).coherent(),
        contents.set(id, status).status(id) == status,
        forall|other: u128| other != id ==> contents.set(id, status).status(other)
            == #[trigger] contents.status(other),
{
    let after = contents.set(id, status);
    if after.frames.len() > 0 && !after.animated {
        assert(contents.frames.len() == 0);
        assert(contents.frames.dom() =~= Set::empty());
        assert(after.frames.dom() =~= Set::empty());
    }
}

/// Forgetting a terminal keeps a store coherent, and leaves the others as they were.
pub proof fn without_keeps_coherent(contents: StatusContents, id: u128)
    requires
        contents.coherent(),
    ensures
        contents.without(id).coherent(),
        contents.without(id).status(id) == AgentThreadStatus::Completed,
        forall|other: u128| other != id ==> contents.without(id).status(other)
            == #[trigger] contents.status(other),
{
    let after = contents.without(id);
    if after.frames.len() > 0 && !after.animated {
        assert(contents.frames.len() == 0);
        assert(contents.frames.dom() =~= Set::empty());
        assert(after.frames.dom() =~= Set::empty());
    }
}

/// Advancing the frames keeps a store coherent, and changes no status.
pub proof fn advanced_keeps_coherent(contents: StatusContents)
    requires
        contents.coherent(),
    ensures
        contents.advanced().coherent(),
        contents.advanced().statuses == contents.statuses,
{
    assert(contents.advanced().frames.dom() =~= contents.frames.dom());
}

/// A terminal that starts to run shows the first frame, and any other shows none; what is known of
/// the other terminals stays. A status that it had already changes nothing.
pub proof fn running_terminals_are_animated(
    contents: StatusContents,
    id: u128,
    status: AgentThreadStatus,
    other: u128,
)
    ensures
        ({
            let after = contents.set(id, status);
            let had = contents.statuses.contains_key(id) && contents.statuses[id] == status;
            &&& had ==> after == contents
            &&& after.statuses.contains_key(id) && after.statuses[id] == status
            &&& !had && status == AgentThreadStatus::Running ==> after.frames.contains_key(id)
                && after.frames[id] == 0 && after.animated
            &&& !had && status != AgentThreadStatus::Running ==> !after.frames.contains_key(id)
                && after.animated == contents.animated
            &&& other != id ==> after.statuses.contains_key(other)
                == contents.statuses.contains_key(other) && (contents.statuses.contains_key(other)
                ==> after.statuses[other] == contents.statuses[other])
            &&& other != id ==> after.frames.contains_key(other) == contents.frames.contains_key(
                other,
            ) && (contents.frames.contains_key(other) ==> after.frames[other]
                == contents.frames[other])
        }),
{
}

/// A forgotten terminal has neither a status nor a frame, and what is known of the others stays.
pub proof fn forgotten_terminals_are_gone(contents: StatusContents, id: u128, other: u128)
    ensures
        ({
            let after = contents.without(id);
            &&& !after.statuses.contains_key(id) && !after.frames.contains_key(id)
            &&& after.animated == contents.animated
            &&& other != id ==> after.statuses.contains_key(other)
                == contents.statuses.contains_key(other) && (contents.statuses.contains_key(other)
                ==> after.statuses[other] == contents.statuses[other])
            &&& other != id ==> after.frames.contains_key(other) == contents.frames.contains_key(
                other,
            ) && (contents.frames.contains_key(other) ==> after.frames[other]
                == contents.frames[other])
        }),
{
}

/// The eight frames follow each other, and the first follows the last: every terminal with a frame
/// goes on to the next, and after eight steps shows the same again.
pub proof fn frames_go_round(contents: StatusContents, id: u128)
    requires
        contents.frames.contains_key(id),
        contents.frames[id] < 8,
    ensures
        contents.advanced().frames.dom() == contents.frames.dom(),
        contents.frames[id] < 7 ==> contents.advanced().frames[id] == contents.frames[id] + 1,
        contents.frames[id] == 7 ==> contents.advanced().frames[id] == 0,
        contents.advanced().animated == contents.animated,
{
    assert(contents.advanced().frames.dom() =~= contents.frames.dom());
}

/// A coherent store shows a frame of the animation for just the terminals that run, and is animated
/// while one does. A terminal of which nothing is known is done.
pub proof fn coherent_stores_animate_what_runs(contents: StatusContents, id: u128)
    requires
        contents.coherent(),
    ensures
        contents.frames.contains_key(id) <==> contents.status(id) == AgentThreadStatus::Running,
        contents.frames.contains_key(id) ==> contents.frames[id] < 8 && contents.animated,
        !contents.statuses.contains_key(id) ==> contents.status(id) == AgentThreadStatus::Completed,
        contents.statuses.contains_key(id) ==> contents.status(id) == contents.statuses[id],
{
    if contents.frames.contains_key(id) {
        assert(contents.frames.dom().contains(id));
        assert(contents.frames.dom().len() > 0) by {
            if contents.frames.dom().len() == 0 {
                assert(contents.frames.dom() =~= Set::empty());
            }
        }
    }
}

/// An empty store knows of no terminal, shows no frame and is not animated.
pub proof fn empty_store_shows_nothing(id: u128)
    ensures
        no_statuses().status(id) == AgentThreadStatus::Completed,
        !no_statuses().statuses.contains_key(id),
        !no_statuses().frames.contains_key(id),
        !no_statuses().animated,
{
}

impl TerminalThreadStatusStore {
    /// A store without terminals.
    pub fn new() -> (result: Self)
        ensures
            result@ == no_statuses(),
            result@.coherent(),
    {
        TerminalThreadStatusStore {
            statuses: HashMap::new(),
            running_status_frames: HashMap::new(),
            running_status_animation_active: false,
        }
    }

    /// The status of a terminal; one that has none is completed.
    pub fn status(&self, terminal_id: TerminalId) -> (result: AgentThreadStatus)
        ensures
            result == self@.status(terminal_id.value),
    {
        match self.statuses.get(&terminal_id.value) {
            Some(status) => *status,
            None => AgentThreadStatus::Completed,
        }
    }

    /// The animation frame of a terminal; the first where it has none.
    pub fn running_status_frame(&self, terminal_id: TerminalId) -> (result: u8)
        requires
            self@.coherent(),
        ensures
            result < RUNNING_STATUS_FRAME_COUNT,
            result == (if self@.frames.contains_key(terminal_id.value) {
                self@.frames[terminal_id.value]
            } else {
                0
            }),
    {
        match self.running_status_frames.get(&terminal_id.value) {
            Some(frame) => *frame,
            None => 0,
        }
    }

    /// The animation frame of one of the running terminals; which one is open.
    pub fn any_running_status_frame(&self) -> (result: Option<u8>)
        requires
            self@.coherent(),
        ensures
            match result {
                Some(frame) => exists|id: u128| #[trigger]
                    self@.frames.contains_key(id) && self@.frames[id] == frame,
                None => self@.frames.dom() == Set::<u128>::empty(),
            },
    {
        for id in it: self.running_status_frames.keys()
            invariant
                it.index() == 0,
                it.seq().unref().to_set() == self.running_status_frames@.dom(),
        {
            proof {
                assert(it.seq().unref()[0] == *id);
                assert(it.seq().unref().to_set().contains(*id));
            }
            if let Some(frame) = self.running_status_frames.get(id) {
                assert(self@.frames.contains_key(*id));
                return Some(*frame);
            }
        }
        assert(self@.frames.dom() =~= Set::<u128>::empty());
        None
    }

    /// Sets the status of a terminal, and says what to do about it. A running terminal starts at
    /// the first frame of the animation; any other has no frame.
    pub fn set_status(&mut self, terminal_id: TerminalId, status: AgentThreadStatus) -> (result:
        StatusEffects)
        requires
            old(self)@.coherent(),
        ensures
            final(self)@ == old(self)@.set(terminal_id.value, status),
            final(self)@.coherent(),
            result == (if final(self)@ == old(self)@ {
                StatusEffects { changed: None, start_animation: false }
            } else {
                StatusEffects {
                    changed: Some(
                        TerminalThreadStatusChanged {
                            terminal_id,
                            previous_status: if old(self)@.statuses.contains_key(
                                terminal_id.value,
                            ) {
                                Some(old(self)@.statuses[terminal_id.value])
                            } else {
                                None
                            },
                            status,
                        },
                    ),
                    start_animation: final(self)@.animated && !old(self)@.animated,
                }
            }),
    {
        proof {
            set_keeps_coherent(self@, terminal_id.value, status);
        }
        let previous_status = match self.statuses.get(&terminal_id.value) {
            Some(previous) => Some(*previous),
            None => None,
        };
        if let Some(previous) = previous_status {
            if previous == status {
                return StatusEffects { changed: None, start_animation: false };
            }
        }
        let was_active = self.running_status_animation_active;
        self.statuses.insert(terminal_id.value, status);
        if status == AgentThreadStatus::Running {
            self.running_status_frames.insert(terminal_id.value, 0);
            self.running_status_animation_active = true;
        } else {
            self.running_status_frames.remove(&terminal_id.value);
        }
        assert(self@ != old(self)@) by {
            assert(self@.statuses.contains_key(terminal_id.value));
        }
        StatusEffects {
            changed: Some(TerminalThreadStatusChanged { terminal_id, previous_status, status }),
            start_animation: self.running_status_animation_active && !was_active,
        }
    }

    /// Forgets a terminal. Says whether there was anything to forget.
    pub fn remove(&mut self, terminal_id: TerminalId) -> (result: bool)
        requires
            old(self)@.coherent(),
        ensures
            final(self)@ == old(self)@.without(terminal_id.value),
            final(self)@.coherent(),
            result == (old(self)@.statuses.contains_key(terminal_id.value)
                || old(self)@.frames.contains_key(terminal_id.value)),
    {
        proof {
            without_keeps_coherent(self@, terminal_id.value);
        }
        let removed_status = self.statuses.remove(&terminal_id.value).is_some();
        let removed_frame = self.running_status_frames.remove(&terminal_id.value).is_some();
        removed_status || removed_frame
    }

    /// Gives each running terminal the next frame of the animation. Says whether there was one.
    pub fn advance_running_status_frames(&mut self) -> (result: bool)
        requires
            old(self)@.coherent(),
        ensures
            final(self)@ == old(self)@.advanced(),
            final(self)@.coherent(),
            result == (old(self)@.frames.len() > 0),
    {
        proof {
            advanced_keeps_coherent(self@);
        }
        if self.running_status_frames.is_empty() {
            assert(self@.frames.dom() =~= Set::empty());
            assert(self@.advanced().frames =~= self@.frames);
            return false;
        }
        let ghost before = self.running_status_frames@;
        assert(before.dom().len() > 0);
        let mut next: HashMap<u128, u8> = HashMap::new();
        for id in it: self.running_status_frames.keys()
            invariant
                it.seq().unref().to_set() == self.running_status_frames@.dom(),
                it.seq().no_duplicates(),
                before == self.running_status_frames@,
                forall|k: u128| #[trigger]
                    before.contains_key(k) ==> before[k] < RUNNING_STATUS_FRAME_COUNT,
                next@.dom() == it.seq().unref().take(it.index() as int).to_set(),
                forall|k: u128| #[trigger]
                    next@.contains_key(k) ==> next@[k] == next_frame(before[k]),
                it.index() == it.seq().len() ==> next@.dom() == before.dom(),
        {
            let ghost i = it.index() as int;
            let ghost keys = it.seq().unref();
            proof {
                assert(keys[i] == *id);
                assert(keys.to_set().contains(*id));
                assert(keys.take(i + 1) =~= keys.take(i).push(*id));
                assert(keys.take(i + 1).to_set() =~= keys.take(i).to_set().insert(*id)) by {
                    assert forall|k: u128| keys.take(i + 1).contains(k) == keys.take(i).to_set().insert(*id).contains(k) by {
                        if keys.take(i).contains(k) {
                            let j = choose|j: int| 0 <= j < i && keys.take(i)[j] == k;
                            assert(keys.take(i + 1)[j] == k);
                        }
                        if k == *id {
                            assert(keys.take(i + 1)[i] == k);
                        }
                    }
                }
            }
            if let Some(frame) = self.running_status_frames.get(id) {
                let following: u8 = (*frame + 1) % RUNNING_STATUS_FRAME_COUNT;
                next.insert(*id, following);
            }
            assert(i + 1 == keys.len() ==> keys.take(i + 1) =~= keys);
        }
        self.running_status_frames = next;
        assert(self.running_status_frames@ =~= before.map_values(|frame: u8| next_frame(frame)));
        true
    }

    /// Gives each running terminal the next frame of the animation.
    pub fn advance_running_status_frames_for_test(&mut self)
        requires
            old(self)@.coherent(),
        ensures
            final(self)@ == old(self)@.advanced(),
            final(self)@.coherent(),
    {
        self.advance_running_status_frames();
    }

    /// One tick of the animation. Says whether it goes on; it ends when no terminal runs.
    pub fn animation_tick(&mut self) -> (result: bool)
        requires
            old(self)@.coherent(),
        ensures
            result == (old(self)@.frames.len() > 0),
            final(self)@ == (if result {
                old(self)@.advanced()
            } else {
                StatusContents { animated: false, ..old(self)@ }
            }),
            final(self)@.coherent(),
    {
        let should_continue = self.advance_running_status_frames();
        if !should_continue {
            assert(old(self)@.frames.dom() =~= Set::empty());
            assert(old(self)@.advanced().frames =~= old(self)@.frames);
            self.running_status_animation_active = false;
        }
        should_continue
    }
}

} // verus!
