//! Filling a guild's state when the bot begins to follow it: first all members, then the history
//! of the introductions channel.

use vstd::prelude::*;

use crate::model::{Member, Message};
use crate::state::IntroState;

verus! {

/// How far the filling has come.
#[derive(Clone, Copy, Debug, PartialEq, Eq, Structural)]
pub enum RefreshPhase {
    /// The next member is asked for.
    Members,
    /// The next message is asked for.
    Messages,
    /// Everything was read.
    Done,
    /// Something could not be read.
    Failed,
}

/// What came back.
#[derive(Debug)]
pub enum RefreshEvent {
    Member(Member),
    Message(Message),
    /// There is no further one.
    End,
    /// It could not be read.
    Error,
}

/// The state and the phase after an event. What was not asked for counts as an error, and changes
/// nothing.
pub open spec fn refresh_step(
    state: crate::state::StateView,
    phase: RefreshPhase,
    event: RefreshEvent,
) -> (crate::state::StateView, RefreshPhase) {
    match (phase, event) {
        (RefreshPhase::Members, RefreshEvent::Member(member)) => (
            state.with_user(member@),
            RefreshPhase::Members,
        ),
        (RefreshPhase::Members, RefreshEvent::End) => (state, RefreshPhase::Messages),
        (RefreshPhase::Messages, RefreshEvent::Message(message)) => (
            state.with_history(message@),
            RefreshPhase::Messages,
        ),
        (RefreshPhase::Messages, RefreshEvent::End) => (state, RefreshPhase::Done),
        (RefreshPhase::Done, _) => (state, RefreshPhase::Done),
        _ => (state, RefreshPhase::Failed),
    }
}

impl IntroState {
    /// Takes in one member or message, and says what to ask for next.
    pub fn refresh_intro_channel(&mut self, phase: RefreshPhase, event: RefreshEvent) -> (next:
        RefreshPhase)
        requires
            old(self)@.wf(),
        ensures
            (final(self)@, next) == refresh_step(old(self)@, phase, event),
            final(self)@.wf(),
    {
        match (phase, event) {
            (RefreshPhase::Members, RefreshEvent::Member(member)) => {
                self.update_user(&member);
                RefreshPhase::Members
            },
            (RefreshPhase::Members, RefreshEvent::End) => RefreshPhase::Messages,
            (RefreshPhase::Messages, RefreshEvent::Message(message)) => {
                self.add_history(message);
                RefreshPhase::Messages
            },
            (RefreshPhase::Messages, RefreshEvent::End) => RefreshPhase::Done,
            (RefreshPhase::Done, _) => RefreshPhase::Done,
            _ => RefreshPhase::Failed,
        }
    }
}

} // verus!
