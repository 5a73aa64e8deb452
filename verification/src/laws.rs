//! What holds of the bot as a whole: properties that span several of its operations.

use vstd::prelude::*;

use crate::command::{ActionView, IntroEvent, IntroPhase, IntroRequest, PhaseView, SendOutcome};
use crate::ids::{GuildId, UserId};
use crate::model::{Member, MemberView, Message, MessageUpdate, MessageView, User, UserView};
use crate::refresh::{RefreshEvent, RefreshPhase};
use crate::registry::{Event, EventAction, Guilds};
use crate::state::StateView;

verus! {

// Names.

/// In a table of names, a user has a name exactly if the name belongs to the user.
pub proof fn names_and_users_match(names: Map<Seq<char>, u64>, name: Seq<char>, user: u64)
    requires
        crate::names::one_name_each(names),
    ensures
        crate::names::name_of(names, user) == Some(name) <==> crate::names::user_named(names, name)
            == Some(user),
{
    if crate::names::is_name_of(names, name, user) {
        crate::names::lemma_name_of(names, name, user);
    }
}

/// Once the bot learned how a member is called, the member is found by the display name, however
/// its letters are written, unless that text is the name of another account.
pub proof fn member_is_found_by_display_name(state: StateView, member: MemberView, text: Seq<char>)
    requires
        crate::text::lowercase(text) == crate::text::lowercase(member.display_name()),
        state.with_user(member).usernames.contains_key(text) ==> state.with_user(
            member,
        ).usernames[text] == member.user,
    ensures
        state.with_user(member).user_by_string(text) == Some(member.user),
{
}

/// Once the bot learned how a member is called, a member whose account is identified by its name
/// alone is found by that name.
pub proof fn member_is_found_by_account_name(state: StateView, member: MemberView)
    requires
        member.discriminator is None,
    ensures
        state.with_user(member).user_by_string(member.name) == Some(member.user),
{
}

/// A name of an account goes before a display name.
pub proof fn account_names_go_first(state: StateView, text: Seq<char>)
    requires
        state.usernames.contains_key(text),
    ensures
        state.user_by_string(text) == Some(state.usernames[text]),
{
}

/// Once the bot learned how a member is called, it calls the member by the display name, in small
/// letters.
pub proof fn member_is_called_by_display_name(state: StateView, member: MemberView)
    requires
        state.wf(),
    ensures
        state.with_user(member).user_displayname(member.user) == Some(
            crate::text::lowercase(member.display_name()),
        ),
{
    let after = state.with_user(member);
    let name = crate::text::lowercase(member.display_name());
    lemma_renamed(state.displaynames, name, member.user);
    crate::names::lemma_name_of(after.displaynames, name, member.user);
}

/// Taking a name leaves each user with one name and each name with one user.
proof fn lemma_renamed(names: Map<Seq<char>, u64>, name: Seq<char>, user: u64)
    requires
        crate::names::one_name_each(names),
    ensures
        crate::names::one_name_each(crate::names::renamed(names, name, user)),
{
}

/// A member who takes a display name that another user had takes it from that user.
pub proof fn display_name_moves_to_latest(state: StateView, member: MemberView, other: u64)
    requires
        state.wf(),
        other != member.user,
        crate::names::name_of(state.displaynames, other) == Some(
            crate::text::lowercase(member.display_name()),
        ),
    ensures
        crate::names::name_of(state.with_user(member).displaynames, other) is None,
{
    let name = crate::text::lowercase(member.display_name());
    let after = state.with_user(member).displaynames;
    names_and_users_match(state.displaynames, name, other);
    if exists|n: Seq<char>| crate::names::is_name_of(after, n, other) {
        let n = choose|n: Seq<char>| crate::names::is_name_of(after, n, other);
        assert(n != name);
        assert(crate::names::is_name_of(state.displaynames, n, other));
    }
}

/// Learning how a member is called changes no other user's display name, unless it is taken.
pub proof fn other_display_names_stay(
    state: StateView,
    member: MemberView,
    other: u64,
    name: Seq<char>,
)
    requires
        state.wf(),
        other != member.user,
        crate::names::name_of(state.displaynames, other) == Some(name),
        name != crate::text::lowercase(member.display_name()),
    ensures
        crate::names::name_of(state.with_user(member).displaynames, other) == Some(name),
{
    names_and_users_match(state.displaynames, name, other);
    let taken = crate::text::lowercase(member.display_name());
    lemma_renamed(state.displaynames, taken, member.user);
    crate::names::lemma_name_of(state.with_user(member).displaynames, name, other);
}

/// To learn the same of a member twice is to learn it once.
pub proof fn learning_twice_is_learning_once(state: StateView, member: MemberView)
    ensures
        state.with_user(member).with_user(member) == state.with_user(member),
{
    assert(state.with_user(member).with_user(member) =~= state.with_user(member));
}

// Introductions.

/// Whatever is learned of a guild, each name keeps belonging to one user and each user keeps one
/// name, and each introduction stays at hand.
pub proof fn state_stays_valid(
    state: StateView,
    member: MemberView,
    user: u64,
    message: MessageView,
)
    requires
        state.wf(),
        member.user != 0,
    ensures
        state.with_user(member).wf(),
        state.with_intro(user, message).wf(),
        state.with_history(message).wf(),
{
    lemma_renamed(state.usernames, member.name, member.user);
    lemma_renamed(
        state.displaynames,
        crate::text::lowercase(member.display_name()),
        member.user,
    );
}

/// The first message of a user in the introductions channel is the user's introduction.
pub proof fn first_message_introduces(state: StateView, user: u64, message: MessageView)
    requires
        !state.intros.contains_key(user),
    ensures
        state.with_intro(user, message).intro_message(user) == Some(message),
{
}

/// A later message does not become the introduction.
pub proof fn later_messages_do_not_introduce(state: StateView, user: u64, message: MessageView)
    requires
        state.intros.contains_key(user),
        state.intros[user] != message.id,
    ensures
        state.with_intro(user, message).intro_message(user) == state.intro_message(user),
{
}

/// An edit of the introduction is shown from then on.
pub proof fn edited_introduction_is_shown(state: StateView, user: u64, message: MessageView)
    requires
        state.intros.contains_key(user),
        state.intros[user] == message.id,
    ensures
        state.with_intro(user, message).intro_message(user) == Some(message),
{
}

/// A message of one user changes nothing about the introduction of another, unless it is that
/// introduction.
pub proof fn other_introductions_stay(
    state: StateView,
    user: u64,
    message: MessageView,
    other: u64,
)
    requires
        other != user,
        state.intros.contains_key(other) ==> state.intros[other] != message.id,
    ensures
        state.with_intro(user, message).intro_message(other) == state.intro_message(other),
{
}

/// A user who has an introduction keeps having one, and it is always at hand.
pub proof fn introductions_are_never_lost(
    state: StateView,
    user: u64,
    member: MemberView,
    author: u64,
    message: MessageView,
)
    requires
        state.wf(),
        state.intros.contains_key(user),
    ensures
        state.intro_message(user) is Some,
        state.with_user(member).intro_message(user) is Some,
        state.with_intro(author, message).intro_message(user) is Some,
        state.with_history(message).intro_message(user) is Some,
{
}

/// The history says nothing new of a message that is already known.
pub proof fn history_does_not_overwrite(state: StateView, message: MessageView, id: u64)
    requires
        state.messages.contains_key(id),
    ensures
        state.with_history(message).message(id) == state.message(id),
{
}

// Guilds.

/// To follow a guild that is followed already changes nothing: its channel and all that is known of
/// it stay.
pub proof fn following_again_changes_nothing(guilds: Guilds, guild: u64, channel: u64, again: u64)
    ensures
        crate::registry::with_guild(
            crate::registry::with_guild(guilds, guild, channel),
            guild,
            again,
        ) == crate::registry::with_guild(guilds, guild, channel),
        guilds.contains_key(guild) ==> crate::registry::with_guild(guilds, guild, channel)
            == guilds,
{
}

/// A guild that became known by an edit alone counts as followed: to follow it later changes
/// nothing.
pub proof fn announced_guild_counts_as_followed(guilds: Guilds, guild: u64, channel: u64)
    ensures
        crate::registry::with_guild(
            crate::registry::with_announced_edit(guilds, Some(guild)),
            guild,
            channel,
        ) == crate::registry::with_announced_edit(guilds, Some(guild)),
{
}

/// To follow a list of guilds is to follow each of them, and none that is followed already is
/// touched.
pub proof fn listed_guilds_are_followed(guilds: Guilds, list: Seq<(u64, u64)>)
    ensures
        forall|i: int|
            0 <= i < list.len() ==> crate::registry::with_guilds(guilds, list).contains_key(
                (#[trigger] list[i]).0,
            ),
        forall|guild: u64| #[trigger]
            guilds.contains_key(guild) ==> crate::registry::with_guilds(guilds, list).contains_key(
                guild,
            ) && crate::registry::with_guilds(guilds, list)[guild] == guilds[guild],
    decreases list.len(),
{
    if list.len() > 0 {
        let init = list.drop_last();
        listed_guilds_are_followed(guilds, init);
        assert forall|i: int| 0 <= i < list.len() implies crate::registry::with_guilds(
            guilds,
            list,
        ).contains_key((#[trigger] list[i]).0) by {
            if i < init.len() {
                assert(list[i] == init[i]);
            }
        }
    }
}

/// The new guilds of a list are those on it that were not followed before. Each has its state
/// filled once, for the first channel that the list gives.
pub proof fn new_guilds_are_filled_once(guilds: Guilds, list: Seq<(u64, u64)>)
    ensures
        ({
            let new = crate::registry::newly_followed(guilds, list);
            let after = crate::registry::with_guilds(guilds, list);
            &&& forall|i: int, j: int|
                0 <= i < j < new.len() ==> (#[trigger] new[i]).0 != (#[trigger] new[j]).0
            &&& forall|i: int|
                0 <= i < new.len() ==> !guilds.contains_key((#[trigger] new[i]).0)
                    && after.contains_key(new[i].0) && after[new[i].0] == StateView::fresh(
                    new[i].1,
                    new[i].0,
                )
            &&& forall|guild: u64| #[trigger]
                after.contains_key(guild) && !guilds.contains_key(guild) ==> exists|i: int|
                    0 <= i < new.len() && (#[trigger] new[i]).0 == guild
        }),
    decreases list.len(),
{
    if list.len() > 0 {
        let init = list.drop_last();
        let new = crate::registry::newly_followed(guilds, list);
        let earlier = crate::registry::newly_followed(guilds, init);
        let after = crate::registry::with_guilds(guilds, list);
        let between = crate::registry::with_guilds(guilds, init);
        new_guilds_are_filled_once(guilds, init);
        listed_guilds_are_followed(guilds, init);
        assert forall|i: int| 0 <= i < new.len() implies !guilds.contains_key((#[trigger] new[i]).0)
            && after.contains_key(new[i].0) && after[new[i].0] == StateView::fresh(
            new[i].1,
            new[i].0,
        ) by {
            if i < earlier.len() {
                assert(new[i] == earlier[i]);
            }
        }
        assert forall|i: int, j: int| 0 <= i < j < new.len() implies (#[trigger] new[i]).0 != (
        #[trigger] new[j]).0 by {
            assert(new[i] == earlier[i]);
            assert(between.contains_key(earlier[i].0));
        }
        assert forall|guild: u64| #[trigger]
            after.contains_key(guild) && !guilds.contains_key(guild) implies exists|i: int|
            0 <= i < new.len() && (#[trigger] new[i]).0 == guild by {
            if between.contains_key(guild) {
                let i = choose|i: int| 0 <= i < earlier.len() && (#[trigger] earlier[i]).0 == guild;
                assert(new[i] == earlier[i]);
            } else {
                assert(new[new.len() - 1].0 == guild);
            }
        }
    }
}

/// The guild in which an event happened, where it says so.
pub open spec fn event_guild(event: Event) -> Option<u64> {
    match event {
        Event::MessageCreate(message) => message@.guild,
        Event::MessageUpdate(update) => update@.guild,
        Event::GuildMemberAdd(guild) => Some(guild@),
        Event::GuildMemberUpdate(guild) => Some(guild@),
        _ => None,
    }
}

/// An event changes no other guild than the one in which it happened.
pub proof fn events_stay_in_their_guild(guilds: Guilds, event: Event, other: u64)
    requires
        event_guild(event) != Some(other),
    ensures
        crate::registry::after_event(guilds, event).contains_key(other) == guilds.contains_key(
            other,
        ),
        guilds.contains_key(other) ==> crate::registry::after_event(guilds, event)[other]
            == guilds[other],
{
}

/// An event neither begins nor ends the following of a guild, and leaves its channel as it is.
pub proof fn events_keep_the_guilds_followed(guilds: Guilds, event: Event)
    ensures
        crate::registry::after_event(guilds, event).dom() == guilds.dom(),
        forall|guild: u64| #[trigger]
            guilds.contains_key(guild) ==> crate::registry::after_event(
                guilds,
                event,
            )[guild].intro_channel == guilds[guild].intro_channel,
{
    assert(crate::registry::after_event(guilds, event).dom() =~= guilds.dom());
}

/// Messages outside of the introductions channel, and messages in guilds that are not followed,
/// leave no trace.
pub proof fn only_the_introductions_channel_counts(
    guilds: Guilds,
    guild: u64,
    channel: u64,
    user: u64,
    message: MessageView,
)
    requires
        !guilds.contains_key(guild) || guilds[guild].intro_channel != channel,
    ensures
        crate::registry::with_channel_message(guilds, guild, channel, user, message) == guilds,
{
}

/// Only messages, and edits of them, change by themselves what is known; all the general cache is
/// asked to take in leaves it as it is.
pub proof fn cached_events_change_no_guild(guilds: Guilds, event: Event)
    requires
        crate::registry::event_action(guilds, event) != EventAction::Nothing,
    ensures
        crate::registry::after_event(guilds, event) == guilds,
{
}

/// A new message in the introductions channel introduces its author, if nothing did before.
pub proof fn new_message_introduces_author(guilds: Guilds, event: Event, guild: u64)
    requires
        event matches Event::MessageCreate(message) && message@.guild == Some(guild)
            && guilds.contains_key(guild) && guilds[guild].intro_channel == message@.channel
            && !guilds[guild].intros.contains_key(message@.author),
    ensures
        event matches Event::MessageCreate(message) ==> crate::registry::after_event(
            guilds,
            event,
        )[guild].intro_message(message@.author) == Some(message@),
{
}

/// An edit of a message that was kept shows in the introduction that the message is: the new
/// content, or the old one where the edit has none.
pub proof fn edit_shows_in_introduction(guilds: Guilds, event: Event, guild: u64, user: u64)
    requires
        crate::registry::guilds_wf(guilds),
        guilds.contains_key(guild),
        guilds[guild].intros.contains_key(user),
        event matches Event::MessageUpdate(update) && update@.guild == Some(guild)
            && update@.author is Some && update@.channel == guilds[guild].intro_channel
            && update@.id == guilds[guild].intros[user],
    ensures
        event matches Event::MessageUpdate(update) ==> ({
            let before = guilds[guild].intro_message(user);
            let after = crate::registry::after_event(guilds, event)[guild].intro_message(user);
            &&& before is Some
            &&& after == Some(update@.applied_to(before->0))
        }),
{
}

/// Whatever the event, what always holds of a guild goes on to hold of each.
pub proof fn guilds_stay_valid(
    guilds: Guilds,
    event: Event,
    guild: u64,
    channel: u64,
    member: MemberView,
    announced: Option<u64>,
)
    requires
        crate::registry::guilds_wf(guilds),
        member.user != 0,
    ensures
        crate::registry::guilds_wf(crate::registry::after_event(guilds, event)),
        crate::registry::guilds_wf(crate::registry::with_guild(guilds, guild, channel)),
        crate::registry::guilds_wf(crate::registry::with_member(guilds, guild, member)),
        crate::registry::guilds_wf(crate::registry::with_announced_edit(guilds, announced)),
{
    if guilds.contains_key(guild) {
        let message = MessageView { id: 0, channel: 0, guild: None, author: 0, content: seq![] };
        state_stays_valid(guilds[guild], member, 0, message);
    }
    let after = crate::registry::with_member(guilds, guild, member);
    assert forall|g: u64| #[trigger] after.contains_key(g) implies after[g].wf() by {
        assert(guilds.contains_key(g));
    }
}

// Filling a guild's state.

/// The state and the phase after a series of events.
pub open spec fn refresh_all(
    state: StateView,
    phase: RefreshPhase,
    events: Seq<RefreshEvent>,
) -> (StateView, RefreshPhase)
    decreases events.len(),
{
    if events.len() == 0 {
        (state, phase)
    } else {
        let next = crate::refresh::refresh_step(state, phase, events[0]);
        refresh_all(next.0, next.1, events.skip(1))
    }
}

/// The state after the bot learned how each of the members is called, one after the other.
pub open spec fn after_members(state: StateView, members: Seq<Member>) -> StateView
    decreases members.len(),
{
    if members.len() == 0 {
        state
    } else {
        after_members(state.with_user(members[0]@), members.skip(1))
    }
}

/// The state after a history of messages, one after the other.
pub open spec fn after_history(state: StateView, messages: Seq<Message>) -> StateView
    decreases messages.len(),
{
    if messages.len() == 0 {
        state
    } else {
        after_history(state.with_history(messages[0]@), messages.skip(1))
    }
}

/// What a complete filling reads: all members, then all messages.
pub open spec fn complete_filling(members: Seq<Member>, messages: Seq<Message>) -> Seq<
    RefreshEvent,
> {
    members.map_values(|m: Member| RefreshEvent::Member(m)) + seq![RefreshEvent::End]
        + messages.map_values(|m: Message| RefreshEvent::Message(m)) + seq![RefreshEvent::End]
}

/// Two series of events, one after the other.
proof fn lemma_refresh_concat(
    state: StateView,
    phase: RefreshPhase,
    a: Seq<RefreshEvent>,
    b: Seq<RefreshEvent>,
)
    ensures
        refresh_all(state, phase, a + b) == ({
            let half = refresh_all(state, phase, a);
            refresh_all(half.0, half.1, b)
        }),
    decreases a.len(),
{
    if a.len() == 0 {
        assert(a + b =~= b);
    } else {
        let next = crate::refresh::refresh_step(state, phase, a[0]);
        assert((a + b).skip(1) =~= a.skip(1) + b);
        lemma_refresh_concat(next.0, next.1, a.skip(1), b);
    }
}

/// While members are read, each is learned.
proof fn lemma_refresh_members(state: StateView, members: Seq<Member>)
    ensures
        refresh_all(
            state,
            RefreshPhase::Members,
            members.map_values(|m: Member| RefreshEvent::Member(m)),
        ) == (after_members(state, members), RefreshPhase::Members),
    decreases members.len(),
{
    let events = members.map_values(|m: Member| RefreshEvent::Member(m));
    if members.len() > 0 {
        assert(events.skip(1) =~= members.skip(1).map_values(|m: Member| RefreshEvent::Member(m)));
        lemma_refresh_members(state.with_user(members[0]@), members.skip(1));
    }
}

/// While messages are read, each is kept.
proof fn lemma_refresh_messages(state: StateView, messages: Seq<Message>)
    ensures
        refresh_all(
            state,
            RefreshPhase::Messages,
            messages.map_values(|m: Message| RefreshEvent::Message(m)),
        ) == (after_history(state, messages), RefreshPhase::Messages),
    decreases messages.len(),
{
    let events = messages.map_values(|m: Message| RefreshEvent::Message(m));
    if messages.len() > 0 {
        assert(events.skip(1) =~= messages.skip(1).map_values(
            |m: Message| RefreshEvent::Message(m),
        ));
        lemma_refresh_messages(state.with_history(messages[0]@), messages.skip(1));
    }
}

/// A filling that reads everything takes in each member and then each message, and is done.
pub proof fn filling_takes_everything_in(
    state: StateView,
    members: Seq<Member>,
    messages: Seq<Message>,
)
    ensures
        refresh_all(state, RefreshPhase::Members, complete_filling(members, messages)) == (
            after_history(after_members(state, members), messages),
            RefreshPhase::Done,
        ),
{
    let end = seq![RefreshEvent::End];
    let first = members.map_values(|m: Member| RefreshEvent::Member(m));
    let second = messages.map_values(|m: Message| RefreshEvent::Message(m));
    let middle = after_members(state, members);
    let last = after_history(middle, messages);
    reveal_with_fuel(refresh_all, 2);
    lemma_refresh_members(state, members);
    lemma_refresh_concat(state, RefreshPhase::Members, first, end);
    lemma_refresh_messages(middle, messages);
    lemma_refresh_concat(state, RefreshPhase::Members, first + end, second);
    lemma_refresh_concat(state, RefreshPhase::Members, first + end + second, end);
    assert(refresh_all(middle, RefreshPhase::Members, end) == (middle, RefreshPhase::Messages));
    assert(refresh_all(last, RefreshPhase::Messages, end) == (last, RefreshPhase::Done));
}

/// What cannot be read ends a filling, which then takes in nothing more.
pub proof fn error_ends_the_filling(state: StateView, phase: RefreshPhase, events: Seq<RefreshEvent>)
    requires
        phase !is Done,
        events.len() > 0,
        events[0] is Error || phase is Failed,
    ensures
        refresh_all(state, phase, events) == (state, RefreshPhase::Failed),
    decreases events.len(),
{
    let rest = events.skip(1);
    reveal_with_fuel(refresh_all, 2);
    if rest.len() > 0 {
        error_ends_the_filling(state, RefreshPhase::Failed, rest);
    }
}

/// A history leaves the introductions that there are as they are, and of the others the first
/// message of each author becomes the introduction.
pub proof fn history_keeps_first_introductions(
    state: StateView,
    messages: Seq<Message>,
    user: u64,
    first: int,
)
    requires
        0 <= first <= messages.len(),
        forall|i: int| 0 <= i < first ==> (#[trigger] messages[i])@.author != user,
        first < messages.len() ==> messages[first]@.author == user,
    ensures
        state.intros.contains_key(user) ==> after_history(state, messages).intros.contains_key(user)
            && after_history(state, messages).intros[user] == state.intros[user],
        !state.intros.contains_key(user) && first < messages.len() ==> after_history(
            state,
            messages,
        ).intros.contains_key(user) && after_history(state, messages).intros[user]
            == messages[first]@.id,
        !state.intros.contains_key(user) && first == messages.len() ==> !after_history(
            state,
            messages,
        ).intros.contains_key(user),
    decreases messages.len(),
{
    if messages.len() > 0 {
        let next = state.with_history(messages[0]@);
        let rest = messages.skip(1);
        if first > 0 {
            assert forall|i: int| 0 <= i < first - 1 implies (#[trigger] rest[i])@.author
                != user by {
                assert(rest[i] == messages[i + 1]);
            }
            history_keeps_first_introductions(next, rest, user, first - 1);
        } else {
            lemma_history_keeps_introduction(next, rest, user);
        }
    }
}

/// A history leaves an introduction as it is.
proof fn lemma_history_keeps_introduction(state: StateView, messages: Seq<Message>, user: u64)
    requires
        state.intros.contains_key(user),
    ensures
        after_history(state, messages).intros.contains_key(user),
        after_history(state, messages).intros[user] == state.intros[user],
    decreases messages.len(),
{
    if messages.len() > 0 {
        lemma_history_keeps_introduction(
            state.with_history(messages[0]@),
            messages.skip(1),
            user,
        );
    }
}

/// A history keeps each of its messages, as it was first seen.
pub proof fn history_keeps_its_messages(state: StateView, messages: Seq<Message>, first: int)
    requires
        0 <= first < messages.len(),
        !state.messages.contains_key(messages[first]@.id),
        forall|i: int| 0 <= i < first ==> (#[trigger] messages[i])@.id != messages[first]@.id,
    ensures
        after_history(state, messages).message(messages[first]@.id) == Some(messages[first]@),
    decreases messages.len(),
{
    let next = state.with_history(messages[0]@);
    let rest = messages.skip(1);
    if first > 0 {
        assert(rest[first - 1] == messages[first]);
        assert forall|i: int| 0 <= i < first - 1 implies (#[trigger] rest[i])@.id != rest[first
            - 1]@.id by {
            assert(rest[i] == messages[i + 1]);
        }
        history_keeps_its_messages(next, rest, first - 1);
    } else {
        lemma_history_keeps_message(next, rest, messages[0]@.id);
    }
}

/// A history leaves a message that is known as it is.
proof fn lemma_history_keeps_message(state: StateView, messages: Seq<Message>, id: u64)
    requires
        state.messages.contains_key(id),
    ensures
        after_history(state, messages).message(id) == state.message(id),
    decreases messages.len(),
{
    if messages.len() > 0 {
        lemma_history_keeps_message(state.with_history(messages[0]@), messages.skip(1), id);
    }
}

/// Once all members were learned, each is found by the display name, unless a later one took it or
/// the member got another since.
pub proof fn members_are_found_after_filling(
    state: StateView,
    members: Seq<Member>,
    which: int,
)
    requires
        0 <= which < members.len(),
        forall|i: int|
            which < i < members.len() ==> (#[trigger] members[i])@.user != members[which]@.user
                && crate::text::lowercase(members[i]@.display_name()) != crate::text::lowercase(
                members[which]@.display_name(),
            ),
    ensures
        crate::names::user_named(
            after_members(state, members).displaynames,
            crate::text::lowercase(members[which]@.display_name()),
        ) == Some(members[which]@.user),
    decreases members.len(),
{
    let next = state.with_user(members[0]@);
    let rest = members.skip(1);
    assert forall|i: int| 0 <= i < rest.len() implies #[trigger] rest[i] == members[i + 1] by {}
    if which > 0 {
        members_are_found_after_filling(next, rest, which - 1);
    } else {
        lemma_members_keep_name(
            next,
            rest,
            crate::text::lowercase(members[0]@.display_name()),
            members[0]@.user,
        );
    }
}

/// Learning of members who are other users and have other names leaves a name with its user.
proof fn lemma_members_keep_name(
    state: StateView,
    members: Seq<Member>,
    name: Seq<char>,
    user: u64,
)
    requires
        crate::names::is_name_of(state.displaynames, name, user),
        forall|i: int|
            0 <= i < members.len() ==> (#[trigger] members[i])@.user != user
                && crate::text::lowercase(members[i]@.display_name()) != name,
    ensures
        crate::names::is_name_of(after_members(state, members).displaynames, name, user),
    decreases members.len(),
{
    if members.len() > 0 {
        let rest = members.skip(1);
        assert(members[0]@.user != user);
        assert forall|i: int| 0 <= i < rest.len() implies (#[trigger] rest[i])@.user != user
            && crate::text::lowercase(rest[i]@.display_name()) != name by {
            assert(rest[i] == members[i + 1]);
        }
        lemma_members_keep_name(state.with_user(members[0]@), rest, name, user);
    }
}

// Requests.

/// How many steps a request has left at most.
pub open spec fn steps_left(phase: PhaseView) -> nat {
    match phase {
        PhaseView::Start => 5,
        PhaseView::AwaitingCached { .. } => 4,
        PhaseView::AwaitingFetched { .. } => 3,
        PhaseView::AwaitingEmbed { .. } => 2,
        PhaseView::AwaitingDelivery => 1,
        PhaseView::Finished => 0,
    }
}

/// Each step brings a request closer to its end, whatever happened.
pub proof fn requests_come_to_an_end(guilds: Guilds, phase: IntroPhase, event: IntroEvent)
    ensures
        phase@ != PhaseView::Finished ==> steps_left(
            crate::command::intro_step(guilds, phase, event).0,
        ) < steps_left(phase@),
        phase@ == PhaseView::Finished ==> crate::command::intro_step(guilds, phase, event) == (
            PhaseView::Finished,
            ActionView::Finish,
        ),
{
}

/// Nothing is left to do exactly when the request is finished, unless the server failed.
pub proof fn finished_requests_do_nothing(guilds: Guilds, phase: IntroPhase, event: IntroEvent)
    ensures
        crate::command::intro_step(guilds, phase, event).0 == PhaseView::Finished <==> (
        crate::command::intro_step(guilds, phase, event).1 == ActionView::Finish
            || crate::command::intro_step(guilds, phase, event).1 == ActionView::Fail),
{
}

/// A request without an argument, or one that mentions several users, is answered with an
/// explanation, wherever it was made.
pub proof fn bad_requests_are_explained(guilds: Guilds, request: IntroRequest)
    requires
        request.argument is None || request.mentions@.len() > 1,
    ensures
        crate::command::intro_step(guilds, IntroPhase::Start, IntroEvent::Request(request)).1
            == ActionView::Reply(crate::command::BAD_REQUEST@),
{
}

/// Of a request that mentions one user, the text does not matter.
pub proof fn mention_goes_before_text(guilds: Guilds, a: IntroRequest, b: IntroRequest)
    requires
        a.argument is Some,
        b.argument is Some,
        a.mentions == b.mentions,
        a.mentions@.len() == 1,
        a.guild == b.guild,
    ensures
        crate::command::request_step(guilds, a) == crate::command::request_step(guilds, b),
{
}

/// A plain message goes out only where an introduction was turned down for its length, and it
/// says the same as the introduction did: the name and the content.
pub proof fn plain_text_only_after_rejection(
    guilds: Guilds,
    phase: IntroPhase,
    event: IntroEvent,
    text: Seq<char>,
)
    requires
        crate::command::intro_step(guilds, phase, event).1 == ActionView::SendText(text),
    ensures
        phase matches IntroPhase::AwaitingEmbed { plain } && plain@ == text,
        event matches IntroEvent::EmbedSent(SendOutcome::Rejected(codes))
            && crate::command::is_too_long(codes@),
{
}

/// Whenever an introduction goes out, the plain message that is kept in case it is too long is the
/// title, in a line of its own, and the description.
pub proof fn plain_text_says_the_same(guilds: Guilds, phase: IntroPhase, event: IntroEvent)
    ensures
        crate::command::intro_step(guilds, phase, event) matches (
            next,
            ActionView::SendEmbed(embed),
        ) ==> next == (PhaseView::AwaitingEmbed {
            plain: embed.title + "\n"@ + embed.description,
        }),
{
    reveal_strlit("**");
    reveal_strlit("**\n");
    reveal_strlit("\n");
    assert("**\n"@ =~= "**"@ + "\n"@);
    match crate::command::intro_step(guilds, phase, event) {
        (PhaseView::AwaitingEmbed { plain }, ActionView::SendEmbed(embed)) => {
            assert(plain =~= embed.title + "\n"@ + embed.description);
        },
        _ => {},
    }
}

/// An introduction shows the message with which the user introduced themselves: its content, and
/// a link to it.
pub proof fn introduction_shows_the_message(state: StateView, user: UserView, message: MessageView)
    requires
        state.intro_message(user.id) == Some(message),
    ensures
        crate::command::introduce(state, user).1 matches ActionView::SendEmbed(embed)
            && embed.description == message.content && embed.field_value == message.link()
            && embed.thumbnail == user.avatar_url(),
{
}

/// A user without an introduction gets none, and the reply says so.
pub proof fn missing_introduction_is_reported(state: StateView, user: UserView)
    requires
        !state.intros.contains_key(user.id),
    ensures
        crate::command::introduce(state, user) == (
            PhaseView::AwaitingDelivery,
            ActionView::Reply("intro seems to have vanished for "@ + user.name),
        ),
{
}

/// What the bot is for: a member of a guild that is followed, who was not introduced before, posts
/// in the introductions channel. Whoever then asks for the member by display name, however its
/// letters are written, is shown that post, under that name, unless the text is the name of another
/// account.
pub proof fn members_post_is_found_by_display_name(
    guilds: Guilds,
    member: MemberView,
    post: Message,
    request: IntroRequest,
    phase: IntroPhase,
    found: User,
)
    requires
        crate::registry::guilds_wf(guilds),
        member.user == post@.author,
        post@.guild is Some,
        guilds.contains_key(post@.guild->0),
        guilds[post@.guild->0].intro_channel == post@.channel,
        !guilds[post@.guild->0].intros.contains_key(member.user),
        request.guild matches Some(guild) && guild@ == post@.guild->0,
        request.mentions@.len() == 0,
        request.argument matches Some(text) && crate::text::lowercase(text@)
            == crate::text::lowercase(member.display_name()) && {
            let names = guilds[post@.guild->0].with_user(member).usernames;
            names.contains_key(text@) ==> names[text@] == member.user
        },
        found@.id == member.user,
        phase@ == (PhaseView::AwaitingCached { guild: post@.guild->0, user: member.user }),
    ensures
        ({
            let learned = crate::registry::with_member(guilds, post@.guild->0, member);
            let after = crate::registry::after_event(learned, Event::MessageCreate(post));
            let first = crate::command::intro_step(
                after,
                IntroPhase::Start,
                IntroEvent::Request(request),
            );
            let second = crate::command::intro_step(
                after,
                phase,
                IntroEvent::Cached(Some(found)),
            );
            &&& first == (phase@, ActionView::LookUpCached(member.user))
            &&& second.1 matches ActionView::SendEmbed(embed)
            &&& embed.title == "**"@ + crate::text::lowercase(member.display_name()) + "**"@
            &&& embed.description == post@.content
            &&& embed.field_value == post@.link()
        }),
{
    let guild = post@.guild->0;
    let learned = crate::registry::with_member(guilds, guild, member);
    let after = crate::registry::after_event(learned, Event::MessageCreate(post));
    let known = guilds[guild].with_user(member);
    assert(after[guild] == known.with_intro(member.user, post@));
    member_is_found_by_display_name(guilds[guild], member, request.argument->0@);
    member_is_called_by_display_name(guilds[guild], member);
}

/// The same member, mentioned in a request, is shown with that post as well.
pub proof fn members_post_is_found_by_mention(
    guilds: Guilds,
    post: Message,
    request: IntroRequest,
)
    requires
        crate::registry::guilds_wf(guilds),
        post@.guild is Some,
        guilds.contains_key(post@.guild->0),
        guilds[post@.guild->0].intro_channel == post@.channel,
        !guilds[post@.guild->0].intros.contains_key(post@.author),
        request.guild matches Some(guild) && guild@ == post@.guild->0,
        request.argument is Some,
        request.mentions@.len() == 1,
        request.mentions@[0]@.id == post@.author,
    ensures
        crate::command::intro_step(
            crate::registry::after_event(guilds, Event::MessageCreate(post)),
            IntroPhase::Start,
            IntroEvent::Request(request),
        ).1 matches ActionView::SendEmbed(embed) && embed.description == post@.content
            && embed.field_value == post@.link(),
{
}

/// It does not matter whether a user was found in the cache or on the server.
pub proof fn cache_and_server_count_alike(
    guilds: Guilds,
    guild: GuildId,
    user: UserId,
    found: User,
)
    ensures
        crate::command::intro_step(
            guilds,
            IntroPhase::AwaitingCached { guild, user },
            IntroEvent::Cached(Some(found)),
        ) == crate::command::intro_step(
            guilds,
            IntroPhase::AwaitingFetched { guild, user },
            IntroEvent::Fetched(Some(found)),
        ),
{
}

// What each operation does, part by part.

/// A guild that was just found has its channel and its number, and nothing else is known of it.
pub proof fn fresh_guild_knows_nothing(channel: u64, guild: u64)
    ensures
        StateView::fresh(channel, guild).intro_channel == channel,
        StateView::fresh(channel, guild).guild == guild,
        forall|user: u64| !#[trigger] StateView::fresh(channel, guild).intros.contains_key(user),
        forall|id: u64| !#[trigger] StateView::fresh(channel, guild).messages.contains_key(id),
        forall|name: Seq<char>|
            !#[trigger] StateView::fresh(channel, guild).displaynames.contains_key(name),
        forall|name: Seq<char>|
            !#[trigger] StateView::fresh(channel, guild).usernames.contains_key(name),
{
}

/// Learning how a member is called gives them that display name, in small letters, and takes their
/// earlier one; every other display name stays. The names of accounts change in the same way for a
/// member without a discriminator, and not at all for one with it. Messages and introductions stay.
pub proof fn learning_a_name_changes_names_only(
    state: StateView,
    member: MemberView,
    name: Seq<char>,
)
    ensures
        ({
            let after = state.with_user(member);
            let shown = crate::text::lowercase(member.display_name());
            &&& after.intro_channel == state.intro_channel
            &&& after.guild == state.guild
            &&& after.intros == state.intros
            &&& after.messages == state.messages
            &&& after.displaynames.contains_key(shown)
            &&& after.displaynames[shown] == member.user
            &&& name != shown ==> (after.displaynames.contains_key(name)
                <==> state.displaynames.contains_key(name) && state.displaynames[name]
                != member.user)
            &&& name != shown && after.displaynames.contains_key(name) ==> after.displaynames[name]
                == state.displaynames[name]
            &&& member.discriminator is Some ==> after.usernames == state.usernames
            &&& member.discriminator is None ==> {
                &&& after.usernames.contains_key(member.name)
                &&& after.usernames[member.name] == member.user
                &&& name != member.name ==> (after.usernames.contains_key(name)
                    <==> state.usernames.contains_key(name) && state.usernames[name]
                    != member.user)
                &&& name != member.name && after.usernames.contains_key(name)
                    ==> after.usernames[name] == state.usernames[name]
            }
        }),
{
}

/// No message, whether new, edited or from the history, changes a name: whoever is found by a text
/// before is found by it after, and everybody goes on to be called as before.
pub proof fn messages_change_no_name(
    state: StateView,
    user: u64,
    message: MessageView,
    text: Seq<char>,
    who: u64,
)
    ensures
        state.with_history(message).displaynames == state.displaynames,
        state.with_history(message).usernames == state.usernames,
        state.with_history(message).intro_channel == state.intro_channel,
        state.with_history(message).guild == state.guild,
        state.with_history(message).user_by_string(text) == state.user_by_string(text),
        state.with_history(message).user_displayname(who) == state.user_displayname(who),
        state.with_intro(user, message).displaynames == state.displaynames,
        state.with_intro(user, message).usernames == state.usernames,
        state.with_intro(user, message).intro_channel == state.intro_channel,
        state.with_intro(user, message).guild == state.guild,
        state.with_intro(user, message).user_by_string(text) == state.user_by_string(text),
        state.with_intro(user, message).user_displayname(who) == state.user_displayname(who),
{
}

/// A message is kept under its number, and no other message changes. Of a new or edited one what
/// came last is kept, of one from the history what came first.
pub proof fn messages_are_kept_by_number(
    state: StateView,
    user: u64,
    message: MessageView,
    other: u64,
)
    requires
        other != message.id,
    ensures
        state.with_intro(user, message).messages.contains_key(message.id),
        state.with_intro(user, message).messages[message.id] == message,
        state.with_history(message).messages.contains_key(message.id),
        !state.messages.contains_key(message.id) ==> state.with_history(
            message,
        ).messages[message.id] == message,
        state.messages.contains_key(message.id) ==> state.with_history(
            message,
        ).messages[message.id] == state.messages[message.id],
        state.with_intro(user, message).messages.contains_key(other)
            == state.messages.contains_key(other),
        state.with_history(message).messages.contains_key(other) == state.messages.contains_key(
            other,
        ),
        state.messages.contains_key(other) ==> state.with_intro(user, message).messages[other]
            == state.messages[other],
        state.messages.contains_key(other) ==> state.with_history(message).messages[other]
            == state.messages[other],
{
}

/// A message introduces the user if nothing did before, and changes no other introduction. In the
/// history, the user is the author.
pub proof fn messages_introduce_at_most_one(
    state: StateView,
    user: u64,
    message: MessageView,
    other: u64,
)
    ensures
        state.with_intro(user, message).intros.contains_key(user),
        !state.intros.contains_key(user) ==> state.with_intro(user, message).intros[user]
            == message.id,
        state.with_history(message).intros.contains_key(message.author),
        !state.intros.contains_key(message.author) ==> state.with_history(
            message,
        ).intros[message.author] == message.id,
        other != user ==> state.with_intro(user, message).intros.contains_key(other)
            == state.intros.contains_key(other),
        other != message.author ==> state.with_history(message).intros.contains_key(other)
            == state.intros.contains_key(other),
        state.intros.contains_key(other) ==> state.with_intro(user, message).intros[other]
            == state.intros[other],
        state.intros.contains_key(other) ==> state.with_history(message).intros[other]
            == state.intros[other],
{
}

/// A text means the account of that name; where there is none, the user who is seen under it in
/// small letters; else nobody.
pub proof fn texts_mean_users(state: StateView, text: Seq<char>)
    ensures
        state.usernames.contains_key(text) ==> state.user_by_string(text) == Some(
            state.usernames[text],
        ),
        !state.usernames.contains_key(text) && state.displaynames.contains_key(
            crate::text::lowercase(text),
        ) ==> state.user_by_string(text) == Some(state.displaynames[crate::text::lowercase(text)]),
        !state.usernames.contains_key(text) && !state.displaynames.contains_key(
            crate::text::lowercase(text),
        ) ==> state.user_by_string(text) is None,
{
}

/// A user is called by their display name; where they have none, by the name of the account; one of
/// whom neither is known has no name.
pub proof fn users_are_called_by_their_names(state: StateView, user: u64, name: Seq<char>)
    requires
        state.wf(),
    ensures
        state.displaynames.contains_key(name) && state.displaynames[name] == user
            ==> state.user_displayname(user) == Some(name),
        (forall|n: Seq<char>| #[trigger]
            state.displaynames.contains_key(n) ==> state.displaynames[n] != user)
            && state.usernames.contains_key(name) && state.usernames[name] == user
            ==> state.user_displayname(user) == Some(name),
        (forall|n: Seq<char>| #[trigger]
            state.displaynames.contains_key(n) ==> state.displaynames[n] != user) && (forall|
            n: Seq<char>,
        | #[trigger]
            state.usernames.contains_key(n) ==> state.usernames[n] != user)
            ==> state.user_displayname(user) is None,
{
    crate::names::lookup_gives_the_name(state.displaynames, name, user);
    crate::names::lookup_gives_the_name(state.usernames, name, user);
}

/// The introduction of a user is the message whose number is noted for them.
pub proof fn introductions_are_messages(state: StateView, user: u64, id: u64)
    ensures
        state.intros.contains_key(user) && state.messages.contains_key(state.intros[user])
            ==> state.intro_message(user) == Some(state.messages[state.intros[user]]),
        !state.intros.contains_key(user) ==> state.intro_message(user) is None,
        state.messages.contains_key(id) ==> state.message(id) == Some(state.messages[id]),
        !state.messages.contains_key(id) ==> state.message(id) is None,
{
}

// What a filling leaves behind.

/// A history changes no name, however long it is, nor the channel of the guild.
pub proof fn histories_change_no_name(state: StateView, messages: Seq<Message>)
    ensures
        after_history(state, messages).displaynames == state.displaynames,
        after_history(state, messages).usernames == state.usernames,
        after_history(state, messages).intro_channel == state.intro_channel,
        after_history(state, messages).guild == state.guild,
    decreases messages.len(),
{
    if messages.len() > 0 {
        histories_change_no_name(state.with_history(messages[0]@), messages.skip(1));
    }
}

/// Members, however many are learned of, change no message and no introduction.
pub proof fn members_change_no_message(state: StateView, members: Seq<Member>)
    ensures
        after_members(state, members).messages == state.messages,
        after_members(state, members).intros == state.intros,
        after_members(state, members).intro_channel == state.intro_channel,
        after_members(state, members).guild == state.guild,
    decreases members.len(),
{
    if members.len() > 0 {
        members_change_no_message(state.with_user(members[0]@), members.skip(1));
    }
}

/// Learning of members leaves the name of an account with its user, unless another takes it or the
/// user takes another.
proof fn lemma_members_keep_account_name(
    state: StateView,
    members: Seq<Member>,
    name: Seq<char>,
    user: u64,
)
    requires
        state.usernames.contains_key(name),
        state.usernames[name] == user,
        forall|i: int|
            0 <= i < members.len() && (#[trigger] members[i])@.discriminator is None ==> (
            members[i]@.user == user <==> members[i]@.name == name),
    ensures
        after_members(state, members).usernames.contains_key(name),
        after_members(state, members).usernames[name] == user,
    decreases members.len(),
{
    if members.len() > 0 {
        let rest = members.skip(1);
        let next = state.with_user(members[0]@);
        assert forall|i: int|
            0 <= i < rest.len() && (#[trigger] rest[i])@.discriminator is None implies (
        rest[i]@.user == user <==> rest[i]@.name == name) by {
            assert(rest[i] == members[i + 1]);
        }
        assert(members[0]@.discriminator is None ==> (members[0]@.user == user
            <==> members[0]@.name == name));
        lemma_members_keep_account_name(next, rest, name, user);
    }
}

/// Learning of members leaves a display name with its user, unless another takes it or the user
/// takes another.
proof fn lemma_members_keep_display_name(
    state: StateView,
    members: Seq<Member>,
    name: Seq<char>,
    user: u64,
)
    requires
        state.displaynames.contains_key(name),
        state.displaynames[name] == user,
        forall|i: int|
            0 <= i < members.len() ==> ((#[trigger] members[i])@.user == user
                <==> crate::text::lowercase(members[i]@.display_name()) == name),
    ensures
        after_members(state, members).displaynames.contains_key(name),
        after_members(state, members).displaynames[name] == user,
    decreases members.len(),
{
    if members.len() > 0 {
        let rest = members.skip(1);
        let next = state.with_user(members[0]@);
        assert forall|i: int| 0 <= i < rest.len() implies ((#[trigger] rest[i])@.user == user
            <==> crate::text::lowercase(rest[i]@.display_name()) == name) by {
            assert(rest[i] == members[i + 1]);
        }
        assert(members[0]@.user == user <==> crate::text::lowercase(members[0]@.display_name())
            == name);
        lemma_members_keep_display_name(next, rest, name, user);
    }
}

/// The members up to one, that one, and those behind it.
proof fn lemma_members_in_parts(state: StateView, members: Seq<Member>, which: int)
    requires
        0 <= which < members.len(),
    ensures
        after_members(state, members) == after_members(
            after_members(state, members.take(which)).with_user(members[which]@),
            members.skip(which + 1),
        ),
    decreases which,
{
    let next = state.with_user(members[0]@);
    let rest = members.skip(1);
    if which > 0 {
        lemma_members_in_parts(next, rest, which - 1);
        assert(members.take(which).skip(1) =~= rest.take(which - 1));
        assert(rest.skip(which) =~= members.skip(which + 1));
        assert(members.take(which)[0] == members[0]);
    } else {
        assert(members.take(0) =~= Seq::<Member>::empty());
    }
}

/// Once a guild was filled, each member whose account is identified by its name alone is found by
/// that name, unless a later member took it or a later entry of the member had another.
pub proof fn filled_guild_finds_account_names(
    state: StateView,
    members: Seq<Member>,
    messages: Seq<Message>,
    which: int,
)
    requires
        0 <= which < members.len(),
        members[which].discriminator is None,
        forall|i: int|
            which < i < members.len() && (#[trigger] members[i]).discriminator is None ==> (
            members[i].user@ == members[which].user@ <==> members[i].name@ == members[which].name@),
    ensures
        refresh_all(
            state,
            RefreshPhase::Members,
            complete_filling(members, messages),
        ).0.user_by_string(members[which].name@) == Some(members[which].user@),
{
    let member = members[which]@;
    let later = members.skip(which + 1);
    let before = after_members(state, members.take(which));
    filling_takes_everything_in(state, members, messages);
    histories_change_no_name(after_members(state, members), messages);
    lemma_members_in_parts(state, members, which);
    assert forall|i: int|
        0 <= i < later.len() && (#[trigger] later[i])@.discriminator is None implies (
    later[i]@.user == member.user <==> later[i]@.name == member.name) by {
        assert(later[i] == members[which + 1 + i]);
    }
    lemma_members_keep_account_name(before.with_user(member), later, member.name, member.user);
}

/// Once a guild was filled, each member is found by the display name, however its letters are
/// written, unless a later member took it, a later entry of the member had another, or the text is
/// the name of another account. The bot then calls the member by it.
pub proof fn filled_guild_finds_display_names(
    state: StateView,
    members: Seq<Member>,
    messages: Seq<Message>,
    which: int,
    text: Seq<char>,
)
    requires
        0 <= which < members.len(),
        crate::text::lowercase(text) == crate::text::lowercase(members[which]@.display_name()),
        forall|i: int|
            which < i < members.len() ==> ((#[trigger] members[i]).user@ == members[which].user@
                <==> crate::text::lowercase(members[i]@.display_name()) == crate::text::lowercase(
                members[which]@.display_name(),
            )),
    ensures
        ({
            let filled = refresh_all(
                state,
                RefreshPhase::Members,
                complete_filling(members, messages),
            ).0;
            &&& (filled.usernames.contains_key(text) ==> filled.usernames[text]
                == members[which].user@) ==> filled.user_by_string(text) == Some(
                members[which].user@,
            )
            &&& filled.displaynames.contains_key(crate::text::lowercase(text))
            &&& filled.displaynames[crate::text::lowercase(text)] == members[which].user@
        }),
{
    let member = members[which]@;
    let name = crate::text::lowercase(member.display_name());
    let later = members.skip(which + 1);
    let before = after_members(state, members.take(which));
    filling_takes_everything_in(state, members, messages);
    histories_change_no_name(after_members(state, members), messages);
    lemma_members_in_parts(state, members, which);
    assert forall|i: int| 0 <= i < later.len() implies ((#[trigger] later[i])@.user == member.user
        <==> crate::text::lowercase(later[i]@.display_name()) == name) by {
        assert(later[i] == members[which + 1 + i]);
    }
    lemma_members_keep_display_name(before.with_user(member), later, name, member.user);
}

/// Once a guild was filled, the introduction of each author who had none is the first of their
/// messages, as it was read.
pub proof fn filled_guild_shows_first_messages(
    state: StateView,
    members: Seq<Member>,
    messages: Seq<Message>,
    first: int,
)
    requires
        0 <= first < messages.len(),
        !state.intros.contains_key(messages[first].author@),
        !state.messages.contains_key(messages[first].id@),
        forall|i: int|
            0 <= i < first ==> (#[trigger] messages[i]).author@ != messages[first].author@
                && messages[i].id@ != messages[first].id@,
    ensures
        ({
            let shown = refresh_all(
                state,
                RefreshPhase::Members,
                complete_filling(members, messages),
            ).0.intro_message(messages[first].author@);
            &&& shown is Some
            &&& shown->0.id == messages[first].id@
            &&& shown->0.channel == messages[first].channel@
            &&& shown->0.author == messages[first].author@
            &&& shown->0.content == messages[first].content@
        }),
{
    let known = after_members(state, members);
    let user = messages[first]@.author;
    filling_takes_everything_in(state, members, messages);
    members_change_no_message(state, members);
    assert forall|i: int| 0 <= i < first implies (#[trigger] messages[i])@.author != user
        && messages[i]@.id != messages[first]@.id by {
        assert(messages[i].author@ != messages[first].author@);
    }
    history_keeps_first_introductions(known, messages, user, first);
    history_keeps_its_messages(known, messages, first);
}

/// The steps of a filling: members until they end, then messages until they end. What was not asked
/// for, or could not be read, fails it; one that is done stays done, one that failed stays failed.
pub proof fn filling_goes_step_by_step(state: StateView, phase: RefreshPhase, event: RefreshEvent)
    ensures
        ({
            let next = crate::refresh::refresh_step(state, phase, event);
            &&& phase is Members && event is Member ==> next.1 is Members
            &&& phase is Members && event is End ==> next == (state, RefreshPhase::Messages)
            &&& phase is Members && (event is Message || event is Error) ==> next == (
                state,
                RefreshPhase::Failed,
            )
            &&& phase is Messages && event is Message ==> next.1 is Messages
            &&& phase is Messages && event is End ==> next == (state, RefreshPhase::Done)
            &&& phase is Messages && (event is Member || event is Error) ==> next == (
                state,
                RefreshPhase::Failed,
            )
            &&& phase is Done ==> next == (state, RefreshPhase::Done)
            &&& phase is Failed ==> next == (state, RefreshPhase::Failed)
        }),
{
}

// What each event does.

/// Whether the general cache takes an event in, and what is to be done then, depends on the kind of
/// event alone, but for an edit: one of a message that is not at hand is reported.
pub proof fn each_event_has_its_action(guilds: Guilds, event: Event)
    ensures
        ({
            let action = crate::registry::event_action(guilds, event);
            &&& event is MessageCreate || event is MessageDelete || event is Other ==> action
                == EventAction::Nothing
            &&& event is ChannelCreate || event is ChannelDelete || event is ChannelPinsUpdate
                || event is ChannelUpdate || event is GuildCreate || event is GuildDelete || event
                is GuildEmojisUpdate || event is GuildMemberRemove || event is GuildMembersChunk
                || event is GuildUpdate || event is PresenceUpdate || event is PresencesReplace
                || event is UserUpdate ==> action == EventAction::UpdateCache
            &&& event matches Event::GuildMemberAdd(guild) ==> action
                == EventAction::UpdateCacheThenOwnMember(guild)
            &&& event matches Event::GuildMemberUpdate(guild) ==> action
                == EventAction::UpdateCacheThenCachedMember(guild)
            &&& event matches Event::MessageUpdate(update) ==> {
                let unseen = !guilds.contains_key(update.guild->0@)
                    || !guilds[update.guild->0@].messages.contains_key(update.id@);
                &&& update.author is None || update.guild is None ==> action
                    == EventAction::Nothing
                &&& update.author is Some && update.guild is Some && unseen ==> action
                    == EventAction::NoOriginal
                &&& update.author is Some && update.guild is Some && !unseen ==> action
                    == EventAction::Nothing
            }
        }),
{
}

/// An event that is neither a message nor an edit changes nothing that is known.
pub proof fn other_events_change_nothing(guilds: Guilds, event: Event)
    requires
        !(event is MessageCreate),
        !(event is MessageUpdate),
    ensures
        crate::registry::after_event(guilds, event) == guilds,
{
}

/// A new message that stands outside of the introductions channels changes nothing.
pub proof fn messages_elsewhere_change_nothing(guilds: Guilds, message: Message)
    requires
        message.guild matches Some(guild) ==> !guilds.contains_key(guild@)
            || guilds[guild@].intro_channel != message.channel@,
    ensures
        crate::registry::after_event(guilds, Event::MessageCreate(message)) == guilds,
{
}

/// A new message in the introductions channel of a guild that is followed is kept there, whatever
/// its content, and introduces its author unless another message does. No other message and no name
/// changes.
pub proof fn new_messages_are_kept(guilds: Guilds, message: Message, guild: GuildId, other: u64)
    requires
        other != message.id@,
        message.guild == Some(guild),
        guilds.contains_key(guild@),
        guilds[guild@].intro_channel == message.channel@,
    ensures
        ({
            let before = guilds[guild@];
            let after = crate::registry::after_event(guilds, Event::MessageCreate(message))[guild@];
            let kept = after.messages[message.id@];
            &&& after.messages.contains_key(message.id@)
            &&& kept.id == message.id@
            &&& kept.channel == message.channel@
            &&& kept.guild == Some(guild@)
            &&& kept.author == message.author@
            &&& kept.content == message.content@
            &&& after.messages.contains_key(other) == before.messages.contains_key(other)
            &&& before.messages.contains_key(other) ==> after.messages[other]
                == before.messages[other]
            &&& before.intros.contains_key(message.author@) ==> after.intros == before.intros
            &&& !before.intros.contains_key(message.author@) ==> after.intros
                == before.intros.insert(message.author@, message.id@)
            &&& after.displaynames == before.displaynames
            &&& after.usernames == before.usernames
            &&& after.intro_channel == before.intro_channel
            &&& after.guild == before.guild
        }),
{
}

/// An edit of the message that introduces a user, by whoever is named as its author: the
/// introduction then has the content that the edit brings, whatever it was before, and the old one
/// where the edit brings none. Where it stands is what the edit says.
pub proof fn edited_introduction_has_the_new_content(
    guilds: Guilds,
    update: MessageUpdate,
    guild: GuildId,
    author: UserId,
    user: u64,
)
    requires
        guilds.contains_key(guild@),
        guilds[guild@].intros.contains_key(user),
        guilds[guild@].intros[user] == update.id@,
        guilds[guild@].messages.contains_key(update.id@),
        guilds[guild@].intro_channel == update.channel@,
        update.guild == Some(guild),
        update.author == Some(author),
    ensures
        ({
            let before = guilds[guild@].messages[update.id@];
            let after = crate::registry::after_event(guilds, Event::MessageUpdate(update))[guild@];
            let shown = after.intro_message(user);
            &&& shown is Some
            &&& update.content matches Some(content) ==> shown->0.content == content@
            &&& update.content is None ==> shown->0.content == before.content
            &&& shown->0.id == update.id@
            &&& shown->0.channel == update.channel@
            &&& shown->0.guild == Some(guild@)
            &&& shown->0.author == author@
        }),
{
}

/// An edit of any message that is at hand, in the introductions channel: the message has what the
/// edit says, no other message and no name changes, and the author is introduced if they were not.
pub proof fn edits_change_one_message(
    guilds: Guilds,
    update: MessageUpdate,
    guild: GuildId,
    author: UserId,
    other: u64,
)
    requires
        guilds.contains_key(guild@),
        guilds[guild@].messages.contains_key(update.id@),
        guilds[guild@].intro_channel == update.channel@,
        update.guild == Some(guild),
        update.author == Some(author),
        other != update.id@,
    ensures
        ({
            let before = guilds[guild@];
            let after = crate::registry::after_event(guilds, Event::MessageUpdate(update))[guild@];
            let kept = after.messages[update.id@];
            &&& after.messages.contains_key(update.id@)
            &&& kept.id == update.id@
            &&& kept.channel == update.channel@
            &&& kept.guild == Some(guild@)
            &&& kept.author == author@
            &&& update.content matches Some(content) ==> kept.content == content@
            &&& update.content is None ==> kept.content == before.messages[update.id@].content
            &&& after.messages.contains_key(other) == before.messages.contains_key(other)
            &&& before.messages.contains_key(other) ==> after.messages[other]
                == before.messages[other]
            &&& before.intros.contains_key(author@) ==> after.intros == before.intros
            &&& !before.intros.contains_key(author@) ==> after.intros == before.intros.insert(
                author@,
                update.id@,
            )
            &&& after.displaynames == before.displaynames
            &&& after.usernames == before.usernames
            &&& after.intro_channel == before.intro_channel
            &&& after.guild == before.guild
        }),
{
}

/// An edit without an author or a guild, of a message that is not at hand, or outside of the
/// introductions channel changes nothing.
pub proof fn edits_elsewhere_change_nothing(guilds: Guilds, update: MessageUpdate)
    requires
        update.author is Some ==> (update.guild matches Some(guild) ==> !guilds.contains_key(guild@)
            || !guilds[guild@].messages.contains_key(update.id@) || guilds[guild@].intro_channel
            != update.channel@),
    ensures
        crate::registry::after_event(guilds, Event::MessageUpdate(update)) == guilds,
{
}

/// A guild that begins to be followed has the given channel and nothing known of it, and no other
/// guild changes.
pub proof fn following_adds_one_guild(guilds: Guilds, guild: u64, channel: u64, other: u64)
    requires
        !guilds.contains_key(guild),
        other != guild,
    ensures
        ({
            let after = crate::registry::with_guild(guilds, guild, channel);
            &&& after.contains_key(guild)
            &&& after[guild].intro_channel == channel
            &&& after[guild].guild == guild
            &&& after[guild].intros == Map::<u64, u64>::empty()
            &&& after[guild].messages == Map::<u64, MessageView>::empty()
            &&& after[guild].displaynames == Map::<Seq<char>, u64>::empty()
            &&& after[guild].usernames == Map::<Seq<char>, u64>::empty()
            &&& after.contains_key(other) == guilds.contains_key(other)
            &&& guilds.contains_key(other) ==> after[other] == guilds[other]
        }),
{
}

/// The first channel that a list gives for a guild that was not followed is the one it is followed
/// with.
pub proof fn first_channel_of_a_list_counts(guilds: Guilds, list: Seq<(u64, u64)>, first: int)
    requires
        0 <= first < list.len(),
        !guilds.contains_key(list[first].0),
        forall|i: int| 0 <= i < first ==> (#[trigger] list[i]).0 != list[first].0,
    ensures
        crate::registry::with_guilds(guilds, list).contains_key(list[first].0),
        crate::registry::with_guilds(guilds, list)[list[first].0].intro_channel == list[first].1,
        crate::registry::with_guilds(guilds, list)[list[first].0].guild == list[first].0,
        exists|k: int|
            0 <= k < crate::registry::newly_followed(guilds, list).len()
                && #[trigger] crate::registry::newly_followed(guilds, list)[k] == list[first],
    decreases list.len(),
{
    let init = list.drop_last();
    let new = crate::registry::newly_followed(guilds, list);
    if first < init.len() {
        assert(init[first] == list[first]);
        assert forall|i: int| 0 <= i < first implies (#[trigger] init[i]).0 != init[first].0 by {
            assert(init[i] == list[i]);
        }
        first_channel_of_a_list_counts(guilds, init, first);
        let earlier = crate::registry::newly_followed(guilds, init);
        let k = choose|k: int| 0 <= k < earlier.len() && #[trigger] earlier[k] == list[first];
        assert(new[k] == earlier[k]);
    } else {
        assert forall|i: int| 0 <= i < init.len() implies (#[trigger] init[i]).0
            != list[first].0 by {
            assert(init[i] == list[i]);
        }
        unlisted_guilds_are_not_followed(guilds, init, list[first].0);
        assert(new[new.len() - 1] == list[first]);
    }
}

/// A guild that is not on a list is followed afterwards exactly if it was before.
pub proof fn unlisted_guilds_are_not_followed(guilds: Guilds, list: Seq<(u64, u64)>, guild: u64)
    requires
        forall|i: int| 0 <= i < list.len() ==> (#[trigger] list[i]).0 != guild,
    ensures
        crate::registry::with_guilds(guilds, list).contains_key(guild) == guilds.contains_key(
            guild,
        ),
    decreases list.len(),
{
    if list.len() > 0 {
        let init = list.drop_last();
        assert forall|i: int| 0 <= i < init.len() implies (#[trigger] init[i]).0 != guild by {
            assert(init[i] == list[i]);
        }
        assert(list[list.len() - 1].0 != guild);
        unlisted_guilds_are_not_followed(guilds, init, guild);
    }
}

/// What is learned of a member concerns the guild alone in which it was learned, if it is followed.
pub proof fn members_belong_to_one_guild(
    guilds: Guilds,
    guild: u64,
    member: MemberView,
    other: u64,
)
    requires
        other != guild,
    ensures
        ({
            let after = crate::registry::with_member(guilds, guild, member);
            &&& !guilds.contains_key(guild) ==> after == guilds
            &&& guilds.contains_key(guild) ==> {
                &&& after.contains_key(guild)
                &&& after[guild] == guilds[guild].with_user(member)
                &&& after[guild].displaynames.contains_key(
                    crate::text::lowercase(member.display_name()),
                )
                &&& after[guild].displaynames[crate::text::lowercase(member.display_name())]
                    == member.user
                &&& after[guild].messages == guilds[guild].messages
                &&& after[guild].intros == guilds[guild].intros
                &&& after[guild].intro_channel == guilds[guild].intro_channel
                &&& after[guild].guild == guilds[guild].guild
            }
            &&& after.contains_key(other) == guilds.contains_key(other)
            &&& guilds.contains_key(other) ==> after[other] == guilds[other]
        }),
{
}

/// An edit that is announced makes a guild known that was not, under the smallest numbers and with
/// nothing in it, and changes no other; one without a guild, or in a guild that is known, changes
/// nothing.
pub proof fn announcements_add_at_most_one_guild(guilds: Guilds, guild: u64, other: u64)
    requires
        other != guild,
    ensures
        crate::registry::with_announced_edit(guilds, None) == guilds,
        guilds.contains_key(guild) ==> crate::registry::with_announced_edit(guilds, Some(guild))
            == guilds,
        !guilds.contains_key(guild) ==> ({
            let after = crate::registry::with_announced_edit(guilds, Some(guild));
            &&& after.contains_key(guild)
            &&& after[guild].intro_channel == 1
            &&& after[guild].guild == 1
            &&& after[guild].intros == Map::<u64, u64>::empty()
            &&& after[guild].messages == Map::<u64, MessageView>::empty()
            &&& after[guild].displaynames == Map::<Seq<char>, u64>::empty()
            &&& after[guild].usernames == Map::<Seq<char>, u64>::empty()
            &&& after.contains_key(other) == guilds.contains_key(other)
            &&& guilds.contains_key(other) ==> after[other] == guilds[other]
        }),
{
}

// What each step of a request does.

/// An introduction that was turned down goes out as plain text if any of the codes, at whatever
/// place, says that it is too long.
pub proof fn too_long_introduction_goes_out_as_text(
    guilds: Guilds,
    plain: String,
    codes: Vec<String>,
    k: int,
)
    requires
        0 <= k < codes@.len(),
        codes@[k]@ == "BASE_TYPE_MAX_LENGTH"@,
    ensures
        crate::command::intro_step(
            guilds,
            IntroPhase::AwaitingEmbed { plain },
            IntroEvent::EmbedSent(SendOutcome::Rejected(codes)),
        ) == (PhaseView::AwaitingDelivery, ActionView::SendText(plain@)),
{
}

/// An introduction that was turned down for other reasons alone is given up, and so is one that
/// could not be sent; one that was sent is done with.
pub proof fn other_introductions_end_with_the_embed(
    guilds: Guilds,
    plain: String,
    codes: Vec<String>,
)
    requires
        forall|k: int|
            0 <= k < codes@.len() ==> (#[trigger] codes@[k])@ != "BASE_TYPE_MAX_LENGTH"@,
    ensures
        crate::command::intro_step(
            guilds,
            IntroPhase::AwaitingEmbed { plain },
            IntroEvent::EmbedSent(SendOutcome::Rejected(codes)),
        ) == (PhaseView::Finished, ActionView::Finish),
        crate::command::intro_step(
            guilds,
            IntroPhase::AwaitingEmbed { plain },
            IntroEvent::EmbedSent(SendOutcome::Sent),
        ) == (PhaseView::Finished, ActionView::Finish),
        crate::command::intro_step(
            guilds,
            IntroPhase::AwaitingEmbed { plain },
            IntroEvent::EmbedSent(SendOutcome::Failed),
        ) == (PhaseView::Finished, ActionView::Finish),
{
}

/// A request that names nobody, or mentions several users, is told what is wanted.
pub proof fn bad_requests_are_told_what_is_wanted(guilds: Guilds, request: IntroRequest)
    requires
        request.argument is None || request.mentions@.len() > 1,
    ensures
        crate::command::intro_step(guilds, IntroPhase::Start, IntroEvent::Request(request)) == (
            PhaseView::AwaitingDelivery,
            ActionView::Reply(
                "error: !intro requires an argument (a @user or display name)"@,
            ),
        ),
{
}

/// A request from outside of the guilds that are followed is dropped.
pub proof fn requests_from_elsewhere_are_dropped(guilds: Guilds, request: IntroRequest)
    requires
        request.argument is Some,
        request.mentions@.len() <= 1,
        request.guild matches Some(guild) ==> !guilds.contains_key(guild@),
    ensures
        crate::command::intro_step(guilds, IntroPhase::Start, IntroEvent::Request(request)) == (
            PhaseView::Finished,
            ActionView::Finish,
        ),
{
}

/// A text that is the name of an account, or else in small letters a display name, is looked up;
/// any other text is answered that nobody has it.
pub proof fn texts_are_looked_up(
    guilds: Guilds,
    request: IntroRequest,
    text: String,
    guild: GuildId,
)
    requires
        request.argument == Some(text),
        request.mentions@.len() == 0,
        request.guild == Some(guild),
        guilds.contains_key(guild@),
    ensures
        ({
            let state = guilds[guild@];
            let lower = crate::text::lowercase(text@);
            let step = crate::command::intro_step(
                guilds,
                IntroPhase::Start,
                IntroEvent::Request(request),
            );
            &&& state.usernames.contains_key(text@) ==> step == (
                PhaseView::AwaitingCached { guild: guild@, user: state.usernames[text@] },
                ActionView::LookUpCached(state.usernames[text@]),
            )
            &&& !state.usernames.contains_key(text@) && state.displaynames.contains_key(lower)
                ==> step == (
                PhaseView::AwaitingCached { guild: guild@, user: state.displaynames[lower] },
                ActionView::LookUpCached(state.displaynames[lower]),
            )
            &&& !state.usernames.contains_key(text@) && !state.displaynames.contains_key(lower)
                ==> step == (
                PhaseView::AwaitingDelivery,
                ActionView::Reply("no user with display name "@ + text@),
            )
        }),
{
}

/// A user who is mentioned, or was found in the cache or on the server, is introduced as the guild
/// knows them at that time; in a guild that is no longer followed, nothing is done.
pub proof fn found_users_are_introduced(
    guilds: Guilds,
    request: IntroRequest,
    guild: GuildId,
    user: UserId,
    found: User,
)
    requires
        request.argument is Some,
        request.mentions@ == seq![found],
        request.guild == Some(guild),
    ensures
        ({
            let mentioned = crate::command::intro_step(
                guilds,
                IntroPhase::Start,
                IntroEvent::Request(request),
            );
            let cached = crate::command::intro_step(
                guilds,
                IntroPhase::AwaitingCached { guild, user },
                IntroEvent::Cached(Some(found)),
            );
            let fetched = crate::command::intro_step(
                guilds,
                IntroPhase::AwaitingFetched { guild, user },
                IntroEvent::Fetched(Some(found)),
            );
            &&& mentioned == cached
            &&& cached == fetched
            &&& guilds.contains_key(guild@) ==> cached == crate::command::introduce(
                guilds[guild@],
                found@,
            )
            &&& !guilds.contains_key(guild@) ==> cached == (
                PhaseView::Finished,
                ActionView::Finish,
            )
        }),
{
}

/// A user whom the cache does not know is asked for on the server; where the server does not answer,
/// that is reported.
pub proof fn unknown_users_are_fetched(guilds: Guilds, guild: GuildId, user: UserId)
    ensures
        crate::command::intro_step(
            guilds,
            IntroPhase::AwaitingCached { guild, user },
            IntroEvent::Cached(None),
        ) == (
            PhaseView::AwaitingFetched { guild: guild@, user: user@ },
            ActionView::FetchUser(user@),
        ),
        crate::command::intro_step(
            guilds,
            IntroPhase::AwaitingFetched { guild, user },
            IntroEvent::Fetched(None),
        ) == (PhaseView::Finished, ActionView::Fail),
{
}

/// What was not waited for ends a request, and so does the delivery of its last message.
pub proof fn unexpected_events_end_a_request(guilds: Guilds, phase: IntroPhase, event: IntroEvent)
    requires
        !(phase is Start && event is Request),
        !(phase is AwaitingCached && event is Cached),
        !(phase is AwaitingFetched && event is Fetched),
        !(phase is AwaitingEmbed && event is EmbedSent),
    ensures
        crate::command::intro_step(guilds, phase, event) == (
            PhaseView::Finished,
            ActionView::Finish,
        ),
{
}

/// The introduction of a user has a title in bold, in one colour, the content of the message as it
/// is, a field without a name that links to the message, and the picture of the user, if there is
/// one. The plain text is the title, a line break and the content. A user without an introduction
/// is reported by the name of the account.
pub proof fn introductions_have_their_parts(state: StateView, user: UserView, nick: Seq<char>)
    requires
        state.wf(),
        ({
            ||| state.displaynames.contains_key(nick) && state.displaynames[nick] == user.id
            ||| (forall|n: Seq<char>| #[trigger]
                state.displaynames.contains_key(n) ==> state.displaynames[n] != user.id)
                && state.usernames.contains_key(nick) && state.usernames[nick] == user.id
            ||| (forall|n: Seq<char>| #[trigger]
                state.displaynames.contains_key(n) ==> state.displaynames[n] != user.id) && (forall|
                n: Seq<char>,
            | #[trigger]
                state.usernames.contains_key(n) ==> state.usernames[n] != user.id) && nick
                == user.name
        }),
    ensures
        state.intros.contains_key(user.id) ==> ({
            let message = state.messages[state.intros[user.id]];
            let step = crate::command::introduce(state, user);
            &&& step.0 == (PhaseView::AwaitingEmbed {
                plain: "**"@ + nick + "**\n"@ + message.content,
            })
            &&& step.1 matches ActionView::SendEmbed(embed)
            &&& embed.title == "**"@ + nick + "**"@
            &&& embed.colour == 0x7598ff
            &&& embed.description == message.content
            &&& embed.field_name.len() == 0
            &&& embed.field_value == crate::links::message_link(
                message.id,
                message.channel,
                message.guild,
            )
            &&& embed.field_inline
            &&& user.avatar matches Some(hash) ==> embed.thumbnail == Some(
                crate::links::avatar_link(user.id, hash),
            )
            &&& user.avatar is None ==> embed.thumbnail is None
        }),
        !state.intros.contains_key(user.id) ==> crate::command::introduce(state, user) == (
            PhaseView::AwaitingDelivery,
            ActionView::Reply("intro seems to have vanished for "@ + user.name),
        ),
{
    users_are_called_by_their_names(state, user.id, nick);
}

/// The help names the command, what it takes, and how to see the help again.
pub proof fn help_is_as_announced()
    ensures
        crate::command::USAGE@
            == "Usage:\n!intro <username>   - reply with the introduction post for the mentioned user. Accepted formats for the user are a mention ('@user'), or the user's chosen display name.\n@introbot usage     - this message\n"@,
{
}

/// Whoever mentions the bot in a message that ends with `usage` gets the help, whatever stands before
/// it; the bot itself does not, nor does anyone whose message does not mention it, ends otherwise, or
/// of which it could not be found out whom it mentions.
pub proof fn help_goes_to_those_who_ask(author: u64, me: u64, before: Seq<char>, other: Seq<char>)
    requires
        forall|front: Seq<char>| other != #[trigger] (front + "usage"@),
    ensures
        author != me ==> crate::command::help_for(author, me, Some(true), before + "usage"@)
            == Some(crate::command::USAGE@),
        crate::command::help_for(me, me, Some(true), before + "usage"@) is None,
        crate::command::help_for(author, me, Some(false), before + "usage"@) is None,
        crate::command::help_for(author, me, None, before + "usage"@) is None,
        crate::command::help_for(author, me, Some(true), other) is None,
{
    crate::text::suffix_is_what_stands_last(other, before, "usage"@);
}

/// The general cache takes an edit in where it is one of the introductions channel: that of a guild
/// that is followed, or else the channel with the smallest number.
pub proof fn edits_are_cached_by_channel(guilds: Guilds, guild: u64, channel: u64)
    ensures
        !crate::registry::edit_is_cached(guilds, None, channel),
        guilds.contains_key(guild) ==> (crate::registry::edit_is_cached(
            guilds,
            Some(guild),
            channel,
        ) <==> channel == guilds[guild].intro_channel),
        !guilds.contains_key(guild) ==> (crate::registry::edit_is_cached(
            guilds,
            Some(guild),
            channel,
        ) <==> channel == 1),
{
}

/// A message is at hand for a guild exactly if the guild is followed and keeps it.
pub proof fn kept_messages_are_found(guilds: Guilds, guild: u64, id: u64)
    ensures
        guilds.contains_key(guild) && guilds[guild].messages.contains_key(id)
            ==> crate::registry::kept_message(guilds, guild, id) == Some(
            guilds[guild].messages[id],
        ),
        !guilds.contains_key(guild) || !guilds[guild].messages.contains_key(id)
            ==> crate::registry::kept_message(guilds, guild, id) is None,
{
}

/// The new guilds come in the order of the list: one more on the list comes last, if it is new.
pub proof fn new_guilds_keep_their_order(
    guilds: Guilds,
    list: Seq<(u64, u64)>,
    guild: u64,
    channel: u64,
)
    ensures
        crate::registry::newly_followed(guilds, Seq::empty()).len() == 0,
        guilds.contains_key(guild) || (exists|i: int|
            0 <= i < list.len() && (#[trigger] list[i]).0 == guild)
            ==> crate::registry::newly_followed(guilds, list.push((guild, channel)))
            == crate::registry::newly_followed(guilds, list),
        !guilds.contains_key(guild) && (forall|i: int|
            0 <= i < list.len() ==> (#[trigger] list[i]).0 != guild)
            ==> crate::registry::newly_followed(guilds, list.push((guild, channel)))
            == crate::registry::newly_followed(guilds, list).push((guild, channel)),
{
    let longer = list.push((guild, channel));
    assert(longer.drop_last() =~= list);
    listed_guilds_are_followed(guilds, list);
    if !guilds.contains_key(guild) && (forall|i: int|
        0 <= i < list.len() ==> (#[trigger] list[i]).0 != guild) {
        unlisted_guilds_are_not_followed(guilds, list, guild);
    }
}

/// What is inside an option is what contracts see of it.
pub proof fn options_hold_what_they_hold(
    text: String,
    message: Message,
    user: UserId,
    guild: GuildId,
)
    ensures
        crate::text::text_of(Some(text)) == Some(text@),
        crate::text::text_of(None) is None,
        crate::state::message_of(Some(message)) == Some(message@),
        crate::state::message_of(None) is None,
        crate::state::user_of(Some(user)) == Some(user@),
        crate::state::user_of(None) is None,
        crate::ids::guild_number(Some(guild)) == Some(guild@),
        crate::ids::guild_number(None) is None,
{
}

} // verus!
