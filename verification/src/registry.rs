//! The guilds that the bot follows, and how events change what is known of them.

use std::collections::hash_map::Entry;
use std::collections::HashMap;

use vstd::prelude::*;

use crate::discovery::{find_intro_channel, ChannelError, ChannelInfo};
use crate::ids::{ChannelId, GuildId, MessageId, UserId};
use crate::model::{Member, Message, MessageUpdate};
use crate::refresh::{RefreshEvent, RefreshPhase};
use crate::state::IntroState;

verus! {

broadcast use vstd::std_specs::hash::group_hash_axioms;

/// The guilds that the bot follows.
#[derive(Debug)]
pub struct Registry {
    guilds: HashMap<u64, IntroState>,
}

/// What is known of each guild, in contracts.
pub type Guilds = Map<u64, crate::state::StateView>;

/// `true` when what always holds of a guild holds of each.
pub open spec fn guilds_wf(guilds: Guilds) -> bool {
    forall|guild: u64| #[trigger] guilds.contains_key(guild) ==> guilds[guild].wf()
}

/// The guilds after one was asked to be followed: one that is followed already stays as it is.
pub open spec fn with_guild(guilds: Guilds, guild: u64, channel: u64) -> Guilds {
    if guilds.contains_key(guild) {
        guilds
    } else {
        guilds.insert(guild, crate::state::StateView::fresh(channel, guild))
    }
}

/// The guilds after several were asked to be followed, one after the other.
pub open spec fn with_guilds(guilds: Guilds, list: Seq<(u64, u64)>) -> Guilds
    decreases list.len(),
{
    if list.len() == 0 {
        guilds
    } else {
        with_guild(with_guilds(guilds, list.drop_last()), list.last().0, list.last().1)
    }
}

/// Those of the list that were not followed before.
pub open spec fn newly_followed(guilds: Guilds, list: Seq<(u64, u64)>) -> Seq<(u64, u64)>
    decreases list.len(),
{
    if list.len() == 0 {
        Seq::empty()
    } else {
        let before = newly_followed(guilds, list.drop_last());
        if with_guilds(guilds, list.drop_last()).contains_key(list.last().0) {
            before
        } else {
            before.push(list.last())
        }
    }
}

/// The guilds after the bot learned how a member of one is called.
pub open spec fn with_member(
    guilds: Guilds,
    guild: u64,
    member: crate::model::MemberView,
) -> Guilds {
    if guilds.contains_key(guild) {
        guilds.insert(guild, guilds[guild].with_user(member))
    } else {
        guilds
    }
}

/// The guilds after a message of a user: it counts only in the introductions channel of a guild
/// that is followed.
pub open spec fn with_channel_message(
    guilds: Guilds,
    guild: u64,
    channel: u64,
    user: u64,
    message: crate::model::MessageView,
) -> Guilds {
    if guilds.contains_key(guild) && guilds[guild].intro_channel == channel {
        guilds.insert(guild, guilds[guild].with_intro(user, message))
    } else {
        guilds
    }
}

/// A message that was kept for a guild.
pub open spec fn kept_message(guilds: Guilds, guild: u64, id: u64) -> Option<
    crate::model::MessageView,
> {
    if guilds.contains_key(guild) {
        guilds[guild].message(id)
    } else {
        None
    }
}

/// The guilds after an edit was announced: a guild not heard of before is followed from then on,
/// with nothing known of it.
pub open spec fn with_announced_edit(guilds: Guilds, guild: Option<u64>) -> Guilds {
    match guild {
        Some(g) if !guilds.contains_key(g) => guilds.insert(
            g,
            crate::state::StateView::fresh(1, 1),
        ),
        _ => guilds,
    }
}

/// `true` when the general cache takes in an edit that is announced for the channel: the one that
/// the guild is followed with from then on.
pub open spec fn edit_is_cached(guilds: Guilds, guild: Option<u64>, channel: u64) -> bool {
    match guild {
        Some(g) => with_announced_edit(guilds, guild)[g].intro_channel == channel,
        None => false,
    }
}

/// What happened, as the gateway reports it.
#[derive(Debug)]
pub enum Event {
    MessageCreate(Message),
    MessageUpdate(MessageUpdate),
    MessageDelete,
    ChannelCreate,
    ChannelDelete,
    ChannelPinsUpdate,
    ChannelUpdate,
    GuildCreate,
    GuildDelete,
    GuildEmojisUpdate,
    GuildMemberRemove,
    /// A member came to the guild.
    GuildMemberAdd(GuildId),
    /// A member of the guild changed.
    GuildMemberUpdate(GuildId),
    GuildMembersChunk,
    GuildUpdate,
    PresenceUpdate,
    PresencesReplace,
    UserUpdate,
    /// Anything else.
    Other,
}

/// What remains to be done about an event.
#[derive(Clone, Copy, Debug, PartialEq, Eq, Structural)]
pub enum EventAction {
    Nothing,
    /// The general cache takes the event in.
    UpdateCache,
    /// The general cache takes the event in; then the event's own member is noted for the guild.
    UpdateCacheThenOwnMember(GuildId),
    /// The general cache takes the event in; then the member that the cache hands back, if any, is
    /// noted for the guild.
    UpdateCacheThenCachedMember(GuildId),
    /// An edit came of a message that was never seen.
    NoOriginal,
}

/// The guilds after an event.
pub open spec fn after_event(guilds: Guilds, event: Event) -> Guilds {
    match event {
        Event::MessageCreate(message) => match message@.guild {
            Some(guild) => with_channel_message(
                guilds,
                guild,
                message@.channel,
                message@.author,
                message@,
            ),
            None => guilds,
        },
        Event::MessageUpdate(update) => match (update@.author, update@.guild) {
            (Some(author), Some(guild)) => match kept_message(guilds, guild, update@.id) {
                Some(message) => with_channel_message(
                    guilds,
                    guild,
                    update@.channel,
                    author,
                    update@.applied_to(message),
                ),
                None => guilds,
            },
            _ => guilds,
        },
        _ => guilds,
    }
}

/// What remains to be done about an event.
pub open spec fn event_action(guilds: Guilds, event: Event) -> EventAction {
    match event {
        Event::MessageCreate(_) | Event::MessageDelete | Event::Other => EventAction::Nothing,
        Event::MessageUpdate(update) => match (update@.author, update@.guild) {
            (Some(author), Some(guild)) => if kept_message(guilds, guild, update@.id) is Some {
                EventAction::Nothing
            } else {
                EventAction::NoOriginal
            },
            _ => EventAction::Nothing,
        },
        Event::GuildMemberAdd(guild) => EventAction::UpdateCacheThenOwnMember(guild),
        Event::GuildMemberUpdate(guild) => EventAction::UpdateCacheThenCachedMember(guild),
        _ => EventAction::UpdateCache,
    }
}

impl View for Registry {
    type V = Guilds;

    closed spec fn view(&self) -> Guilds {
        self.guilds@.map_values(|s: IntroState| s@)
    }
}

impl Registry {
    /// No guild is followed yet.
    pub fn new() -> (registry: Registry)
        ensures
            registry@ == Map::<u64, crate::state::StateView>::empty(),
            guilds_wf(registry@),
    {
        let registry = Registry { guilds: HashMap::new() };
        assert(registry@ =~= Map::<u64, crate::state::StateView>::empty());
        registry
    }

    /// What is known of a guild, if it is followed.
    pub fn state(&self, guild: GuildId) -> (state: Option<&IntroState>)
        ensures
            state is Some <==> self@.contains_key(guild@),
            state matches Some(s) ==> s@ == self@[guild@],
    {
        self.guilds.get(&guild.get())
    }

    /// Begins to follow a guild, unless it is followed already.
    pub fn track(&mut self, guild: GuildId, channel: ChannelId) -> (new: bool)
        requires
            guilds_wf(old(self)@),
        ensures
            final(self)@ == with_guild(old(self)@, guild@, channel@),
            new == !old(self)@.contains_key(guild@),
            guilds_wf(final(self)@),
    {
        if self.guilds.contains_key(&guild.get()) {
            return false;
        }
        self.guilds.insert(guild.get(), IntroState::new(channel, guild));
        assert(self@ =~= with_guild(old(self)@, guild@, channel@));
        true
    }

    /// Begins to follow a guild that the bot was added to, if it has an introductions channel. The
    /// channel comes back where the guild was not followed before, and its state is to be filled.
    pub fn guild_create(&mut self, guild: GuildId, channels: &Option<Vec<ChannelInfo>>) -> (new:
        Result<Option<ChannelId>, ChannelError>)
        requires
            guilds_wf(old(self)@),
        ensures
            match crate::discovery::intro_channel_of(*channels) {
                Ok(channel) => {
                    &&& final(self)@ == with_guild(old(self)@, guild@, channel)
                    &&& old(self)@.contains_key(guild@) ==> new == Ok::<
                        Option<ChannelId>,
                        ChannelError,
                    >(None)
                    &&& !old(self)@.contains_key(guild@) ==> (new matches Ok(Some(c)) && c@
                        == channel)
                },
                Err(error) => new == Err::<Option<ChannelId>, ChannelError>(error) && final(self)@
                    == old(self)@,
            },
            guilds_wf(final(self)@),
    {
        match find_intro_channel(channels) {
            Ok(channel) => {
                if self.track(guild, channel) {
                    Ok(Some(channel))
                } else {
                    Ok(None)
                }
            },
            Err(error) => Err(error),
        }
    }

    /// Begins to follow each of the guilds with its introductions channel. Those that were not
    /// followed before come back: their state is to be filled.
    pub fn cache_ready(&mut self, list: &Vec<(GuildId, ChannelId)>) -> (new: Vec<
        (GuildId, ChannelId),
    >)
        requires
            guilds_wf(old(self)@),
        ensures
            final(self)@ == with_guilds(old(self)@, crate::discovery::follow_list(list@)),
            crate::discovery::follow_list(new@) == newly_followed(old(self)@, crate::discovery::follow_list(list@)),
            guilds_wf(final(self)@),
    {
        let ghost before = self@;
        let ghost wanted = crate::discovery::follow_list(list@);
        let mut new: Vec<(GuildId, ChannelId)> = Vec::new();
        assert(crate::discovery::follow_list(new@) =~= Seq::<(u64, u64)>::empty());
        for i in 0..list.len()
            invariant
                wanted == crate::discovery::follow_list(list@),
                guilds_wf(self@),
                self@ == with_guilds(before, wanted.take(i as int)),
                crate::discovery::follow_list(new@) == newly_followed(before, wanted.take(i as int)),
        {
            let (guild, channel) = list[i];
            let ghost earlier = new@;
            assert(wanted.take(i + 1).drop_last() =~= wanted.take(i as int));
            assert(wanted.take(i + 1).last() == (guild@, channel@));
            if self.track(guild, channel) {
                new.push((guild, channel));
                assert(crate::discovery::follow_list(new@) =~= crate::discovery::follow_list(earlier).push((guild@, channel@)));
            }
        }
        assert(wanted.take(list@.len() as int) =~= wanted);
        new
    }

    /// Takes in one member or message while a guild's state is being filled.
    pub fn refresh_intro_channel(
        &mut self,
        guild: GuildId,
        phase: RefreshPhase,
        event: RefreshEvent,
    ) -> (next: RefreshPhase)
        requires
            guilds_wf(old(self)@),
        ensures
            old(self)@.contains_key(guild@) ==> ({
                let after = crate::refresh::refresh_step(old(self)@[guild@], phase, event);
                final(self)@ == old(self)@.insert(guild@, after.0) && next == after.1
            }),
            !old(self)@.contains_key(guild@) ==> final(self)@ == old(self)@ && next
                == RefreshPhase::Failed,
            guilds_wf(final(self)@),
    {
        let guild = guild.get();
        let mut next = RefreshPhase::Failed;
        match self.guilds.entry(guild) {
            Entry::Occupied(entry) => {
                let state = entry.into_mut();
                assert(old(self)@.contains_key(guild));
                next = state.refresh_intro_channel(phase, event);
            },
            Entry::Vacant(_) => {},
        }
        proof {
            if old(self)@.contains_key(guild) {
                let after = crate::refresh::refresh_step(old(self)@[guild], phase, event);
                assert(self@ =~= old(self)@.insert(guild, after.0));
            } else {
                assert(self@ =~= old(self)@);
            }
        }
        next
    }

    /// Hears that a message was edited, and tells whether the general cache takes the edit in: it
    /// does for the introductions channel.
    pub fn message_update(&mut self, guild: Option<GuildId>, channel: ChannelId) -> (cache: bool)
        requires
            guilds_wf(old(self)@),
        ensures
            final(self)@ == with_announced_edit(old(self)@, crate::ids::guild_number(guild)),
            cache <==> guild is Some && final(self)@[guild->0@].intro_channel == channel@,
            cache == edit_is_cached(old(self)@, crate::ids::guild_number(guild), channel@),
            guilds_wf(final(self)@),
    {
        let guild = match guild {
            Some(g) => g.get(),
            None => {
                return false;
            },
        };
        if !self.guilds.contains_key(&guild) {
            self.guilds.insert(guild, IntroState::default());
        }
        assert(self@ =~= with_announced_edit(old(self)@, Some(guild)));
        match self.guilds.get(&guild) {
            Some(state) => state.intro_channel().get() == channel.get(),
            None => false,
        }
    }

    /// Notes how a member of a guild is called, if the guild is followed.
    pub fn member_event(&mut self, guild: GuildId, member: &Member)
        requires
            guilds_wf(old(self)@),
        ensures
            final(self)@ == with_member(old(self)@, guild@, member@),
            guilds_wf(final(self)@),
    {
        let guild = guild.get();
        match self.guilds.entry(guild) {
            Entry::Occupied(entry) => {
                let state = entry.into_mut();
                assert(old(self)@.contains_key(guild));
                state.update_user(member);
            },
            Entry::Vacant(_) => {},
        }
        assert(self@ =~= with_member(old(self)@, guild, member@));
    }

    /// Notes a changed member once the general cache took the event in: nothing, if the cache handed
    /// no member back.
    pub fn cached_member(&mut self, guild: GuildId, member: Option<Member>)
        requires
            guilds_wf(old(self)@),
        ensures
            member matches Some(m) ==> final(self)@ == with_member(old(self)@, guild@, m@),
            member is None ==> final(self)@ == old(self)@,
            guilds_wf(final(self)@),
    {
        if let Some(member) = member {
            self.member_event(guild, &member);
        }
    }

    /// Keeps a message of a user if it stands in the introductions channel of a guild that is
    /// followed.
    pub fn channel_message(
        &mut self,
        guild: GuildId,
        channel: ChannelId,
        user: UserId,
        message: Message,
    )
        requires
            guilds_wf(old(self)@),
        ensures
            final(self)@ == with_channel_message(
                old(self)@,
                guild@,
                channel@,
                user@,
                message@,
            ),
            guilds_wf(final(self)@),
    {
        let guild = guild.get();
        match self.guilds.entry(guild) {
            Entry::Occupied(entry) => {
                let state = entry.into_mut();
                assert(old(self)@.contains_key(guild));
                if state.intro_channel().get() == channel.get() {
                    state.update_intro_message(user, message);
                }
            },
            Entry::Vacant(_) => {},
        }
        assert(self@ =~= with_channel_message(
            old(self)@,
            guild,
            channel@,
            user@,
            message@,
        ));
    }

    /// A message that was kept for a guild.
    pub fn get_message(&self, guild: GuildId, id: MessageId) -> (message: Option<Message>)
        ensures
            crate::state::message_of(message) == kept_message(self@, guild@, id@),
    {
        match self.guilds.get(&guild.get()) {
            Some(state) => state.get_message(id.get()),
            None => None,
        }
    }

    /// Takes an event in, and says what remains to be done about it.
    pub fn raw_event(&mut self, event: Event) -> (action: EventAction)
        requires
            guilds_wf(old(self)@),
        ensures
            final(self)@ == after_event(old(self)@, event),
            action == event_action(old(self)@, event),
            guilds_wf(final(self)@),
    {
        match event {
            Event::MessageCreate(message) => {
                if let Some(guild) = message.guild {
                    let channel = message.channel;
                    let author = message.author;
                    self.channel_message(guild, channel, author, message);
                }
                EventAction::Nothing
            },
            Event::MessageUpdate(update) => match (update.author, update.guild) {
                (Some(author), Some(guild)) => {
                    match self.get_message(guild, update.id) {
                        Some(message) => {
                            let mut message = message;
                            let channel = update.channel;
                            update.apply_to_message(&mut message);
                            self.channel_message(guild, channel, author, message);
                            EventAction::Nothing
                        },
                        None => EventAction::NoOriginal,
                    }
                },
                _ => EventAction::Nothing,
            },
            Event::MessageDelete => EventAction::Nothing,
            Event::ChannelCreate
            | Event::ChannelDelete
            | Event::ChannelPinsUpdate
            | Event::ChannelUpdate
            | Event::GuildCreate
            | Event::GuildDelete
            | Event::GuildEmojisUpdate
            | Event::GuildMemberRemove
            | Event::GuildMembersChunk
            | Event::GuildUpdate
            | Event::PresenceUpdate
            | Event::PresencesReplace
            | Event::UserUpdate => EventAction::UpdateCache,
            Event::GuildMemberAdd(guild) => EventAction::UpdateCacheThenOwnMember(guild),
            Event::GuildMemberUpdate(guild) => EventAction::UpdateCacheThenCachedMember(guild),
            Event::Other => EventAction::Nothing,
        }
    }
}

} // verus!
