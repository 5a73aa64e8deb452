//! What the bot knows of one guild: who introduced themselves with which message, and who goes by
//! which name.

use std::collections::HashMap;

use vstd::prelude::*;

use crate::ids::{ChannelId, GuildId, UserId};
use crate::model::{Member, Message};
use crate::names::NameTable;
use crate::text::to_lowercase;

verus! {

broadcast use vstd::std_specs::hash::group_hash_axioms;

/// What the bot knows of one guild.
#[derive(Debug)]
pub struct IntroState {
    intro_channel: ChannelId,
    guild: GuildId,
    intros: HashMap<u64, u64>,
    msg_cache: HashMap<u64, Message>,
    displaynames: NameTable,
    usernames: NameTable,
}

/// What the bot knows of one guild, in contracts.
#[verifier::ext_equal]
pub struct StateView {
    /// The channel in which members introduce themselves.
    pub intro_channel: u64,
    pub guild: u64,
    /// The message with which each user introduced themselves.
    pub intros: Map<u64, u64>,
    /// The messages of the introductions channel.
    pub messages: Map<u64, crate::model::MessageView>,
    /// The names under which users are seen in this guild, in small letters.
    pub displaynames: Map<Seq<char>, u64>,
    /// The names of the accounts that are identified by their name alone.
    pub usernames: Map<Seq<char>, u64>,
}

/// `true` when no user has two of the names, and each of them belongs to a user, who is never zero.
pub open spec fn names_valid(names: Map<Seq<char>, u64>) -> bool {
    &&& crate::names::one_name_each(names)
    &&& forall|name: Seq<char>| #[trigger] names.contains_key(name) ==> names[name] != 0
}

impl StateView {
    /// What always holds: each name belongs to one user and each user has one name, an
    /// introduction is always at hand, and each message is kept under its own number.
    pub open spec fn wf(self) -> bool {
        &&& names_valid(self.displaynames)
        &&& names_valid(self.usernames)
        &&& forall|user: u64| #[trigger]
            self.intros.contains_key(user) ==> self.messages.contains_key(self.intros[user])
        &&& forall|id: u64| #[trigger]
            self.messages.contains_key(id) ==> self.messages[id].id == id
    }

    /// A guild of which only the introductions channel is known.
    pub open spec fn fresh(intro_channel: u64, guild: u64) -> StateView {
        StateView {
            intro_channel,
            guild,
            intros: Map::empty(),
            messages: Map::empty(),
            displaynames: Map::empty(),
            usernames: Map::empty(),
        }
    }

    /// The state after the bot learned how a member is called.
    pub open spec fn with_user(self, member: crate::model::MemberView) -> StateView {
        StateView {
            usernames: if member.discriminator is None {
                crate::names::renamed(self.usernames, member.name, member.user)
            } else {
                self.usernames
            },
            displaynames: crate::names::renamed(
                self.displaynames,
                crate::text::lowercase(member.display_name()),
                member.user,
            ),
            ..self
        }
    }

    /// The introductions after a message of the user: the first one stays.
    pub open spec fn first_intro(self, user: u64, message: u64) -> Map<u64, u64> {
        if self.intros.contains_key(user) {
            self.intros
        } else {
            self.intros.insert(user, message)
        }
    }

    /// The state after a new or edited message of the user in the introductions channel.
    pub open spec fn with_intro(self, user: u64, message: crate::model::MessageView) -> StateView {
        StateView {
            intros: self.first_intro(user, message.id),
            messages: self.messages.insert(message.id, message),
            ..self
        }
    }

    /// The state after a message from the history of the introductions channel: what is already
    /// known of a message is newer, and stays.
    pub open spec fn with_history(self, message: crate::model::MessageView) -> StateView {
        StateView {
            intros: self.first_intro(message.author, message.id),
            messages: if self.messages.contains_key(message.id) {
                self.messages
            } else {
                self.messages.insert(message.id, message)
            },
            ..self
        }
    }

    /// The user meant by a text: the one whose account has that name, or else the one who is seen
    /// under it, whatever the case of its letters.
    pub open spec fn user_by_string(self, name: Seq<char>) -> Option<u64> {
        match crate::names::user_named(self.usernames, name) {
            Some(user) => Some(user),
            None => crate::names::user_named(self.displaynames, crate::text::lowercase(name)),
        }
    }

    /// The name under which a user is seen, or else the name of the account, where they are known.
    pub open spec fn user_displayname(self, user: u64) -> Option<Seq<char>> {
        match crate::names::name_of(self.displaynames, user) {
            Some(name) => Some(name),
            None => crate::names::name_of(self.usernames, user),
        }
    }

    /// The message with which a user introduced themselves.
    pub open spec fn intro_message(self, user: u64) -> Option<crate::model::MessageView> {
        if self.intros.contains_key(user) && self.messages.contains_key(self.intros[user]) {
            Some(self.messages[self.intros[user]])
        } else {
            None
        }
    }

    /// A message that was kept.
    pub open spec fn message(self, id: u64) -> Option<crate::model::MessageView> {
        if self.messages.contains_key(id) {
            Some(self.messages[id])
        } else {
            None
        }
    }
}

impl View for IntroState {
    type V = StateView;

    closed spec fn view(&self) -> StateView {
        StateView {
            intro_channel: self.intro_channel@,
            guild: self.guild@,
            intros: self.intros@,
            messages: self.msg_cache@.map_values(|m: Message| m@),
            displaynames: self.displaynames@,
            usernames: self.usernames@,
        }
    }
}

impl Default for IntroState {
    /// A guild of which nothing is known: it and its channel have the smallest number.
    fn default() -> (state: IntroState)
        ensures
            state@ == StateView::fresh(1, 1),
            state@.wf(),
    {
        IntroState::new(ChannelId::new(1), GuildId::new(1))
    }
}

/// The message inside an option.
pub open spec fn message_of(message: Option<Message>) -> Option<crate::model::MessageView> {
    match message {
        Some(m) => Some(m@),
        None => None,
    }
}

/// The user inside an option.
pub open spec fn user_of(user: Option<UserId>) -> Option<u64> {
    match user {
        Some(u) => Some(u@),
        None => None,
    }
}

impl IntroState {
    /// A guild of which only the introductions channel is known.
    pub fn new(intro_channel: ChannelId, guild: GuildId) -> (state: IntroState)
        ensures
            state@ == StateView::fresh(intro_channel@, guild@),
            state@.wf(),
    {
        let state = IntroState {
            intro_channel,
            guild,
            intros: HashMap::new(),
            msg_cache: HashMap::new(),
            displaynames: NameTable::new(),
            usernames: NameTable::new(),
        };
        assert(state@ =~= StateView::fresh(intro_channel@, guild@));
        state
    }

    /// The channel in which members introduce themselves.
    pub fn intro_channel(&self) -> (channel: ChannelId)
        ensures
            channel@ == self@.intro_channel,
    {
        self.intro_channel
    }

    /// The guild.
    pub fn guild(&self) -> (guild: GuildId)
        ensures
            guild@ == self@.guild,
    {
        self.guild
    }

    /// The number of users whose names are known, and the number of introductions.
    pub fn stats(&self) -> (counts: (usize, usize))
        ensures
            counts.0 == self@.displaynames.len(),
            counts.1 == self@.intros.len(),
    {
        (self.displaynames.len(), self.intros.len())
    }

    /// Notes how a member is called.
    pub fn update_user(&mut self, member: &Member)
        requires
            old(self)@.wf(),
        ensures
            final(self)@ == old(self)@.with_user(member@),
            final(self)@.intros == old(self)@.intros,
            final(self)@.messages == old(self)@.messages,
            final(self)@.wf(),
    {
        let user = member.user.get();
        if member.discriminator.is_none() {
            self.usernames.rename(member.name.clone(), user);
        }
        self.displaynames.rename(to_lowercase(member.display_name()), user);
        assert(self@ =~= old(self)@.with_user(member@));
    }

    /// The user meant by a text, if one is known by it.
    pub fn get_user_by_string(&self, name: &str) -> (user: Option<UserId>)
        requires
            self@.wf(),
        ensures
            user_of(user) == self@.user_by_string(name@),
    {
        match self.usernames.user(name) {
            Some(raw) => Some(UserId::new(raw)),
            None => match self.displaynames.user(to_lowercase(name).as_str()) {
                Some(raw) => Some(UserId::new(raw)),
                None => None,
            },
        }
    }

    /// The message with which a user introduced themselves.
    pub fn get_intro_message(&self, user: UserId) -> (message: Option<Message>)
        ensures
            message_of(message) == self@.intro_message(user@),
    {
        match self.intros.get(&user.get()) {
            Some(id) => self.get_message(*id),
            None => None,
        }
    }

    /// A message that was kept.
    pub fn get_message(&self, id: u64) -> (message: Option<Message>)
        ensures
            message_of(message) == self@.message(id),
    {
        match self.msg_cache.get(&id) {
            Some(message) => Some(message.clone()),
            None => None,
        }
    }

    /// Keeps a new or edited message of a user; it introduces the user if no other does.
    pub fn update_intro_message(&mut self, user: UserId, message: Message)
        requires
            old(self)@.wf(),
        ensures
            final(self)@ == old(self)@.with_intro(user@, message@),
            final(self)@.displaynames == old(self)@.displaynames,
            final(self)@.usernames == old(self)@.usernames,
            final(self)@.wf(),
    {
        let id = message.id.get();
        if !self.intros.contains_key(&user.get()) {
            self.intros.insert(user.get(), id);
        }
        self.msg_cache.insert(id, message);
        assert(self@ =~= old(self)@.with_intro(user@, message@));
    }

    /// Keeps a message from the history of the introductions channel.
    pub fn add_history(&mut self, message: Message)
        requires
            old(self)@.wf(),
        ensures
            final(self)@ == old(self)@.with_history(message@),
            final(self)@.displaynames == old(self)@.displaynames,
            final(self)@.usernames == old(self)@.usernames,
            final(self)@.wf(),
    {
        let id = message.id.get();
        let author = message.author.get();
        if !self.intros.contains_key(&author) {
            self.intros.insert(author, id);
        }
        if !self.msg_cache.contains_key(&id) {
            self.msg_cache.insert(id, message);
        }
        assert(self@ =~= old(self)@.with_history(message@));
    }

    /// The name under which a user is seen, or else the name of the account.
    pub fn get_user_displayname(&self, user: UserId) -> (name: Option<String>)
        requires
            self@.wf(),
        ensures
            crate::text::text_of(name) == self@.user_displayname(user@),
    {
        match self.displaynames.name(user.get()) {
            Some(name) => Some(name),
            None => self.usernames.name(user.get()),
        }
    }
}

} // verus!
