//! What the bot hears of: users, members of a guild, messages and edits of them.

use vstd::prelude::*;

use crate::ids::{ChannelId, GuildId, MessageId, UserId};
use crate::links::ImageHash;

verus! {

/// A user, as far as a reply needs to know.
#[derive(Debug)]
pub struct User {
    pub id: UserId,
    /// The name of the account.
    pub name: String,
    /// The hash of the user's picture, if there is one.
    pub avatar: Option<ImageHash>,
}

/// A user, in contracts.
pub struct UserView {
    pub id: u64,
    pub name: Seq<char>,
    pub avatar: Option<Seq<char>>,
}

impl View for User {
    type V = UserView;

    open spec fn view(&self) -> UserView {
        UserView {
            id: self.id@,
            name: self.name@,
            avatar: match self.avatar {
                Some(hash) => Some(hash@),
                None => None,
            },
        }
    }
}

impl UserView {
    /// The address of the user's picture, if there is one.
    pub open spec fn avatar_url(self) -> Option<Seq<char>> {
        match self.avatar {
            Some(hash) => Some(crate::links::avatar_link(self.id, hash)),
            None => None,
        }
    }
}

impl User {
    /// The address of the user's picture, if there is one.
    pub fn avatar_url(&self) -> (url: Option<String>)
        ensures
            crate::text::text_of(url) == self@.avatar_url(),
    {
        match &self.avatar {
            Some(hash) => hash.avatar_url(self.id),
            None => None,
        }
    }
}

/// A member of a guild.
#[derive(Debug)]
pub struct Member {
    pub user: UserId,
    /// The name of the account.
    pub name: String,
    /// The number behind the name of an account that is not identified by its name alone.
    pub discriminator: Option<u16>,
    /// The display name that goes with the account.
    pub global_name: Option<String>,
    /// The nickname in the guild.
    pub nick: Option<String>,
}

/// A member of a guild, in contracts.
pub struct MemberView {
    pub user: u64,
    pub name: Seq<char>,
    pub discriminator: Option<u16>,
    pub global_name: Option<Seq<char>>,
    pub nick: Option<Seq<char>>,
}

impl View for Member {
    type V = MemberView;

    open spec fn view(&self) -> MemberView {
        MemberView {
            user: self.user@,
            name: self.name@,
            discriminator: self.discriminator,
            global_name: crate::text::text_of(self.global_name),
            nick: crate::text::text_of(self.nick),
        }
    }
}

impl MemberView {
    /// The name that others see: the nickname, or else the display name of the account, or else
    /// the name of the account.
    pub open spec fn display_name(self) -> Seq<char> {
        match (self.nick, self.global_name) {
            (Some(nick), _) => nick,
            (None, Some(global)) => global,
            (None, None) => self.name,
        }
    }
}

impl Member {
    /// The name that others see.
    pub fn display_name(&self) -> (name: &str)
        ensures
            name@ == self@.display_name(),
    {
        match (&self.nick, &self.global_name) {
            (Some(nick), _) => nick.as_str(),
            (None, Some(global)) => global.as_str(),
            (None, None) => self.name.as_str(),
        }
    }
}

/// A message.
#[derive(Debug)]
pub struct Message {
    pub id: MessageId,
    pub channel: ChannelId,
    /// The guild, where it is known.
    pub guild: Option<GuildId>,
    pub author: UserId,
    pub content: String,
}

/// A message, in contracts.
#[verifier::ext_equal]
pub struct MessageView {
    pub id: u64,
    pub channel: u64,
    pub guild: Option<u64>,
    pub author: u64,
    pub content: Seq<char>,
}

impl View for Message {
    type V = MessageView;

    open spec fn view(&self) -> MessageView {
        MessageView {
            id: self.id@,
            channel: self.channel@,
            guild: crate::ids::guild_number(self.guild),
            author: self.author@,
            content: self.content@,
        }
    }
}

impl MessageView {
    /// The address of the message.
    pub open spec fn link(self) -> Seq<char> {
        crate::links::message_link(self.id, self.channel, self.guild)
    }
}

impl Message {
    /// The address of the message.
    pub fn link(&self) -> (link: String)
        ensures
            link@ == self@.link(),
    {
        crate::links::link(self.id, self.channel, self.guild)
    }
}

impl Clone for Message {
    fn clone(&self) -> (copy: Message)
        ensures
            copy@ == self@,
    {
        Message {
            id: self.id,
            channel: self.channel,
            guild: self.guild,
            author: self.author,
            content: self.content.clone(),
        }
    }
}

/// An edit of a message. What did not change may be missing.
#[derive(Debug)]
pub struct MessageUpdate {
    pub id: MessageId,
    pub channel: ChannelId,
    pub guild: Option<GuildId>,
    pub author: Option<UserId>,
    pub content: Option<String>,
}

/// An edit of a message, in contracts.
pub struct MessageUpdateView {
    pub id: u64,
    pub channel: u64,
    pub guild: Option<u64>,
    pub author: Option<u64>,
    pub content: Option<Seq<char>>,
}

impl View for MessageUpdate {
    type V = MessageUpdateView;

    open spec fn view(&self) -> MessageUpdateView {
        MessageUpdateView {
            id: self.id@,
            channel: self.channel@,
            guild: crate::ids::guild_number(self.guild),
            author: match self.author {
                Some(author) => Some(author@),
                None => None,
            },
            content: crate::text::text_of(self.content),
        }
    }
}

impl MessageUpdateView {
    /// The message after the edit: where it stands is taken from the edit, the author and the
    /// content only where the edit has them.
    pub open spec fn applied_to(self, message: MessageView) -> MessageView {
        MessageView {
            id: self.id,
            channel: self.channel,
            guild: self.guild,
            author: match self.author {
                Some(author) => author,
                None => message.author,
            },
            content: match self.content {
                Some(content) => content,
                None => message.content,
            },
        }
    }
}

impl MessageUpdate {
    /// Writes what the edit says into the message.
    pub fn apply_to_message(self, message: &mut Message)
        ensures
            final(message)@ == self@.applied_to(old(message)@),
            final(message).id@ == self.id@,
            final(message).channel@ == self.channel@,
            final(message)@.guild == crate::ids::guild_number(self.guild),
            self.author matches Some(author) ==> final(message).author@ == author@,
            self.author is None ==> final(message).author@ == old(message).author@,
            self.content matches Some(content) ==> final(message).content@ == content@,
            self.content is None ==> final(message).content@ == old(message).content@,
    {
        message.id = self.id;
        message.channel = self.channel;
        message.guild = self.guild;
        if let Some(author) = self.author {
            message.author = author;
        }
        if let Some(content) = self.content {
            message.content = content;
        }
    }
}

/// The nickname goes before the display name of the account, and that before its name.
pub proof fn display_name_goes_by_precedence(member: Member)
    ensures
        member.nick matches Some(nick) ==> member@.display_name() == nick@,
        member.nick is None ==> (member.global_name matches Some(global) ==> member@.display_name()
            == global@),
        member.nick is None && member.global_name is None ==> member@.display_name()
            == member.name@,
{
}

/// What an edit says counts, whatever the message was before, and what it does not say stays.
pub proof fn edit_decides_what_it_says(update: MessageUpdate, message: MessageView)
    ensures
        update@.applied_to(message).id == update.id@,
        update@.applied_to(message).channel == update.channel@,
        update.guild matches Some(guild) ==> update@.applied_to(message).guild == Some(guild@),
        update.guild is None ==> update@.applied_to(message).guild is None,
        update.author matches Some(author) ==> update@.applied_to(message).author == author@,
        update.author is None ==> update@.applied_to(message).author == message.author,
        update.content matches Some(content) ==> update@.applied_to(message).content == content@,
        update.content is None ==> update@.applied_to(message).content == message.content,
{
}

/// Two edits one after the other leave what the later one says, and below it what the earlier said.
pub proof fn later_edit_wins(
    earlier: MessageUpdateView,
    later: MessageUpdateView,
    message: MessageView,
)
    ensures
        later.content matches Some(content) ==> later.applied_to(
            earlier.applied_to(message),
        ).content == content,
        later.content is None ==> (earlier.content matches Some(content) ==> later.applied_to(
            earlier.applied_to(message),
        ).content == content),
        later.content is None && earlier.content is None ==> later.applied_to(
            earlier.applied_to(message),
        ).content == message.content,
        later.author is None ==> (earlier.author matches Some(author) ==> later.applied_to(
            earlier.applied_to(message),
        ).author == author),
        later.applied_to(earlier.applied_to(message)).id == later.id,
        later.applied_to(earlier.applied_to(message)).channel == later.channel,
        later.applied_to(earlier.applied_to(message)).guild == later.guild,
{
}

/// Contracts see every part of a message, a member, a user and an edit.
pub proof fn nothing_is_left_out(
    message: Message,
    member: Member,
    user: User,
    update: MessageUpdate,
)
    ensures
        message@.id == message.id@,
        message@.channel == message.channel@,
        message@.author == message.author@,
        message@.content == message.content@,
        message.guild matches Some(guild) ==> message@.guild == Some(guild@),
        message.guild is None ==> message@.guild is None,
        member@.user == member.user@,
        member@.name == member.name@,
        member@.discriminator == member.discriminator,
        member.nick matches Some(nick) ==> member@.nick == Some(nick@),
        member.nick is None ==> member@.nick is None,
        member.global_name matches Some(global) ==> member@.global_name == Some(global@),
        member.global_name is None ==> member@.global_name is None,
        user@.id == user.id@,
        user@.name == user.name@,
        user.avatar matches Some(hash) ==> user@.avatar == Some(hash@),
        user.avatar is None ==> user@.avatar is None,
        update@.id == update.id@,
        update@.channel == update.channel@,
        update.guild matches Some(guild) ==> update@.guild == Some(guild@),
        update.guild is None ==> update@.guild is None,
        update.author matches Some(author) ==> update@.author == Some(author@),
        update.author is None ==> update@.author is None,
        update.content matches Some(content) ==> update@.content == Some(content@),
        update.content is None ==> update@.content is None,
{
}

} // verus!
