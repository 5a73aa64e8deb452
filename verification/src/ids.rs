//! Identifiers of users, messages, channels and guilds: numbers that are never zero.

use vstd::prelude::*;

verus! {

/// Identifies a user.
#[derive(Clone, Copy, Debug, PartialEq, Eq, Structural)]
pub struct UserId {
    raw: u64,
}

impl View for UserId {
    type V = u64;

    closed spec fn view(&self) -> u64 {
        self.raw
    }
}

impl UserId {
    #[verifier::type_invariant]
    spec fn valid(self) -> bool {
        self.raw != 0
    }

    /// The user with the given number.
    pub fn new(raw: u64) -> (id: UserId)
        requires
            raw != 0,
        ensures
            id@ == raw,
    {
        UserId { raw }
    }

    /// The number of the user.
    pub fn get(self) -> (raw: u64)
        ensures
            raw == self@,
            raw != 0,
    {
        proof {
            use_type_invariant(&self);
        }
        self.raw
    }
}

/// Identifies a message.
#[derive(Clone, Copy, Debug, PartialEq, Eq, Structural)]
pub struct MessageId {
    raw: u64,
}

impl View for MessageId {
    type V = u64;

    closed spec fn view(&self) -> u64 {
        self.raw
    }
}

impl MessageId {
    #[verifier::type_invariant]
    spec fn valid(self) -> bool {
        self.raw != 0
    }

    /// The message with the given number.
    pub fn new(raw: u64) -> (id: MessageId)
        requires
            raw != 0,
        ensures
            id@ == raw,
    {
        MessageId { raw }
    }

    /// The number of the message.
    pub fn get(self) -> (raw: u64)
        ensures
            raw == self@,
            raw != 0,
    {
        proof {
            use_type_invariant(&self);
        }
        self.raw
    }
}

/// Identifies a channel.
#[derive(Clone, Copy, Debug, PartialEq, Eq, Structural)]
pub struct ChannelId {
    raw: u64,
}

impl View for ChannelId {
    type V = u64;

    closed spec fn view(&self) -> u64 {
        self.raw
    }
}

impl ChannelId {
    #[verifier::type_invariant]
    spec fn valid(self) -> bool {
        self.raw != 0
    }

    /// The channel with the given number.
    pub fn new(raw: u64) -> (id: ChannelId)
        requires
            raw != 0,
        ensures
            id@ == raw,
    {
        ChannelId { raw }
    }

    /// The number of the channel.
    pub fn get(self) -> (raw: u64)
        ensures
            raw == self@,
            raw != 0,
    {
        proof {
            use_type_invariant(&self);
        }
        self.raw
    }
}

/// Identifies a guild.
#[derive(Clone, Copy, Debug, PartialEq, Eq, Structural)]
pub struct GuildId {
    raw: u64,
}

impl View for GuildId {
    type V = u64;

    closed spec fn view(&self) -> u64 {
        self.raw
    }
}

impl GuildId {
    #[verifier::type_invariant]
    spec fn valid(self) -> bool {
        self.raw != 0
    }

    /// The guild with the given number.
    pub fn new(raw: u64) -> (id: GuildId)
        requires
            raw != 0,
        ensures
            id@ == raw,
    {
        GuildId { raw }
    }

    /// The number of the guild.
    pub fn get(self) -> (raw: u64)
        ensures
            raw == self@,
            raw != 0,
    {
        proof {
            use_type_invariant(&self);
        }
        self.raw
    }
}

/// The number of an optional guild.
pub open spec fn guild_number(guild: Option<GuildId>) -> Option<u64> {
    match guild {
        Some(g) => Some(g@),
        None => None,
    }
}

} // verus!
