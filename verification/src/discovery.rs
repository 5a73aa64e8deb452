//! Finding the introductions channel of a guild.

use vstd::prelude::*;

use crate::ids::{ChannelId, GuildId};

verus! {

/// A channel of a guild.
#[derive(Debug)]
pub struct ChannelInfo {
    pub id: ChannelId,
    pub name: String,
}

/// Why a guild has no introductions channel to follow.
#[derive(Clone, Copy, Debug, PartialEq, Eq, Structural)]
pub enum ChannelError {
    /// The channels could not be listed.
    Unavailable,
    /// None of the channels is the introductions channel.
    NotFound,
}

/// The first of the channels that has the name of an introductions channel.
pub open spec fn first_intro_channel(channels: Seq<ChannelInfo>) -> Option<u64>
    decreases channels.len(),
{
    if channels.len() == 0 {
        None
    } else if channels[0].name@ == "introductions"@ {
        Some(channels[0].id@)
    } else {
        first_intro_channel(channels.skip(1))
    }
}

/// The introductions channel of a guild with the given channels, if they could be listed.
pub open spec fn intro_channel_of(channels: Option<Vec<ChannelInfo>>) -> Result<
    u64,
    ChannelError,
> {
    match channels {
        Some(listed) => match first_intro_channel(listed@) {
            Some(id) => Ok(id),
            None => Err(ChannelError::NotFound),
        },
        None => Err(ChannelError::Unavailable),
    }
}

/// Finds the introductions channel of a guild among its channels, if they could be listed.
#[verifier::loop_isolation(false)]
pub fn find_intro_channel(channels: &Option<Vec<ChannelInfo>>) -> (found: Result<
    ChannelId,
    ChannelError,
>)
    ensures
        found matches Ok(channel) ==> intro_channel_of(*channels) == Ok::<u64, ChannelError>(
            channel@,
        ),
        found matches Err(error) ==> intro_channel_of(*channels) == Err::<u64, ChannelError>(error),
        *channels is None ==> found == Err::<ChannelId, ChannelError>(ChannelError::Unavailable),
        *channels matches Some(listed) ==> match found {
            Ok(channel) => exists|i: int|
                0 <= i < listed@.len() && (#[trigger] listed@[i]).name@ == "introductions"@
                    && listed@[i].id@ == channel@ && forall|j: int|
                    0 <= j < i ==> (#[trigger] listed@[j]).name@ != "introductions"@,
            Err(error) => error == ChannelError::NotFound && forall|i: int|
                0 <= i < listed@.len() ==> (#[trigger] listed@[i]).name@ != "introductions"@,
        },
{
    proof {
        introductions_channel_is_found_by_name(*channels);
    }
    let listed = match channels {
        Some(listed) => listed,
        None => {
            return Err(ChannelError::Unavailable);
        },
    };
    let wanted = "introductions".to_owned();
    assert(listed@.skip(0) =~= listed@);
    for i in 0..listed.len()
        invariant
            wanted@ == "introductions"@,
            *channels == Some(*listed),
            first_intro_channel(listed@) == first_intro_channel(listed@.skip(i as int)),
    {
        assert(listed@.skip(i as int).skip(1) =~= listed@.skip(i + 1));
        if listed[i].name == wanted {
            return Ok(listed[i].id);
        }
    }
    Err(ChannelError::NotFound)
}

/// The guilds with their channels, as numbers.
pub open spec fn follow_list(found: Seq<(GuildId, ChannelId)>) -> Seq<(u64, u64)> {
    found.map_values(|pair: (GuildId, ChannelId)| (pair.0@, pair.1@))
}

/// Adds a guild to those that are to be followed, with its introductions channel. A guild without
/// one is left out.
pub fn collect_guild(
    found: &mut Vec<(GuildId, ChannelId)>,
    guild: GuildId,
    channels: &Option<Vec<ChannelInfo>>,
) -> (outcome: Result<(), ChannelError>)
    ensures
        match intro_channel_of(*channels) {
            Ok(channel) => outcome is Ok && follow_list(final(found)@) == follow_list(
                old(found)@,
            ).push((guild@, channel)),
            Err(error) => outcome == Err::<(), ChannelError>(error) && final(found)@
                == old(found)@,
        },
{
    match find_intro_channel(channels) {
        Ok(channel) => {
            found.push((guild, channel));
            assert(follow_list(found@) =~= follow_list(old(found)@).push((guild@, channel@)));
            Ok(())
        },
        Err(error) => Err(error),
    }
}

/// A guild whose channels were listed has an introductions channel exactly if one of them, at
/// whatever place, is called `introductions`: it is the first that is called so.
pub proof fn first_introductions_channel_is_taken(channels: Vec<ChannelInfo>, i: int)
    requires
        0 <= i < channels@.len(),
        channels@[i].name@ == "introductions"@,
        forall|j: int| 0 <= j < i ==> (#[trigger] channels@[j]).name@ != "introductions"@,
    ensures
        intro_channel_of(Some(channels)) == Ok::<u64, ChannelError>(channels@[i].id@),
{
    lemma_first_at(channels@, i);
}

/// Where none of the channels is called `introductions`, none is taken.
pub proof fn no_introductions_channel_is_made_up(channels: Vec<ChannelInfo>)
    requires
        forall|i: int|
            0 <= i < channels@.len() ==> (#[trigger] channels@[i]).name@ != "introductions"@,
    ensures
        intro_channel_of(Some(channels)) == Err::<u64, ChannelError>(ChannelError::NotFound),
{
    lemma_none_named(channels@);
}

/// Whatever the channels are: one is taken exactly if one is called `introductions`, and it is the
/// first of those. Where the channels could not be listed, that is said.
pub proof fn introductions_channel_is_found_by_name(channels: Option<Vec<ChannelInfo>>)
    ensures
        channels is None ==> intro_channel_of(channels) == Err::<u64, ChannelError>(
            ChannelError::Unavailable,
        ),
        channels matches Some(listed) ==> match intro_channel_of(channels) {
            Ok(channel) => exists|i: int|
                0 <= i < listed@.len() && (#[trigger] listed@[i]).name@ == "introductions"@
                    && listed@[i].id@ == channel && forall|j: int|
                    0 <= j < i ==> (#[trigger] listed@[j]).name@ != "introductions"@,
            Err(error) => error == ChannelError::NotFound && forall|i: int|
                0 <= i < listed@.len() ==> (#[trigger] listed@[i]).name@ != "introductions"@,
        },
{
    if let Some(listed) = channels {
        lemma_first_is_some_channel(listed@);
    }
}

/// The first channel of the name is found where it stands.
proof fn lemma_first_at(channels: Seq<ChannelInfo>, i: int)
    requires
        0 <= i < channels.len(),
        channels[i].name@ == "introductions"@,
        forall|j: int| 0 <= j < i ==> (#[trigger] channels[j]).name@ != "introductions"@,
    ensures
        first_intro_channel(channels) == Some(channels[i].id@),
    decreases i,
{
    if i > 0 {
        let rest = channels.skip(1);
        assert(channels[0].name@ != "introductions"@);
        assert forall|j: int| 0 <= j < i - 1 implies (#[trigger] rest[j]).name@
            != "introductions"@ by {
            assert(rest[j] == channels[j + 1]);
        }
        lemma_first_at(rest, i - 1);
    }
}

/// Without a channel of the name there is no first one.
proof fn lemma_none_named(channels: Seq<ChannelInfo>)
    requires
        forall|i: int| 0 <= i < channels.len() ==> (#[trigger] channels[i]).name@
            != "introductions"@,
    ensures
        first_intro_channel(channels) is None,
    decreases channels.len(),
{
    if channels.len() > 0 {
        let rest = channels.skip(1);
        assert forall|j: int| 0 <= j < rest.len() implies (#[trigger] rest[j]).name@
            != "introductions"@ by {
            assert(rest[j] == channels[j + 1]);
        }
        lemma_none_named(rest);
    }
}

/// Some channel is the first of the name, or none has it.
proof fn lemma_first_is_some_channel(channels: Seq<ChannelInfo>)
    ensures
        match first_intro_channel(channels) {
            Some(channel) => exists|i: int|
                0 <= i < channels.len() && (#[trigger] channels[i]).name@ == "introductions"@
                    && channels[i].id@ == channel && forall|j: int|
                    0 <= j < i ==> (#[trigger] channels[j]).name@ != "introductions"@,
            None => forall|i: int| 0 <= i < channels.len() ==> (#[trigger] channels[i]).name@
                != "introductions"@,
        },
    decreases channels.len(),
{
    if channels.len() > 0 && channels[0].name@ != "introductions"@ {
        let rest = channels.skip(1);
        lemma_first_is_some_channel(rest);
        match first_intro_channel(rest) {
            Some(channel) => {
                let i = choose|i: int|
                    0 <= i < rest.len() && (#[trigger] rest[i]).name@ == "introductions"@
                        && rest[i].id@ == channel && forall|j: int|
                        0 <= j < i ==> (#[trigger] rest[j]).name@ != "introductions"@;
                assert(channels[i + 1] == rest[i]);
                assert forall|j: int| 0 <= j < i + 1 implies (#[trigger] channels[j]).name@
                    != "introductions"@ by {
                    if j > 0 {
                        assert(channels[j] == rest[j - 1]);
                    }
                }
            },
            None => {
                assert forall|j: int| 0 <= j < channels.len() implies (#[trigger] channels[j]).name@
                    != "introductions"@ by {
                    if j > 0 {
                        assert(channels[j] == rest[j - 1]);
                    }
                }
            },
        }
    }
}

/// The numbers stand in the order of the guilds, each with its own channel.
pub proof fn follow_list_keeps_the_pairs(found: Seq<(GuildId, ChannelId)>)
    ensures
        follow_list(found).len() == found.len(),
        forall|i: int|
            0 <= i < found.len() ==> (#[trigger] follow_list(found)[i]) == (
                found[i].0@,
                found[i].1@,
            ),
{
}

} // verus!
