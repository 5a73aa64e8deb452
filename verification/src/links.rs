//! The addresses that a reply points to: a message, and the picture of a user.

use vstd::prelude::*;

use crate::ids::{ChannelId, GuildId, MessageId, UserId};
use crate::text::chars_of;

verus! {

/// The decimal digits of `n`, without leading zeros.
pub open spec fn decimal(n: nat) -> Seq<char>
    decreases n,
{
    if n < 10 {
        seq![('0' as nat + n) as char]
    } else {
        decimal(n / 10).push(('0' as nat + n % 10) as char)
    }
}

/// The address of a message: of one in a guild, or of one in a private channel.
pub open spec fn message_link(message: u64, channel: u64, guild: Option<u64>) -> Seq<char> {
    let place = match guild {
        Some(g) => decimal(g as nat),
        None => "@me"@,
    };
    "https://discord.com/channels/"@ + place + "/"@ + decimal(channel as nat) + "/"@ + decimal(
        message as nat,
    )
}

/// `MessageId::link` of the `serenity` crate: the address of a message, in which the identifiers
/// stand as decimal numbers and `@me` for a missing guild. An identifier there cannot be zero.
#[verifier::external_body]
fn serenity_link(message: u64, channel: u64, guild: Option<u64>) -> (link: String)
    requires
        message != 0,
        channel != 0,
        guild != Some(0u64),
    ensures
        link@ == message_link(message, channel, guild),
{
    let channel = serenity::model::id::ChannelId::new(channel);
    let guild = guild.map(serenity::model::id::GuildId::new);
    serenity::model::id::MessageId::new(message).link(channel, guild)
}

/// The address under which a message can be opened.
pub fn link(message: MessageId, channel: ChannelId, guild: Option<GuildId>) -> (link: String)
    ensures
        link@ == message_link(message@, channel@, crate::ids::guild_number(guild)),
{
    let guild = match guild {
        Some(g) => Some(g.get()),
        None => None,
    };
    serenity_link(message.get(), channel.get(), guild)
}

/// A digit of a picture's hash.
pub open spec fn is_hash_digit(c: char) -> bool {
    '0' <= c <= '9' || 'a' <= c <= 'f'
}

/// `true` for the thirty-two digits of a hash.
pub open spec fn are_hash_digits(digits: Seq<char>) -> bool {
    digits.len() == 32 && forall|i: int| 0 <= i < 32 ==> is_hash_digit(#[trigger] digits[i])
}

/// The forms of a picture's hash: the digits, `a_` and the digits for an animated picture, and
/// `clyde` for Discord's own.
pub open spec fn is_image_hash(text: Seq<char>) -> bool {
    ||| text == "clyde"@
    ||| are_hash_digits(text)
    ||| text.len() == 34 && text[0] == 'a' && text[1] == '_' && are_hash_digits(text.skip(2))
}

/// The address of a user's picture: animated ones are a `gif`, the others a `webp`.
pub open spec fn avatar_link(user: u64, hash: Seq<char>) -> Seq<char> {
    let ending = if are_hash_digits(hash) {
        ".webp?size=1024"@
    } else {
        ".gif?size=1024"@
    };
    "https://cdn.discordapp.com/avatars/"@ + decimal(user as nat) + "/"@ + hash + ending
}

/// The hash by which a user's picture is found.
#[derive(Debug)]
pub struct ImageHash {
    text: String,
}

impl View for ImageHash {
    type V = Seq<char>;

    closed spec fn view(&self) -> Seq<char> {
        self.text@
    }
}

/// Tells whether the characters from `start` on are the digits of a hash.
fn check_hash_digits(chars: &Vec<char>, start: usize) -> (answer: bool)
    requires
        start <= chars@.len(),
    ensures
        answer == are_hash_digits(chars@.skip(start as int)),
{
    if chars.len() - start != 32 {
        return false;
    }
    for i in start..chars.len()
        invariant
            chars@.len() == start + 32,
            forall|j: int| start <= j < i ==> is_hash_digit(#[trigger] chars@[j]),
    {
        let c = chars[i];
        if !(('0' <= c && c <= '9') || ('a' <= c && c <= 'f')) {
            assert(!is_hash_digit(chars@.skip(start as int)[i - start]));
            return false;
        }
    }
    true
}

impl ImageHash {
    #[verifier::type_invariant]
    spec fn valid(self) -> bool {
        is_image_hash(self.text@)
    }

    /// The hash with the given text, if the text has one of the forms of a hash.
    pub fn new(text: String) -> (hash: Option<ImageHash>)
        ensures
            hash is Some <==> is_image_hash(text@),
            hash matches Some(h) ==> h@ == text@,
    {
        let chars = chars_of(text.as_str());
        assert(text@.skip(0) =~= text@);
        let animated = chars.len() == 34 && chars[0] == 'a' && chars[1] == '_'
            && check_hash_digits(&chars, 2);
        if text == "clyde".to_owned() || check_hash_digits(&chars, 0) || animated {
            Some(ImageHash { text })
        } else {
            None
        }
    }

    /// The address of the picture, as one of the given user.
    pub fn avatar_url(&self, user: UserId) -> (url: Option<String>)
        ensures
            crate::text::text_of(url) == Some(avatar_link(user@, self@)),
    {
        proof {
            use_type_invariant(self);
        }
        serenity_avatar_url(user.get(), self.text.as_str())
    }
}

/// `User::avatar_url` of the `serenity` crate, for a user with a picture: the address is made of
/// the user's number and of the hash. The text of a hash is read by that crate's
/// `ImageHash::from_str` and written again as it was, provided that its letters are small ones.
#[verifier::external_body]
fn serenity_avatar_url(user: u64, hash: &str) -> (url: Option<String>)
    requires
        user != 0,
        is_image_hash(hash@),
    ensures
        crate::text::text_of(url) == Some(avatar_link(user, hash@)),
{
    let mut owner = serenity::model::user::User::default();
    owner.id = serenity::model::id::UserId::new(user);
    owner.avatar = hash.parse().ok();
    owner.avatar_url()
}

/// The number that digits stand for.
pub open spec fn number_of(digits: Seq<char>) -> int
    decreases digits.len(),
{
    if digits.len() == 0 {
        0
    } else {
        10 * number_of(digits.drop_last()) + (digits.last() as int - '0' as int)
    }
}

/// A number is written in digits that stand for it, the first of them no zero unless it is the only
/// one.
pub proof fn decimal_stands_for_the_number(n: nat)
    ensures
        decimal(n).len() > 0,
        forall|i: int| 0 <= i < decimal(n).len() ==> '0' <= #[trigger] decimal(n)[i] <= '9',
        number_of(decimal(n)) == n,
        n > 0 ==> decimal(n)[0] != '0',
        n < 10 ==> decimal(n).len() == 1,
    decreases n,
{
    reveal_with_fuel(number_of, 2);
    if n < 10 {
        assert(decimal(n).drop_last() =~= Seq::<char>::empty());
    } else {
        decimal_stands_for_the_number(n / 10);
        assert(decimal(n).drop_last() =~= decimal(n / 10));
    }
}

/// Where two texts are each followed by a sign that they do not hold, the one ends where the other
/// does.
proof fn lemma_split_at_sign(a: Seq<char>, s: Seq<char>, b: Seq<char>, t: Seq<char>, sign: char)
    requires
        a + s == b + t,
        s.len() > 0 && s[0] == sign,
        t.len() > 0 && t[0] == sign,
        forall|i: int| 0 <= i < a.len() ==> (#[trigger] a[i]) != sign,
        forall|i: int| 0 <= i < b.len() ==> (#[trigger] b[i]) != sign,
    ensures
        a == b,
        s == t,
{
    let whole = a + s;
    assert(whole[a.len() as int] == sign);
    assert((b + t)[b.len() as int] == sign);
    if a.len() < b.len() {
        assert((b + t)[a.len() as int] == b[a.len() as int]);
    }
    if b.len() < a.len() {
        assert(whole[b.len() as int] == a[b.len() as int]);
    }
    assert(a =~= whole.take(a.len() as int));
    assert(b =~= whole.take(a.len() as int));
    assert(s =~= whole.skip(a.len() as int));
    assert(t =~= whole.skip(a.len() as int));
}

/// Two texts behind the same beginning are the same where the whole is.
proof fn lemma_same_front(front: Seq<char>, a: Seq<char>, b: Seq<char>)
    requires
        front + a == front + b,
    ensures
        a == b,
{
    assert(a =~= (front + a).skip(front.len() as int));
    assert(b =~= (front + b).skip(front.len() as int));
}

/// The address of a message in a guild holds the guild, the channel and the message, in this order,
/// and that of a private message `@me` in place of the guild.
pub proof fn message_link_has_its_parts(message: u64, channel: u64, guild: u64)
    ensures
        message_link(message, channel, Some(guild)) == "https://discord.com/channels/"@ + decimal(
            guild as nat,
        ) + "/"@ + decimal(channel as nat) + "/"@ + decimal(message as nat),
        message_link(message, channel, None) == "https://discord.com/channels/@me/"@ + decimal(
            channel as nat,
        ) + "/"@ + decimal(message as nat),
{
    reveal_strlit("https://discord.com/channels/");
    reveal_strlit("https://discord.com/channels/@me/");
    reveal_strlit("@me");
    reveal_strlit("/");
    assert("https://discord.com/channels/"@ + "@me"@ + "/"@ =~= "https://discord.com/channels/@me/"@);
}

/// Two messages with the same address are the same message of the same channel and guild.
pub proof fn message_links_are_unique(
    message1: u64,
    channel1: u64,
    guild1: Option<u64>,
    message2: u64,
    channel2: u64,
    guild2: Option<u64>,
)
    requires
        message_link(message1, channel1, guild1) == message_link(message2, channel2, guild2),
    ensures
        message1 == message2,
        channel1 == channel2,
        guild1 == guild2,
{
    reveal_strlit("@me");
    reveal_strlit("/");
    let front = "https://discord.com/channels/"@;
    let place1 = match guild1 {
        Some(g) => decimal(g as nat),
        None => "@me"@,
    };
    let place2 = match guild2 {
        Some(g) => decimal(g as nat),
        None => "@me"@,
    };
    if let Some(g) = guild1 {
        decimal_stands_for_the_number(g as nat);
    }
    if let Some(g) = guild2 {
        decimal_stands_for_the_number(g as nat);
    }
    decimal_stands_for_the_number(channel1 as nat);
    decimal_stands_for_the_number(channel2 as nat);
    decimal_stands_for_the_number(message1 as nat);
    decimal_stands_for_the_number(message2 as nat);
    let c1 = decimal(channel1 as nat);
    let c2 = decimal(channel2 as nat);
    let last1 = "/"@ + decimal(message1 as nat);
    let last2 = "/"@ + decimal(message2 as nat);
    let tail1 = "/"@ + (c1 + last1);
    let tail2 = "/"@ + (c2 + last2);
    assert(message_link(message1, channel1, guild1) =~= front + (place1 + tail1));
    assert(message_link(message2, channel2, guild2) =~= front + (place2 + tail2));
    lemma_same_front(front, place1 + tail1, place2 + tail2);
    lemma_split_at_sign(place1, tail1, place2, tail2, '/');
    lemma_same_front("/"@, c1 + last1, c2 + last2);
    lemma_split_at_sign(c1, last1, c2, last2, '/');
    lemma_same_front("/"@, decimal(message1 as nat), decimal(message2 as nat));
    assert(place1[0] == place2[0]);
}

/// A text is the hash of a picture exactly if it is `clyde`, or thirty-two of the digits `0` to `9`
/// and `a` to `f`, or those behind `a_`.
pub proof fn hashes_have_three_forms(text: Seq<char>)
    ensures
        is_image_hash(text) <==> {
            ||| text == "clyde"@
            ||| text.len() == 32 && forall|i: int|
                0 <= i < text.len() ==> '0' <= #[trigger] text[i] <= '9' || 'a' <= text[i] <= 'f'
            ||| text.len() == 34 && text[0] == 'a' && text[1] == '_' && forall|i: int|
                2 <= i < text.len() ==> '0' <= #[trigger] text[i] <= '9' || 'a' <= text[i] <= 'f'
        },
{
    if text.len() == 34 {
        let digits = text.skip(2);
        if are_hash_digits(digits) {
            assert forall|i: int| 2 <= i < text.len() implies '0' <= #[trigger] text[i] <= '9'
                || 'a' <= text[i] <= 'f' by {
                assert(is_hash_digit(digits[i - 2]));
            }
        }
    }
    if text.len() == 32 && are_hash_digits(text) {
        assert forall|i: int| 0 <= i < text.len() implies '0' <= #[trigger] text[i] <= '9' || 'a'
            <= text[i] <= 'f' by {
            assert(is_hash_digit(text[i]));
        }
    }
}

/// The address of a picture holds the user and the hash. One that moves, whose hash begins with
/// `a_`, is a `gif`, and so is Discord's own; any other is a `webp`.
pub proof fn avatar_link_has_its_parts(user: u64, hash: Seq<char>)
    requires
        is_image_hash(hash),
    ensures
        hash.len() == 32 ==> avatar_link(user, hash) == "https://cdn.discordapp.com/avatars/"@
            + decimal(user as nat) + "/"@ + hash + ".webp?size=1024"@,
        hash.len() == 34 || hash == "clyde"@ ==> avatar_link(user, hash)
            == "https://cdn.discordapp.com/avatars/"@ + decimal(user as nat) + "/"@ + hash
            + ".gif?size=1024"@,
{
    reveal_strlit("clyde");
}

/// Two users share the address of a picture only if they are the same user with the same picture.
pub proof fn avatar_links_are_unique(user1: u64, hash1: Seq<char>, user2: u64, hash2: Seq<char>)
    requires
        is_image_hash(hash1),
        is_image_hash(hash2),
        avatar_link(user1, hash1) == avatar_link(user2, hash2),
    ensures
        user1 == user2,
        hash1 == hash2,
{
    reveal_strlit("/");
    reveal_strlit(".webp?size=1024");
    reveal_strlit(".gif?size=1024");
    reveal_strlit("clyde");
    hashes_have_three_forms(hash1);
    hashes_have_three_forms(hash2);
    decimal_stands_for_the_number(user1 as nat);
    decimal_stands_for_the_number(user2 as nat);
    let front = "https://cdn.discordapp.com/avatars/"@;
    let end1 = if are_hash_digits(hash1) {
        ".webp?size=1024"@
    } else {
        ".gif?size=1024"@
    };
    let end2 = if are_hash_digits(hash2) {
        ".webp?size=1024"@
    } else {
        ".gif?size=1024"@
    };
    let u1 = decimal(user1 as nat);
    let u2 = decimal(user2 as nat);
    let tail1 = "/"@ + (hash1 + end1);
    let tail2 = "/"@ + (hash2 + end2);
    assert(avatar_link(user1, hash1) =~= front + (u1 + tail1));
    assert(avatar_link(user2, hash2) =~= front + (u2 + tail2));
    lemma_same_front(front, u1 + tail1, u2 + tail2);
    lemma_split_at_sign(u1, tail1, u2, tail2, '/');
    lemma_same_front("/"@, hash1 + end1, hash2 + end2);
    lemma_split_at_sign(hash1, end1, hash2, end2, '.');
}

} // verus!
