use introbot::discovery::{collect_guild, find_intro_channel, ChannelError, ChannelInfo};
use introbot::ids::{ChannelId, GuildId, MessageId, UserId};
use introbot::links::{link, ImageHash};
use introbot::model::{Member, Message, MessageUpdate, User};
use introbot::names::NameTable;
use introbot::refresh::{RefreshEvent, RefreshPhase};
use introbot::registry::{Event, EventAction, Registry};
use introbot::state::IntroState;

const GUILD: u64 = 10;
const CHANNEL: u64 = 20;

fn member(user: u64, name: &str, nick: Option<&str>) -> Member {
    Member {
        user: UserId::new(user),
        name: name.to_string(),
        discriminator: None,
        global_name: None,
        nick: nick.map(|n| n.to_string()),
    }
}

fn message(id: u64, channel: u64, author: u64, content: &str) -> Message {
    Message {
        id: MessageId::new(id),
        channel: ChannelId::new(channel),
        guild: Some(GuildId::new(GUILD)),
        author: UserId::new(author),
        content: content.to_string(),
    }
}

fn state() -> IntroState {
    IntroState::new(ChannelId::new(CHANNEL), GuildId::new(GUILD))
}

fn followed() -> Registry {
    let mut registry = Registry::new();
    assert!(registry.track(GuildId::new(GUILD), ChannelId::new(CHANNEL)));
    registry
}

fn content_of(registry: &Registry, user: u64) -> Option<String> {
    let state = registry.state(GuildId::new(GUILD)).unwrap();
    state.get_intro_message(UserId::new(user)).map(|m| m.content)
}

fn found(state: &IntroState, name: &str) -> Option<u64> {
    state.get_user_by_string(name).map(|u| u.get())
}

#[test]
fn a_member_is_found_by_display_name_in_any_case() {
    let mut state = state();
    state.update_user(&member(1, "alice_account", Some("Alice Ärger")));
    assert_eq!(found(&state, "alice ärger"), Some(1));
    assert_eq!(found(&state, "ALICE ÄRGER"), Some(1));
    assert_eq!(found(&state, "alice_account"), Some(1));
    assert_eq!(found(&state, "Alice_Account"), None);
    assert_eq!(found(&state, "bob"), None);
}

#[test]
fn account_names_go_before_display_names() {
    let mut state = state();
    state.update_user(&member(1, "sam", Some("first")));
    state.update_user(&member(2, "other", Some("Sam")));
    assert_eq!(found(&state, "sam"), Some(1));
    assert_eq!(found(&state, "SAM"), Some(2));
}

#[test]
fn an_account_with_a_discriminator_has_no_account_name() {
    let mut state = state();
    let mut old_style = member(1, "legacy", Some("Nick"));
    old_style.discriminator = Some(1234);
    state.update_user(&old_style);
    assert_eq!(found(&state, "legacy"), None);
    assert_eq!(found(&state, "nick"), Some(1));
}

#[test]
fn a_new_nick_replaces_the_old_one() {
    let mut state = state();
    state.update_user(&member(1, "a", Some("Before")));
    state.update_user(&member(1, "a", Some("After")));
    assert_eq!(found(&state, "before"), None);
    assert_eq!(found(&state, "after"), Some(1));
    assert_eq!(state.stats(), (1, 0));
    assert_eq!(state.get_user_displayname(UserId::new(1)).unwrap(), "after");
}

#[test]
fn a_display_name_belongs_to_the_latest_user() {
    let mut state = state();
    state.update_user(&member(1, "one", Some("Same")));
    state.update_user(&member(2, "two", Some("SAME")));
    assert_eq!(found(&state, "same"), Some(2));
    assert_eq!(state.get_user_displayname(UserId::new(2)).unwrap(), "same");
    assert_eq!(state.get_user_displayname(UserId::new(1)).unwrap(), "one");
    assert_eq!(state.stats(), (1, 0));
}

#[test]
fn learning_twice_changes_nothing() {
    let mut state = state();
    state.update_user(&member(1, "one", Some("Nick")));
    state.update_user(&member(1, "one", Some("Nick")));
    assert_eq!(found(&state, "nick"), Some(1));
    assert_eq!(found(&state, "one"), Some(1));
    assert_eq!(state.stats(), (1, 0));
}

#[test]
fn unknown_users_have_no_name() {
    assert!(state().get_user_displayname(UserId::new(9)).is_none());
}

#[test]
fn display_names_come_from_nick_then_account() {
    let mut m = member(1, "name", None);
    assert_eq!(m.display_name(), "name");
    m.global_name = Some("Global".to_string());
    assert_eq!(m.display_name(), "Global");
    m.nick = Some("Nick".to_string());
    assert_eq!(m.display_name(), "Nick");
}

#[test]
fn a_table_keeps_names_and_users_apart() {
    let mut table = NameTable::new();
    assert_eq!(table.len(), 0);
    table.rename("a".to_string(), 1);
    table.rename("b".to_string(), 2);
    assert_eq!(table.len(), 2);
    table.rename("a".to_string(), 2);
    assert_eq!(table.len(), 1);
    assert_eq!(table.user("a"), Some(2));
    assert_eq!(table.user("b"), None);
    assert!(table.name(1).is_none());
    assert_eq!(table.name(2).unwrap(), "a");
}

#[test]
fn the_first_message_stays_the_introduction() {
    let mut state = state();
    state.update_intro_message(UserId::new(1), message(100, CHANNEL, 1, "hi"));
    state.update_intro_message(UserId::new(1), message(101, CHANNEL, 1, "again"));
    assert_eq!(state.get_intro_message(UserId::new(1)).unwrap().content, "hi");
    assert_eq!(state.get_message(101).unwrap().content, "again");
    state.update_intro_message(UserId::new(1), message(100, CHANNEL, 1, "edited"));
    assert_eq!(state.get_intro_message(UserId::new(1)).unwrap().content, "edited");
    assert!(state.get_intro_message(UserId::new(2)).is_none());
    assert!(state.get_message(102).is_none());
    assert_eq!(state.stats(), (0, 1));
}

#[test]
fn history_does_not_overwrite() {
    let mut state = state();
    state.update_intro_message(UserId::new(1), message(100, CHANNEL, 1, "new"));
    state.add_history(message(100, CHANNEL, 1, "old"));
    state.add_history(message(99, CHANNEL, 1, "older"));
    state.add_history(message(98, CHANNEL, 2, "second"));
    assert_eq!(state.get_intro_message(UserId::new(1)).unwrap().content, "new");
    assert_eq!(state.get_intro_message(UserId::new(2)).unwrap().content, "second");
    assert_eq!(state.get_message(99).unwrap().content, "older");
}

#[test]
fn filling_reads_members_then_messages() {
    let mut registry = followed();
    let guild = GuildId::new(GUILD);
    let mut phase = RefreshPhase::Members;
    phase = registry.refresh_intro_channel(guild, phase, RefreshEvent::Member(member(1, "a", None)));
    assert_eq!(phase, RefreshPhase::Members);
    phase = registry.refresh_intro_channel(guild, phase, RefreshEvent::End);
    assert_eq!(phase, RefreshPhase::Messages);
    let first = RefreshEvent::Message(message(5, CHANNEL, 1, "first seen"));
    phase = registry.refresh_intro_channel(guild, phase, first);
    let second = RefreshEvent::Message(message(4, CHANNEL, 1, "second seen"));
    phase = registry.refresh_intro_channel(guild, phase, second);
    assert_eq!(phase, RefreshPhase::Messages);
    phase = registry.refresh_intro_channel(guild, phase, RefreshEvent::End);
    assert_eq!(phase, RefreshPhase::Done);
    assert_eq!(content_of(&registry, 1).unwrap(), "first seen");
    assert_eq!(registry.state(guild).unwrap().stats(), (1, 1));
}

#[test]
fn an_error_ends_the_filling() {
    let mut state = state();
    let phase = state.refresh_intro_channel(RefreshPhase::Members, RefreshEvent::Error);
    assert_eq!(phase, RefreshPhase::Failed);
    let phase = state.refresh_intro_channel(phase, RefreshEvent::Member(member(1, "a", None)));
    assert_eq!(phase, RefreshPhase::Failed);
    assert_eq!(state.stats(), (0, 0));
    let phase = state.refresh_intro_channel(RefreshPhase::Messages, RefreshEvent::Error);
    assert_eq!(phase, RefreshPhase::Failed);
    let mut registry = Registry::new();
    let phase = registry.refresh_intro_channel(GuildId::new(3), RefreshPhase::Members, RefreshEvent::End);
    assert_eq!(phase, RefreshPhase::Failed);
}

#[test]
fn a_guild_is_followed_once() {
    let mut registry = followed();
    assert!(!registry.track(GuildId::new(GUILD), ChannelId::new(99)));
    let state = registry.state(GuildId::new(GUILD)).unwrap();
    assert_eq!(state.intro_channel().get(), CHANNEL);
    assert_eq!(state.guild().get(), GUILD);
    assert!(registry.state(GuildId::new(11)).is_none());
}

#[test]
fn only_the_introductions_channel_counts() {
    let mut registry = followed();
    let action = registry.raw_event(Event::MessageCreate(message(1, 21, 7, "elsewhere")));
    assert_eq!(action, EventAction::Nothing);
    assert!(content_of(&registry, 7).is_none());
    let mut private = message(2, CHANNEL, 7, "private");
    private.guild = None;
    registry.raw_event(Event::MessageCreate(private));
    assert!(content_of(&registry, 7).is_none());
    let mut other = message(3, CHANNEL, 7, "other guild");
    other.guild = Some(GuildId::new(11));
    registry.raw_event(Event::MessageCreate(other));
    assert!(content_of(&registry, 7).is_none());
    assert!(registry.state(GuildId::new(11)).is_none());
    registry.raw_event(Event::MessageCreate(message(4, CHANNEL, 7, "hello")));
    assert_eq!(content_of(&registry, 7).unwrap(), "hello");
}

#[test]
fn an_edit_changes_the_introduction() {
    let mut registry = followed();
    registry.raw_event(Event::MessageCreate(message(4, CHANNEL, 7, "hello")));
    let edit = |id: u64, author: Option<u64>, content: Option<&str>| {
        Event::MessageUpdate(MessageUpdate {
            id: MessageId::new(id),
            channel: ChannelId::new(CHANNEL),
            guild: Some(GuildId::new(GUILD)),
            author: author.map(UserId::new),
            content: content.map(|c| c.to_string()),
        })
    };
    assert_eq!(registry.raw_event(edit(4, Some(7), Some("edited"))), EventAction::Nothing);
    assert_eq!(content_of(&registry, 7).unwrap(), "edited");
    assert_eq!(registry.raw_event(edit(4, Some(7), None)), EventAction::Nothing);
    assert_eq!(content_of(&registry, 7).unwrap(), "edited");
    assert_eq!(registry.raw_event(edit(4, None, Some("no author"))), EventAction::Nothing);
    assert_eq!(content_of(&registry, 7).unwrap(), "edited");
    assert_eq!(registry.raw_event(edit(5, Some(7), Some("x"))), EventAction::NoOriginal);
    let kept = registry.get_message(GuildId::new(GUILD), MessageId::new(4)).unwrap();
    assert_eq!(kept.content, "edited");
    assert!(registry.get_message(GuildId::new(11), MessageId::new(4)).is_none());
}

#[test]
fn an_edit_gives_a_message_its_guild() {
    let mut old = message(4, CHANNEL, 7, "hello");
    old.guild = None;
    assert_eq!(old.link(), "https://discord.com/channels/@me/20/4");
    let update = MessageUpdate {
        id: MessageId::new(4),
        channel: ChannelId::new(CHANNEL),
        guild: Some(GuildId::new(GUILD)),
        author: None,
        content: None,
    };
    update.apply_to_message(&mut old);
    assert_eq!(old.link(), "https://discord.com/channels/10/20/4");
    assert_eq!(old.content, "hello");
    assert_eq!(old.author.get(), 7);
}

#[test]
fn other_events_only_concern_the_cache() {
    let mut registry = followed();
    let cached = vec![
        Event::ChannelCreate,
        Event::ChannelDelete,
        Event::ChannelPinsUpdate,
        Event::ChannelUpdate,
        Event::GuildCreate,
        Event::GuildDelete,
        Event::GuildEmojisUpdate,
        Event::GuildMemberRemove,
        Event::GuildMembersChunk,
        Event::GuildUpdate,
        Event::PresenceUpdate,
        Event::PresencesReplace,
        Event::UserUpdate,
    ];
    for event in cached {
        assert_eq!(registry.raw_event(event), EventAction::UpdateCache);
    }
    assert_eq!(registry.raw_event(Event::MessageDelete), EventAction::Nothing);
    assert_eq!(registry.raw_event(Event::Other), EventAction::Nothing);
}

#[test]
fn members_are_noted_after_the_cache() {
    let mut registry = followed();
    let guild = GuildId::new(GUILD);
    let added = EventAction::UpdateCacheThenOwnMember(guild);
    assert_eq!(registry.raw_event(Event::GuildMemberAdd(guild)), added);
    let changed = EventAction::UpdateCacheThenCachedMember(guild);
    assert_eq!(registry.raw_event(Event::GuildMemberUpdate(guild)), changed);
    registry.cached_member(guild, None);
    assert_eq!(registry.state(guild).unwrap().stats(), (0, 0));
    registry.cached_member(guild, Some(member(3, "carol", None)));
    assert_eq!(found(registry.state(guild).unwrap(), "Carol"), Some(3));
    registry.member_event(GuildId::new(11), &member(4, "dave", None));
    assert!(registry.state(GuildId::new(11)).is_none());
}

#[test]
fn an_announced_edit_makes_a_guild_known() {
    let mut registry = followed();
    let guild = GuildId::new(GUILD);
    assert!(registry.message_update(Some(guild), ChannelId::new(CHANNEL)));
    assert!(!registry.message_update(Some(guild), ChannelId::new(21)));
    assert!(!registry.message_update(None, ChannelId::new(CHANNEL)));
    let unknown = GuildId::new(11);
    assert!(!registry.message_update(Some(unknown), ChannelId::new(CHANNEL)));
    assert_eq!(registry.state(unknown).unwrap().intro_channel().get(), 1);
    assert_eq!(registry.state(unknown).unwrap().guild().get(), 1);
    assert!(registry.message_update(Some(unknown), ChannelId::new(1)));
    assert!(!registry.track(unknown, ChannelId::new(5)));
}

fn channels(names: Vec<(u64, &str)>) -> Option<Vec<ChannelInfo>> {
    let listed = names.into_iter().map(|(id, name)| ChannelInfo {
        id: ChannelId::new(id),
        name: name.to_string(),
    });
    Some(listed.collect())
}

#[test]
fn the_introductions_channel_is_found_by_name() {
    let listed = channels(vec![(1, "general"), (2, "introductions"), (3, "introductions")]);
    assert_eq!(find_intro_channel(&listed).unwrap().get(), 2);
    assert_eq!(find_intro_channel(&channels(vec![(1, "Introductions")])), Err(ChannelError::NotFound));
    assert_eq!(find_intro_channel(&channels(vec![])), Err(ChannelError::NotFound));
    assert_eq!(find_intro_channel(&None), Err(ChannelError::Unavailable));
}

#[test]
fn guilds_without_the_channel_are_left_out() {
    let mut list = Vec::new();
    let good = channels(vec![(2, "introductions")]);
    assert!(collect_guild(&mut list, GuildId::new(1), &good).is_ok());
    assert_eq!(collect_guild(&mut list, GuildId::new(2), &None), Err(ChannelError::Unavailable));
    let bad = channels(vec![(4, "chat")]);
    assert_eq!(collect_guild(&mut list, GuildId::new(3), &bad), Err(ChannelError::NotFound));
    assert_eq!(list.len(), 1);
    assert_eq!(list[0].0.get(), 1);
    assert_eq!(list[0].1.get(), 2);
}

#[test]
fn links_to_messages() {
    let guild = Some(GuildId::new(18446744073709551615));
    assert_eq!(
        link(MessageId::new(30), ChannelId::new(1), guild),
        "https://discord.com/channels/18446744073709551615/1/30"
    );
}

#[test]
fn addresses_of_pictures() {
    let plain = "0123456789abcdef0123456789abcdef";
    let hash = ImageHash::new(plain.to_string()).unwrap();
    assert_eq!(
        hash.avatar_url(UserId::new(42)).unwrap(),
        "https://cdn.discordapp.com/avatars/42/0123456789abcdef0123456789abcdef.webp?size=1024"
    );
    let hash = ImageHash::new(format!("a_{}", plain)).unwrap();
    assert_eq!(
        hash.avatar_url(UserId::new(7)).unwrap(),
        "https://cdn.discordapp.com/avatars/7/a_0123456789abcdef0123456789abcdef.gif?size=1024"
    );
    let hash = ImageHash::new("clyde".to_string()).unwrap();
    assert_eq!(
        hash.avatar_url(UserId::new(1)).unwrap(),
        "https://cdn.discordapp.com/avatars/1/clyde.gif?size=1024"
    );
    assert!(ImageHash::new("0123456789ABCDEF0123456789abcdef".to_string()).is_none());
    assert!(ImageHash::new("b_0123456789abcdef0123456789abcdef".to_string()).is_none());
    assert!(ImageHash::new("".to_string()).is_none());
    let user = User { id: UserId::new(1), name: "n".to_string(), avatar: None };
    assert!(user.avatar_url().is_none());
}

#[test]
fn an_added_guild_is_followed_if_it_has_the_channel() {
    let mut registry = Registry::new();
    let guild = GuildId::new(GUILD);
    assert_eq!(registry.guild_create(guild, &None), Err(ChannelError::Unavailable));
    let bad = channels(vec![(4, "chat")]);
    assert_eq!(registry.guild_create(guild, &bad), Err(ChannelError::NotFound));
    assert!(registry.state(guild).is_none());
    let good = channels(vec![(4, "chat"), (CHANNEL, "introductions")]);
    assert_eq!(registry.guild_create(guild, &good), Ok(Some(ChannelId::new(CHANNEL))));
    assert_eq!(registry.guild_create(guild, &good), Ok(None));
    assert_eq!(registry.state(guild).unwrap().intro_channel().get(), CHANNEL);
}

#[test]
fn listed_guilds_are_followed_once() {
    let mut registry = followed();
    let pair = |guild: u64, channel: u64| (GuildId::new(guild), ChannelId::new(channel));
    let list = vec![pair(11, 1), pair(GUILD, 2), pair(12, 3), pair(11, 4)];
    let new = registry.cache_ready(&list);
    assert_eq!(new, vec![pair(11, 1), pair(12, 3)]);
    assert_eq!(registry.state(GuildId::new(11)).unwrap().intro_channel().get(), 1);
    assert_eq!(registry.state(GuildId::new(GUILD)).unwrap().intro_channel().get(), CHANNEL);
    assert!(registry.cache_ready(&list).is_empty());
}
