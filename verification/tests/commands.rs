use introbot::command::{
    command_usage, heeds_message, intro, message_reply, usage_reply, Embed, IntroAction, IntroEvent, IntroPhase,
    IntroRequest, SendOutcome,
};
use introbot::ids::{ChannelId, GuildId, MessageId, UserId};
use introbot::links::ImageHash;
use introbot::model::{Member, Message, User};
use introbot::registry::{Event, Registry};

const HELP: &str = "error: !intro requires an argument (a @user or display name)";

fn guild() -> GuildId {
    GuildId::new(10)
}

fn user(id: u64, name: &str) -> User {
    User { id: UserId::new(id), name: name.to_string(), avatar: None }
}

fn request(argument: Option<&str>, mentions: Vec<User>) -> IntroEvent {
    IntroEvent::Request(IntroRequest {
        argument: argument.map(|a| a.to_string()),
        mentions,
        guild: Some(guild()),
    })
}

fn registry() -> Registry {
    let mut registry = Registry::new();
    registry.track(guild(), ChannelId::new(20));
    let member = Member {
        user: UserId::new(1),
        name: "alice".to_string(),
        discriminator: None,
        global_name: Some("Alice In Chains".to_string()),
        nick: None,
    };
    registry.member_event(guild(), &member);
    registry.raw_event(Event::MessageCreate(Message {
        id: MessageId::new(100),
        channel: ChannelId::new(20),
        guild: Some(guild()),
        author: UserId::new(1),
        content: "I am Alice".to_string(),
    }));
    registry
}

fn embed() -> Embed {
    Embed {
        title: "**alice in chains**".to_string(),
        colour: 0x7598ff,
        description: "I am Alice".to_string(),
        field_name: "".to_string(),
        field_value: "https://discord.com/channels/10/20/100".to_string(),
        field_inline: true,
        thumbnail: None,
    }
}

fn plain() -> String {
    "**alice in chains**\nI am Alice".to_string()
}

#[test]
fn a_request_needs_an_argument() {
    let (phase, action) = intro(&registry(), IntroPhase::Start, request(None, vec![]));
    assert_eq!(action, IntroAction::Reply(HELP.to_string()));
    let (phase, action) = intro(&registry(), phase, IntroEvent::Delivered);
    assert_eq!((phase, action), (IntroPhase::Finished, IntroAction::Finish));
}

#[test]
fn a_request_takes_one_mention() {
    let two = request(Some("@a @b"), vec![user(1, "a"), user(2, "b")]);
    let (_, action) = intro(&registry(), IntroPhase::Start, two);
    assert_eq!(action, IntroAction::Reply(HELP.to_string()));
}

#[test]
fn requests_outside_of_followed_guilds_are_dropped() {
    let nowhere = IntroEvent::Request(IntroRequest {
        argument: Some("alice".to_string()),
        mentions: vec![],
        guild: None,
    });
    let step = intro(&registry(), IntroPhase::Start, nowhere);
    assert_eq!(step, (IntroPhase::Finished, IntroAction::Finish));
    let step = intro(&Registry::new(), IntroPhase::Start, request(Some("alice"), vec![]));
    assert_eq!(step, (IntroPhase::Finished, IntroAction::Finish));
}

#[test]
fn a_mentioned_user_is_introduced() {
    let mention = request(Some("<@1>"), vec![user(1, "alice")]);
    let (phase, action) = intro(&registry(), IntroPhase::Start, mention);
    assert_eq!(action, IntroAction::SendEmbed(embed()));
    assert_eq!(phase, IntroPhase::AwaitingEmbed { plain: plain() });
    let sent = IntroEvent::EmbedSent(SendOutcome::Sent);
    assert_eq!(intro(&registry(), phase, sent), (IntroPhase::Finished, IntroAction::Finish));
}

#[test]
fn a_named_user_is_looked_up_in_the_cache() {
    let (phase, action) =
        intro(&registry(), IntroPhase::Start, request(Some("ALICE in chains"), vec![]));
    assert_eq!(action, IntroAction::LookUpCached(UserId::new(1)));
    let cached = IntroEvent::Cached(Some(user(1, "alice")));
    let (_, action) = intro(&registry(), phase, cached);
    assert_eq!(action, IntroAction::SendEmbed(embed()));
}

#[test]
fn a_user_who_is_not_cached_is_fetched() {
    let (phase, _) = intro(&registry(), IntroPhase::Start, request(Some("alice"), vec![]));
    let (phase, action) = intro(&registry(), phase, IntroEvent::Cached(None));
    assert_eq!(action, IntroAction::FetchUser(UserId::new(1)));
    let fetched = IntroEvent::Fetched(Some(user(1, "alice")));
    let (_, action) = intro(&registry(), phase, fetched);
    assert_eq!(action, IntroAction::SendEmbed(embed()));
}

#[test]
fn a_server_that_does_not_answer_fails_the_request() {
    let (phase, _) = intro(&registry(), IntroPhase::Start, request(Some("alice"), vec![]));
    let (phase, _) = intro(&registry(), phase, IntroEvent::Cached(None));
    let step = intro(&registry(), phase, IntroEvent::Fetched(None));
    assert_eq!(step, (IntroPhase::Finished, IntroAction::Fail));
}

#[test]
fn an_unknown_name_is_reported() {
    let (phase, action) = intro(&registry(), IntroPhase::Start, request(Some("Bob B"), vec![]));
    assert_eq!(action, IntroAction::Reply("no user with display name Bob B".to_string()));
    assert_eq!(phase, IntroPhase::AwaitingDelivery);
}

#[test]
fn a_missing_introduction_is_reported() {
    let mention = request(Some("<@2>"), vec![user(2, "Bob")]);
    let (_, action) = intro(&registry(), IntroPhase::Start, mention);
    assert_eq!(action, IntroAction::Reply("intro seems to have vanished for Bob".to_string()));
}

#[test]
fn a_long_introduction_goes_out_as_text() {
    let mention = request(Some("<@1>"), vec![user(1, "alice")]);
    let (phase, _) = intro(&registry(), IntroPhase::Start, mention);
    let codes = vec!["OTHER".to_string(), "BASE_TYPE_MAX_LENGTH".to_string()];
    let rejected = IntroEvent::EmbedSent(SendOutcome::Rejected(codes));
    let (phase, action) = intro(&registry(), phase, rejected);
    assert_eq!(action, IntroAction::SendText(plain()));
    let step = intro(&registry(), phase, IntroEvent::Delivered);
    assert_eq!(step, (IntroPhase::Finished, IntroAction::Finish));
}

#[test]
fn other_failures_end_the_request() {
    let waiting = || IntroPhase::AwaitingEmbed { plain: plain() };
    let codes = vec!["OTHER".to_string()];
    let rejected = IntroEvent::EmbedSent(SendOutcome::Rejected(codes));
    let step = intro(&registry(), waiting(), rejected);
    assert_eq!(step, (IntroPhase::Finished, IntroAction::Finish));
    let failed = IntroEvent::EmbedSent(SendOutcome::Failed);
    let step = intro(&registry(), waiting(), failed);
    assert_eq!(step, (IntroPhase::Finished, IntroAction::Finish));
}

#[test]
fn a_user_without_known_name_is_called_by_account() {
    let mut registry = registry();
    registry.raw_event(Event::MessageCreate(Message {
        id: MessageId::new(101),
        channel: ChannelId::new(20),
        guild: Some(guild()),
        author: UserId::new(2),
        content: "Bob here".to_string(),
    }));
    let mut bob = user(2, "Bob");
    bob.avatar = ImageHash::new("0123456789abcdef0123456789abcdef".to_string());
    let mention = request(Some("<@2>"), vec![bob]);
    let (_, action) = intro(&registry, IntroPhase::Start, mention);
    match action {
        IntroAction::SendEmbed(embed) => {
            assert_eq!(embed.title, "**Bob**");
            assert_eq!(
                embed.thumbnail.unwrap(),
                "https://cdn.discordapp.com/avatars/2/0123456789abcdef0123456789abcdef.webp?size=1024"
            );
        }
        _ => panic!("no introduction"),
    }
}

#[test]
fn usage_is_given_when_asked_for() {
    assert_eq!(usage_reply(Some(true), "@introbot usage").unwrap(), command_usage());
    assert!(usage_reply(Some(true), "@introbot help").is_none());
    assert!(usage_reply(Some(false), "usage").is_none());
    assert!(usage_reply(None, "@introbot usage").is_none());
    assert!(command_usage().starts_with("Usage:\n!intro <username>   - reply with"));
    assert!(command_usage().ends_with("@introbot usage     - this message\n"));
}

#[test]
fn own_messages_are_ignored() {
    assert!(!heeds_message(UserId::new(5), UserId::new(5)));
    assert!(heeds_message(UserId::new(6), UserId::new(5)));
}

#[test]
fn only_messages_of_others_get_the_help() {
    let (me, other) = (UserId::new(5), UserId::new(6));
    let asked = "@introbot usage";
    assert_eq!(message_reply(other, me, Some(true), asked).unwrap(), command_usage());
    assert!(message_reply(me, me, Some(true), asked).is_none());
    assert!(message_reply(other, me, Some(false), asked).is_none());
    assert!(message_reply(other, me, None, asked).is_none());
    assert!(message_reply(other, me, Some(true), "usage?").is_none());
}
