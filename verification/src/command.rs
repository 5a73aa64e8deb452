//! The commands of the bot: `!intro`, and the help that it gives when asked for its usage.

use vstd::prelude::*;

use crate::ids::{GuildId, UserId};
use crate::model::User;
use crate::registry::Registry;
use crate::state::IntroState;
use crate::text::{ends_with, join2, join3};

verus! {

/// The answer to a request that names nobody, or more than one user.
pub const BAD_REQUEST: &'static str = "error: !intro requires an argument (a @user or display name)";

/// The help.
pub const USAGE: &'static str = "Usage:\n!intro <username>   - reply with the introduction post for the mentioned user. Accepted formats for the user are a mention ('@user'), or the user's chosen display name.\n@introbot usage     - this message\n";

/// The code of the error that says that an embed is too long.
pub const TOO_LONG: &'static str = "BASE_TYPE_MAX_LENGTH";

/// The colour of an introduction.
pub const INTRO_COLOUR: u32 = 0x7598ff;

/// A request for an introduction.
#[derive(Debug)]
pub struct IntroRequest {
    /// What stands behind the command, unless it is nothing.
    pub argument: Option<String>,
    /// The users that the message mentions.
    pub mentions: Vec<User>,
    /// The guild in which the request was made.
    pub guild: Option<GuildId>,
}

/// How a message was received.
#[derive(Debug)]
pub enum SendOutcome {
    Sent,
    /// It was turned down, with the codes of the errors.
    Rejected(Vec<String>),
    /// It could not be sent.
    Failed,
}

/// What happened since the last step of a request.
#[derive(Debug)]
pub enum IntroEvent {
    Request(IntroRequest),
    /// The cache was asked for a user.
    Cached(Option<User>),
    /// The server was asked for a user; none means that it did not answer.
    Fetched(Option<User>),
    /// The introduction was sent.
    EmbedSent(SendOutcome),
    /// A reply or a plain message was sent, or could not be.
    Delivered,
}

/// An introduction as it is shown.
#[derive(Debug, PartialEq, Eq)]
pub struct Embed {
    pub title: String,
    pub colour: u32,
    pub description: String,
    pub field_name: String,
    pub field_value: String,
    pub field_inline: bool,
    pub thumbnail: Option<String>,
}

/// An introduction as it is shown, in contracts.
#[verifier::ext_equal]
pub struct EmbedView {
    pub title: Seq<char>,
    pub colour: u32,
    pub description: Seq<char>,
    pub field_name: Seq<char>,
    pub field_value: Seq<char>,
    pub field_inline: bool,
    pub thumbnail: Option<Seq<char>>,
}

impl View for Embed {
    type V = EmbedView;

    open spec fn view(&self) -> EmbedView {
        EmbedView {
            title: self.title@,
            colour: self.colour,
            description: self.description@,
            field_name: self.field_name@,
            field_value: self.field_value@,
            field_inline: self.field_inline,
            thumbnail: crate::text::text_of(self.thumbnail),
        }
    }
}

/// How far a request has come.
#[derive(Debug, PartialEq, Eq)]
pub enum IntroPhase {
    Start,
    /// The cache is asked for the user.
    AwaitingCached { guild: GuildId, user: UserId },
    /// The server is asked for the user.
    AwaitingFetched { guild: GuildId, user: UserId },
    /// The introduction is being sent; `plain` goes out in its place if it is too long.
    AwaitingEmbed { plain: String },
    /// The last message is being sent.
    AwaitingDelivery,
    Finished,
}

/// How far a request has come, in contracts.
pub enum PhaseView {
    Start,
    AwaitingCached { guild: u64, user: u64 },
    AwaitingFetched { guild: u64, user: u64 },
    AwaitingEmbed { plain: Seq<char> },
    AwaitingDelivery,
    Finished,
}

impl View for IntroPhase {
    type V = PhaseView;

    open spec fn view(&self) -> PhaseView {
        match self {
            IntroPhase::Start => PhaseView::Start,
            IntroPhase::AwaitingCached { guild, user } => PhaseView::AwaitingCached {
                guild: guild@,
                user: user@,
            },
            IntroPhase::AwaitingFetched { guild, user } => PhaseView::AwaitingFetched {
                guild: guild@,
                user: user@,
            },
            IntroPhase::AwaitingEmbed { plain } => PhaseView::AwaitingEmbed { plain: plain@ },
            IntroPhase::AwaitingDelivery => PhaseView::AwaitingDelivery,
            IntroPhase::Finished => PhaseView::Finished,
        }
    }
}

/// What is to be done next about a request.
#[derive(Debug, PartialEq, Eq)]
pub enum IntroAction {
    /// Reply to the request.
    Reply(String),
    /// Ask the cache for a user.
    LookUpCached(UserId),
    /// Ask the server for a user.
    FetchUser(UserId),
    /// Send an introduction.
    SendEmbed(Embed),
    /// Send a plain message.
    SendText(String),
    /// Nothing is left to do.
    Finish,
    /// Report that the server did not answer.
    Fail,
}

/// What is to be done next about a request, in contracts.
pub enum ActionView {
    Reply(Seq<char>),
    LookUpCached(u64),
    FetchUser(u64),
    SendEmbed(EmbedView),
    SendText(Seq<char>),
    Finish,
    Fail,
}

impl View for IntroAction {
    type V = ActionView;

    open spec fn view(&self) -> ActionView {
        match self {
            IntroAction::Reply(text) => ActionView::Reply(text@),
            IntroAction::LookUpCached(user) => ActionView::LookUpCached(user@),
            IntroAction::FetchUser(user) => ActionView::FetchUser(user@),
            IntroAction::SendEmbed(embed) => ActionView::SendEmbed(embed@),
            IntroAction::SendText(text) => ActionView::SendText(text@),
            IntroAction::Finish => ActionView::Finish,
            IntroAction::Fail => ActionView::Fail,
        }
    }
}

/// A reply ends a request, however it is received.
pub open spec fn reply_with(text: Seq<char>) -> (PhaseView, ActionView) {
    (PhaseView::AwaitingDelivery, ActionView::Reply(text))
}

/// A request that is dropped without an answer.
pub open spec fn drop_request() -> (PhaseView, ActionView) {
    (PhaseView::Finished, ActionView::Finish)
}

/// The name by which an introduction calls a user.
pub open spec fn nick_of(state: crate::state::StateView, user: crate::model::UserView) -> Seq<
    char,
> {
    match state.user_displayname(user.id) {
        Some(name) => name,
        None => user.name,
    }
}

/// The introduction of a user whose message is `message`.
pub open spec fn embed_for(
    state: crate::state::StateView,
    user: crate::model::UserView,
    message: crate::model::MessageView,
) -> EmbedView {
    EmbedView {
        title: "**"@ + nick_of(state, user) + "**"@,
        colour: INTRO_COLOUR,
        description: message.content,
        field_name: Seq::empty(),
        field_value: message.link(),
        field_inline: true,
        thumbnail: user.avatar_url(),
    }
}

/// The introduction as a plain message.
pub open spec fn plain_for(
    state: crate::state::StateView,
    user: crate::model::UserView,
    message: crate::model::MessageView,
) -> Seq<char> {
    "**"@ + nick_of(state, user) + "**\n"@ + message.content
}

/// The step once it is known who is meant: the introduction, or the news that there is none.
pub open spec fn introduce(
    state: crate::state::StateView,
    user: crate::model::UserView,
) -> (PhaseView, ActionView) {
    match state.intro_message(user.id) {
        Some(message) => (
            PhaseView::AwaitingEmbed { plain: plain_for(state, user, message) },
            ActionView::SendEmbed(embed_for(state, user, message)),
        ),
        None => reply_with("intro seems to have vanished for "@ + user.name),
    }
}

/// The first step of a request.
pub open spec fn request_step(
    guilds: crate::registry::Guilds,
    request: IntroRequest,
) -> (PhaseView, ActionView) {
    if request.argument is None || request.mentions@.len() > 1 {
        reply_with(BAD_REQUEST@)
    } else {
        match request.guild {
            Some(guild) if guilds.contains_key(guild@) => {
                let state = guilds[guild@];
                let name = request.argument->0@;
                if request.mentions@.len() == 1 {
                    introduce(state, request.mentions@[0]@)
                } else {
                    match state.user_by_string(name) {
                        Some(user) => (
                            PhaseView::AwaitingCached { guild: guild@, user },
                            ActionView::LookUpCached(user),
                        ),
                        None => reply_with("no user with display name "@ + name),
                    }
                }
            },
            _ => drop_request(),
        }
    }
}

/// `true` when one of the codes says that the embed is too long.
pub open spec fn is_too_long(codes: Seq<String>) -> bool {
    exists|i: int| 0 <= i < codes.len() && (#[trigger] codes[i])@ == TOO_LONG@
}

/// The step after the user was found.
pub open spec fn found_step(
    guilds: crate::registry::Guilds,
    guild: u64,
    user: crate::model::UserView,
) -> (PhaseView, ActionView) {
    if guilds.contains_key(guild) {
        introduce(guilds[guild], user)
    } else {
        drop_request()
    }
}

/// What a request does next, given what happened. An event that was not waited for ends it.
pub open spec fn intro_step(
    guilds: crate::registry::Guilds,
    phase: IntroPhase,
    event: IntroEvent,
) -> (PhaseView, ActionView) {
    match (phase, event) {
        (IntroPhase::Start, IntroEvent::Request(request)) => request_step(guilds, request),
        (IntroPhase::AwaitingCached { guild, user }, IntroEvent::Cached(Some(found))) => found_step(
            guilds,
            guild@,
            found@,
        ),
        (IntroPhase::AwaitingCached { guild, user }, IntroEvent::Cached(None)) => (
            PhaseView::AwaitingFetched { guild: guild@, user: user@ },
            ActionView::FetchUser(user@),
        ),
        (IntroPhase::AwaitingFetched { guild, .. }, IntroEvent::Fetched(Some(found))) => found_step(
            guilds,
            guild@,
            found@,
        ),
        (IntroPhase::AwaitingFetched { .. }, IntroEvent::Fetched(None)) => (
            PhaseView::Finished,
            ActionView::Fail,
        ),
        (
            IntroPhase::AwaitingEmbed { plain },
            IntroEvent::EmbedSent(SendOutcome::Rejected(codes)),
        ) => if is_too_long(codes@) {
            (PhaseView::AwaitingDelivery, ActionView::SendText(plain@))
        } else {
            drop_request()
        },
        _ => drop_request(),
    }
}

/// The reply with the given text, and the end of the request behind it.
fn reply(text: String) -> (step: (IntroPhase, IntroAction))
    ensures
        (step.0@, step.1@) == reply_with(text@),
{
    (IntroPhase::AwaitingDelivery, IntroAction::Reply(text))
}

/// Shows the introduction of a user, or says that there is none.
fn introduce_user(state: &IntroState, user: &User) -> (step: (IntroPhase, IntroAction))
    requires
        state@.wf(),
    ensures
        (step.0@, step.1@) == introduce(state@, user@),
{
    let nick = match state.get_user_displayname(user.id) {
        Some(name) => name,
        None => user.name.clone(),
    };
    let message = match state.get_intro_message(user.id) {
        Some(message) => message,
        None => {
            return reply(join2("intro seems to have vanished for ", user.name.as_str()));
        },
    };
    let embed = Embed {
        title: join3("**", nick.as_str(), "**"),
        colour: INTRO_COLOUR,
        description: message.content.clone(),
        field_name: String::new(),
        field_value: message.link(),
        field_inline: true,
        thumbnail: user.avatar_url(),
    };
    let heading = join3("**", nick.as_str(), "**\n");
    let plain = join2(heading.as_str(), message.content.as_str());
    assert(embed@ =~= embed_for(state@, user@, message@));
    (IntroPhase::AwaitingEmbed { plain }, IntroAction::SendEmbed(embed))
}

/// Tells whether one of the codes says that the embed is too long.
fn check_too_long(codes: &Vec<String>) -> (answer: bool)
    ensures
        answer == is_too_long(codes@),
{
    let wanted = TOO_LONG.to_owned();
    for i in 0..codes.len()
        invariant
            wanted@ == TOO_LONG@,
            forall|j: int| 0 <= j < i ==> (#[trigger] codes@[j])@ != TOO_LONG@,
    {
        if codes[i] == wanted {
            return true;
        }
    }
    false
}

/// Answers a request as far as that goes without asking anyone.
fn begin(registry: &Registry, request: IntroRequest) -> (step: (IntroPhase, IntroAction))
    requires
        crate::registry::guilds_wf(registry@),
    ensures
        (step.0@, step.1@) == request_step(registry@, request),
{
    let name = match request.argument {
        Some(name) => name,
        None => {
            return reply(BAD_REQUEST.to_owned());
        },
    };
    if request.mentions.len() > 1 {
        return reply(BAD_REQUEST.to_owned());
    }
    let guild = match request.guild {
        Some(guild) => guild,
        None => {
            return (IntroPhase::Finished, IntroAction::Finish);
        },
    };
    let state = match registry.state(guild) {
        Some(state) => state,
        None => {
            return (IntroPhase::Finished, IntroAction::Finish);
        },
    };
    if request.mentions.len() == 1 {
        return introduce_user(state, &request.mentions[0]);
    }
    match state.get_user_by_string(name.as_str()) {
        Some(user) => (
            IntroPhase::AwaitingCached { guild, user },
            IntroAction::LookUpCached(user),
        ),
        None => reply(join2("no user with display name ", name.as_str())),
    }
}

/// Goes on once the user who is meant was found.
fn found(registry: &Registry, guild: GuildId, user: &User) -> (step: (IntroPhase, IntroAction))
    requires
        crate::registry::guilds_wf(registry@),
    ensures
        (step.0@, step.1@) == found_step(registry@, guild@, user@),
{
    match registry.state(guild) {
        Some(state) => introduce_user(state, user),
        None => (IntroPhase::Finished, IntroAction::Finish),
    }
}

/// Goes on with a request for an introduction, given what happened, and says what to do next.
pub fn intro(registry: &Registry, phase: IntroPhase, event: IntroEvent) -> (step: (
    IntroPhase,
    IntroAction,
))
    requires
        crate::registry::guilds_wf(registry@),
    ensures
        (step.0@, step.1@) == intro_step(registry@, phase, event),
{
    match (phase, event) {
        (IntroPhase::Start, IntroEvent::Request(request)) => begin(registry, request),
        (IntroPhase::AwaitingCached { guild, user }, IntroEvent::Cached(cached)) => match cached {
            Some(cached) => found(registry, guild, &cached),
            None => (IntroPhase::AwaitingFetched { guild, user }, IntroAction::FetchUser(user)),
        },
        (IntroPhase::AwaitingFetched { guild, user }, IntroEvent::Fetched(fetched)) => {
            match fetched {
                Some(fetched) => found(registry, guild, &fetched),
                None => (IntroPhase::Finished, IntroAction::Fail),
            }
        },
        (
            IntroPhase::AwaitingEmbed { plain },
            IntroEvent::EmbedSent(SendOutcome::Rejected(codes)),
        ) => {
            if check_too_long(&codes) {
                (IntroPhase::AwaitingDelivery, IntroAction::SendText(plain))
            } else {
                (IntroPhase::Finished, IntroAction::Finish)
            }
        },
        _ => (IntroPhase::Finished, IntroAction::Finish),
    }
}

/// The help that the bot gives.
pub fn command_usage() -> (text: String)
    ensures
        text@ == USAGE@,
{
    USAGE.to_owned()
}

/// What a message is answered outside of the commands, if anything.
pub open spec fn help_for(
    author: u64,
    me: u64,
    mentions_me: Option<bool>,
    content: Seq<char>,
) -> Option<Seq<char>> {
    if author != me && mentions_me == Some(true) && crate::text::has_suffix(content, "usage"@) {
        Some(USAGE@)
    } else {
        None
    }
}

/// Tells whether the bot looks at a message at all: it ignores its own.
pub fn heeds_message(author: UserId, me: UserId) -> (heeds: bool)
    ensures
        heeds <==> author@ != me@,
{
    author.get() != me.get()
}

/// The help, where a message by another asks for it: it mentions the bot, as far as that could be
/// found out, and ends with `usage`.
pub fn usage_reply(mentions_me: Option<bool>, content: &str) -> (reply: Option<String>)
    ensures
        crate::text::text_of(reply) == if mentions_me == Some(true) && crate::text::has_suffix(
            content@,
            "usage"@,
        ) {
            Some(USAGE@)
        } else {
            None
        },
{
    let mentioned = match mentions_me {
        Some(answer) => answer,
        None => false,
    };
    if mentioned && ends_with(content, "usage") {
        Some(command_usage())
    } else {
        None
    }
}

/// What a message is answered outside of the commands: the help, where a message that is not the
/// bot's own mentions the bot and ends with `usage`.
pub fn message_reply(
    author: UserId,
    me: UserId,
    mentions_me: Option<bool>,
    content: &str,
) -> (reply: Option<String>)
    ensures
        crate::text::text_of(reply) == if author@ != me@ && mentions_me == Some(true)
            && crate::text::has_suffix(content@, "usage"@) {
            Some(USAGE@)
        } else {
            None
        },
        crate::text::text_of(reply) == help_for(author@, me@, mentions_me, content@),
{
    if heeds_message(author, me) {
        usage_reply(mentions_me, content)
    } else {
        None
    }
}

/// Contracts see every part of an introduction.
pub proof fn nothing_of_an_embed_is_left_out(embed: Embed)
    ensures
        embed@.title == embed.title@,
        embed@.colour == embed.colour,
        embed@.description == embed.description@,
        embed@.field_name == embed.field_name@,
        embed@.field_value == embed.field_value@,
        embed@.field_inline == embed.field_inline,
        embed.thumbnail matches Some(url) ==> embed@.thumbnail == Some(url@),
        embed.thumbnail is None ==> embed@.thumbnail is None,
{
}

/// Contracts tell all phases and all actions apart, with what they carry.
pub proof fn nothing_of_a_step_is_left_out(phase: IntroPhase, action: IntroAction)
    ensures
        phase is Start <==> phase@ == PhaseView::Start,
        phase is AwaitingDelivery <==> phase@ == PhaseView::AwaitingDelivery,
        phase is Finished <==> phase@ == PhaseView::Finished,
        phase matches IntroPhase::AwaitingCached { guild, user } ==> phase@ == (
        PhaseView::AwaitingCached { guild: guild@, user: user@ }),
        phase matches IntroPhase::AwaitingFetched { guild, user } ==> phase@ == (
        PhaseView::AwaitingFetched { guild: guild@, user: user@ }),
        phase matches IntroPhase::AwaitingEmbed { plain } ==> phase@ == (
        PhaseView::AwaitingEmbed { plain: plain@ }),
        action matches IntroAction::Reply(text) ==> action@ == ActionView::Reply(text@),
        action matches IntroAction::LookUpCached(user) ==> action@ == ActionView::LookUpCached(
            user@,
        ),
        action matches IntroAction::FetchUser(user) ==> action@ == ActionView::FetchUser(user@),
        action matches IntroAction::SendEmbed(embed) ==> action@ == ActionView::SendEmbed(embed@),
        action matches IntroAction::SendText(text) ==> action@ == ActionView::SendText(text@),
        action is Finish <==> action@ == ActionView::Finish,
        action is Fail <==> action@ == ActionView::Fail,
{
}

} // verus!
