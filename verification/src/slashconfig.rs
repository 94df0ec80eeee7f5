//! The `/config` command: its options, what is done, and what is answered.
use vstd::prelude::*;

use crate::commands::{any_role_listed, has_a_role, MemberFacts};
use crate::config::{action_name, action_named, Action, Config, GuildConfig, GuildSettings};
use crate::guildstore::{
    servers_do_not_share_settings, settings_of, with_settings, with_value, without_value,
    written_settings_apply, GuildSettingsStore, StoredSettings,
};
use crate::mentions::{channel_mention, mention_channel, mention_role, role_mention};
use crate::text::{decimal, decimal_text, join, joined, parse_u64, parsed_u64, same_text, texts};

verus! {

/// What a parameter takes.
#[derive(Debug, Clone, Copy, PartialEq, Eq, Structural)]
pub enum ParameterKind {
    Text,
    Integer,
    Role,
    Channel,
}

/// A value that can be picked.
#[derive(Debug)]
pub struct Choice {
    pub name: String,
    pub value: String,
}

/// A parameter of a subcommand. All of them have to be given.
#[derive(Debug)]
pub struct Parameter {
    pub kind: ParameterKind,
    pub name: String,
    pub description: String,
    /// Whether values are suggested while typing.
    pub autocomplete: bool,
    /// The least and the greatest value.
    pub range: Option<(u64, u64)>,
    pub choices: Vec<Choice>,
}

#[derive(Debug)]
pub struct Subcommand {
    pub name: String,
    pub description: String,
    pub parameters: Vec<Parameter>,
}

/// What stands under a command.
#[derive(Debug)]
pub enum CommandPart {
    Single(Subcommand),
    Group { name: String, description: String, subcommands: Vec<Subcommand> },
}

/// A command for administrators.
#[derive(Debug)]
pub struct CommandTree {
    pub name: String,
    pub description: String,
    pub parts: Vec<CommandPart>,
}

/// What a [`Parameter`] says.
#[verifier::ext_equal]
pub struct ParameterText {
    pub kind: ParameterKind,
    pub name: Seq<char>,
    pub description: Seq<char>,
    pub autocomplete: bool,
    pub range: Option<(u64, u64)>,
    pub choices: Seq<(Seq<char>, Seq<char>)>,
}

/// What a [`Subcommand`] says.
#[verifier::ext_equal]
pub struct SubcommandText {
    pub name: Seq<char>,
    pub description: Seq<char>,
    pub parameters: Seq<ParameterText>,
}

/// What a [`CommandPart`] says.
#[verifier::ext_equal]
pub enum PartText {
    Single(SubcommandText),
    Group { name: Seq<char>, description: Seq<char>, subcommands: Seq<SubcommandText> },
}

impl View for Parameter {
    type V = ParameterText;

    open spec fn view(&self) -> ParameterText {
        ParameterText {
            kind: self.kind,
            name: self.name@,
            description: self.description@,
            autocomplete: self.autocomplete,
            range: self.range,
            choices: self.choices@.map_values(|c: Choice| (c.name@, c.value@)),
        }
    }
}

impl View for Subcommand {
    type V = SubcommandText;

    open spec fn view(&self) -> SubcommandText {
        SubcommandText {
            name: self.name@,
            description: self.description@,
            parameters: self.parameters@.map_values(|p: Parameter| p@),
        }
    }
}

impl View for CommandPart {
    type V = PartText;

    open spec fn view(&self) -> PartText {
        match self {
            CommandPart::Single(sub) => PartText::Single(sub@),
            CommandPart::Group { name, description, subcommands } => PartText::Group {
                name: name@,
                description: description@,
                subcommands: subcommands@.map_values(|s: Subcommand| s@),
            },
        }
    }
}

/// What each part of a command says.
pub open spec fn part_texts(parts: Seq<CommandPart>) -> Seq<PartText> {
    parts.map_values(|p: CommandPart| p@)
}

/// A parameter without choices or limits.
pub open spec fn simple_parameter(
    kind: ParameterKind,
    name: Seq<char>,
    description: Seq<char>,
) -> ParameterText {
    ParameterText {
        kind,
        name,
        description,
        autocomplete: false,
        range: None,
        choices: Seq::empty(),
    }
}

/// A pair of subcommands that add to a list and remove from it.
pub open spec fn list_group(
    name: Seq<char>,
    description: Seq<char>,
    add: Seq<char>,
    remove: Seq<char>,
    parameter: ParameterText,
) -> PartText {
    PartText::Group {
        name,
        description,
        subcommands: seq![
            SubcommandText { name: "add"@, description: add, parameters: seq![parameter] },
            SubcommandText { name: "remove"@, description: remove, parameters: seq![parameter] },
        ],
    }
}

/// A list of roles.
pub open spec fn role_list_group(name: Seq<char>, description: Seq<char>) -> PartText {
    list_group(
        name,
        description,
        "Add a role"@,
        "Remove a role"@,
        simple_parameter(ParameterKind::Role, "role"@, "Role"@),
    )
}

/// A list of channels.
pub open spec fn channel_list_group(name: Seq<char>, description: Seq<char>) -> PartText {
    list_group(
        name,
        description,
        "Add a channel"@,
        "Remove a channel"@,
        simple_parameter(ParameterKind::Channel, "channel"@, "Channel"@),
    )
}

/// The longest timeout, in minutes: 28 days.
pub const MAX_TIMEOUT_MINUTES: u64 = 40320;

/// The subcommand that picks the log channel.
pub open spec fn log_channel_part() -> PartText {
    PartText::Single(
        SubcommandText {
            name: "log-channel"@,
            description: "Channel where detection evidence gets posted"@,
            parameters: seq![
                ParameterText {
                    autocomplete: true,
                    ..simple_parameter(
                        ParameterKind::Text,
                        "channel"@,
                        "Only channels I can actually post in are suggested"@,
                    )
                },
            ],
        },
    )
}

/// The actions that can be picked.
pub open spec fn action_choices() -> Seq<(Seq<char>, Seq<char>)> {
    seq![
        ("Log only, no sanction"@, action_name(Action::LogOnly)),
        ("Delete the message only"@, action_name(Action::DeleteOnly)),
        ("Delete + timeout (recommended)"@, action_name(Action::DeleteTimeout)),
        ("Delete + kick"@, action_name(Action::DeleteKick)),
        ("Delete + ban"@, action_name(Action::DeleteBan)),
    ]
}

/// The subcommand that picks the action.
pub open spec fn action_part() -> PartText {
    PartText::Single(
        SubcommandText {
            name: "action"@,
            description: "Sanction applied when a scam is detected"@,
            parameters: seq![
                ParameterText {
                    choices: action_choices(),
                    ..simple_parameter(ParameterKind::Text, "value"@, "Action"@)
                },
            ],
        },
    )
}

/// The subcommand that sets the timeout.
pub open spec fn timeout_part() -> PartText {
    PartText::Single(
        SubcommandText {
            name: "timeout-minutes"@,
            description: "Timeout duration used by the delete_timeout action"@,
            parameters: seq![
                ParameterText {
                    range: Some((1u64, MAX_TIMEOUT_MINUTES)),
                    ..simple_parameter(
                        ParameterKind::Integer,
                        "minutes"@,
                        "Duration in minutes (max 40320 = 28 days)"@,
                    )
                },
            ],
        },
    )
}

/// The subcommand that shows the settings.
pub open spec fn show_part() -> PartText {
    PartText::Single(
        SubcommandText {
            name: "show"@,
            description: "Show the current settings"@,
            parameters: Seq::empty(),
        },
    )
}

/// The parts of the `/config` command.
pub open spec fn config_parts() -> Seq<PartText> {
    seq![
        log_channel_part(),
        action_part(),
        timeout_part(),
        show_part(),
        role_list_group("mod-role"@, "Roles allowed to manage this bot's settings"@),
        role_list_group("exempt-role"@, "Roles exempt from detection"@),
        channel_list_group("exempt-channel"@, "Channels exempt from detection"@),
    ]
}

fn parameter(kind: ParameterKind, name: &str, description: &str) -> (r: Parameter)
    ensures
        r@ == simple_parameter(kind, name@, description@),
{
    let r = Parameter {
        kind,
        name: name.to_owned(),
        description: description.to_owned(),
        autocomplete: false,
        range: None,
        choices: Vec::new(),
    };
    assert(r@ =~= simple_parameter(kind, name@, description@));
    r
}

fn subcommand(name: &str, description: &str, parameter: Parameter) -> (r: Subcommand)
    ensures
        r@ == (SubcommandText {
            name: name@,
            description: description@,
            parameters: seq![parameter@],
        }),
{
    let ghost wanted = parameter@;
    let mut parameters: Vec<Parameter> = Vec::new();
    parameters.push(parameter);
    let r = Subcommand { name: name.to_owned(), description: description.to_owned(), parameters };
    assert(r@.parameters =~= seq![wanted]);
    r
}

fn group(name: &str, description: &str, add: Subcommand, remove: Subcommand) -> (r: CommandPart)
    ensures
        r@ == (PartText::Group {
            name: name@,
            description: description@,
            subcommands: seq![add@, remove@],
        }),
{
    let ghost wanted = seq![add@, remove@];
    let mut subcommands: Vec<Subcommand> = Vec::new();
    subcommands.push(add);
    subcommands.push(remove);
    assert(subcommands@.map_values(|s: Subcommand| s@) =~= wanted);
    CommandPart::Group { name: name.to_owned(), description: description.to_owned(), subcommands }
}

fn role_group(name: &str, description: &str) -> (r: CommandPart)
    ensures
        r@ == role_list_group(name@, description@),
{
    group(
        name,
        description,
        subcommand("add", "Add a role", parameter(ParameterKind::Role, "role", "Role")),
        subcommand("remove", "Remove a role", parameter(ParameterKind::Role, "role", "Role")),
    )
}

fn channel_group(name: &str, description: &str) -> (r: CommandPart)
    ensures
        r@ == channel_list_group(name@, description@),
{
    group(
        name,
        description,
        subcommand(
            "add",
            "Add a channel",
            parameter(ParameterKind::Channel, "channel", "Channel"),
        ),
        subcommand(
            "remove",
            "Remove a channel",
            parameter(ParameterKind::Channel, "channel", "Channel"),
        ),
    )
}

fn choice(name: &str, action: Action) -> (r: Choice)
    ensures
        r.name@ == name@,
        r.value@ == action_name(action),
{
    Choice { name: name.to_owned(), value: action.as_toml_str().to_owned() }
}

/// Builds the `/config` command: a subcommand for each single setting, and a
/// group for each of the three lists. The log channel is suggested while typing,
/// so that only channels are offered that the bot can post in.
pub fn build_config_command() -> (r: CommandTree)
    ensures
        r.name@ == "config"@,
        r.description@ == "View or change discord-anti-scam-bot settings for this server"@,
        part_texts(r.parts@) == config_parts(),
{
    let mut channel = parameter(
        ParameterKind::Text,
        "channel",
        "Only channels I can actually post in are suggested",
    );
    channel.autocomplete = true;
    let log_channel = CommandPart::Single(
        subcommand("log-channel", "Channel where detection evidence gets posted", channel),
    );
    assert(log_channel@ =~= log_channel_part());

    let mut choices: Vec<Choice> = Vec::new();
    choices.push(choice("Log only, no sanction", Action::LogOnly));
    choices.push(choice("Delete the message only", Action::DeleteOnly));
    choices.push(choice("Delete + timeout (recommended)", Action::DeleteTimeout));
    choices.push(choice("Delete + kick", Action::DeleteKick));
    choices.push(choice("Delete + ban", Action::DeleteBan));
    assert(choices@.map_values(|c: Choice| (c.name@, c.value@)) =~= action_choices());
    let mut value = parameter(ParameterKind::Text, "value", "Action");
    value.choices = choices;
    let action = CommandPart::Single(
        subcommand("action", "Sanction applied when a scam is detected", value),
    );
    assert(action@ =~= action_part());

    let mut minutes = parameter(
        ParameterKind::Integer,
        "minutes",
        "Duration in minutes (max 40320 = 28 days)",
    );
    minutes.range = Some((1, MAX_TIMEOUT_MINUTES));
    let timeout = CommandPart::Single(
        subcommand(
            "timeout-minutes",
            "Timeout duration used by the delete_timeout action",
            minutes,
        ),
    );
    assert(timeout@ =~= timeout_part());

    let show = CommandPart::Single(
        Subcommand {
            name: "show".to_owned(),
            description: "Show the current settings".to_owned(),
            parameters: Vec::new(),
        },
    );
    assert(show@->Single_0.parameters =~= Seq::<ParameterText>::empty());
    assert(show@ =~= show_part());

    let mut parts: Vec<CommandPart> = Vec::new();
    parts.push(log_channel);
    parts.push(action);
    parts.push(timeout);
    parts.push(show);
    parts.push(role_group("mod-role", "Roles allowed to manage this bot's settings"));
    parts.push(role_group("exempt-role", "Roles exempt from detection"));
    parts.push(channel_group("exempt-channel", "Channels exempt from detection"));
    assert(part_texts(parts@) =~= config_parts());
    CommandTree {
        name: "config".to_owned(),
        description: "View or change discord-anti-scam-bot settings for this server".to_owned(),
        parts,
    }
}

/// The member may change the settings: as an administrator, or by one of the
/// server's moderator roles.
pub open spec fn may_configure(mod_roles: Seq<u64>, member: Option<MemberFacts>) -> bool {
    match member {
        Some(member) => member.administrator == Some(true) || has_a_role(member.roles@, mod_roles),
        None => false,
    }
}

/// Whether a member may change the settings. Nobody who is unknown may.
pub fn is_authorized(guild: &GuildConfig, member: &Option<MemberFacts>) -> (r: bool)
    ensures
        r == may_configure(guild.mod_role_ids@, *member),
{
    match member {
        Some(member) => {
            let administrator = match member.administrator {
                Some(yes) => yes,
                None => false,
            };
            administrator || any_role_listed(
                member.roles.as_slice(),
                guild.mod_role_ids.as_slice(),
            )
        },
        None => false,
    }
}

/// The answer to a member who may not change the settings.
pub fn not_authorized_text() -> (r: &'static str)
    ensures
        r@ == "You need to be a server **Administrator** (or have a role listed in `mod_role_ids`) to change this bot's settings."@,
{
    "You need to be a server **Administrator** (or have a role listed in `mod_role_ids`) to change this bot's settings."
}

/// The value of an option that was given.
#[derive(Debug)]
pub enum Given {
    Text(String),
    /// What was typed so far, where values are suggested.
    Typed(String),
    Integer(i64),
    Role(u64),
    Channel(u64),
    Other,
}

/// A subcommand that was chosen in a group, with its options, if it is one.
#[derive(Debug)]
pub struct ChosenSub {
    pub name: String,
    pub options: Option<Vec<Given>>,
}

/// What follows the name of a part that was chosen.
#[derive(Debug)]
pub enum ChosenValue {
    Single(Vec<Given>),
    Group(Vec<ChosenSub>),
    Other,
}

/// A part of the command that was chosen.
#[derive(Debug)]
pub struct Chosen {
    pub name: String,
    pub value: ChosenValue,
}

/// The first text among the options.
pub open spec fn first_text(options: Seq<Given>) -> Option<Seq<char>>
    decreases options.len(),
{
    if options.len() == 0 {
        None
    } else {
        match options[0] {
            Given::Text(s) => Some(s@),
            Given::Typed(s) => Some(s@),
            _ => first_text(options.drop_first()),
        }
    }
}

/// The first typed text among the options.
pub open spec fn first_typed(options: Seq<Given>) -> Option<Seq<char>>
    decreases options.len(),
{
    if options.len() == 0 {
        None
    } else {
        match options[0] {
            Given::Typed(s) => Some(s@),
            _ => first_typed(options.drop_first()),
        }
    }
}

/// The first integer among the options.
pub open spec fn first_integer(options: Seq<Given>) -> Option<i64>
    decreases options.len(),
{
    if options.len() == 0 {
        None
    } else {
        match options[0] {
            Given::Integer(i) => Some(i),
            _ => first_integer(options.drop_first()),
        }
    }
}

/// The first role among the options.
pub open spec fn first_role(options: Seq<Given>) -> Option<u64>
    decreases options.len(),
{
    if options.len() == 0 {
        None
    } else {
        match options[0] {
            Given::Role(id) => Some(id),
            _ => first_role(options.drop_first()),
        }
    }
}

/// The first channel among the options.
pub open spec fn first_channel(options: Seq<Given>) -> Option<u64>
    decreases options.len(),
{
    if options.len() == 0 {
        None
    } else {
        match options[0] {
            Given::Channel(id) => Some(id),
            _ => first_channel(options.drop_first()),
        }
    }
}

/// The first text among the options.
pub fn find_string(sub: &[Given]) -> (r: Option<&str>)
    ensures
        match r {
            Some(s) => first_text(sub@) == Some(s@),
            None => first_text(sub@) is None,
        },
{
    assert(sub@.skip(0) =~= sub@);
    for i in 0..sub.len()
        invariant
            first_text(sub@) == first_text(sub@.skip(i as int)),
    {
        assert(sub@.skip(i as int)[0] == sub@[i as int]);
        assert(sub@.skip(i as int).drop_first() =~= sub@.skip(i + 1));
        match &sub[i] {
            Given::Text(s) => {
                return Some(s.as_str());
            },
            Given::Typed(s) => {
                return Some(s.as_str());
            },
            _ => {},
        }
    }
    None
}

/// The first typed text among the options.
pub fn find_typed(sub: &[Given]) -> (r: Option<&str>)
    ensures
        match r {
            Some(s) => first_typed(sub@) == Some(s@),
            None => first_typed(sub@) is None,
        },
{
    assert(sub@.skip(0) =~= sub@);
    for i in 0..sub.len()
        invariant
            first_typed(sub@) == first_typed(sub@.skip(i as int)),
    {
        assert(sub@.skip(i as int)[0] == sub@[i as int]);
        assert(sub@.skip(i as int).drop_first() =~= sub@.skip(i + 1));
        match &sub[i] {
            Given::Typed(s) => {
                return Some(s.as_str());
            },
            _ => {},
        }
    }
    None
}

/// The first integer among the options.
pub fn find_integer(sub: &[Given]) -> (r: Option<i64>)
    ensures
        r == first_integer(sub@),
{
    assert(sub@.skip(0) =~= sub@);
    for i in 0..sub.len()
        invariant
            first_integer(sub@) == first_integer(sub@.skip(i as int)),
    {
        assert(sub@.skip(i as int)[0] == sub@[i as int]);
        assert(sub@.skip(i as int).drop_first() =~= sub@.skip(i + 1));
        if let Given::Integer(n) = &sub[i] {
            return Some(*n);
        }
    }
    None
}

/// The first role among the options.
pub fn find_role(sub: &[Given]) -> (r: Option<u64>)
    ensures
        r == first_role(sub@),
{
    assert(sub@.skip(0) =~= sub@);
    for i in 0..sub.len()
        invariant
            first_role(sub@) == first_role(sub@.skip(i as int)),
    {
        assert(sub@.skip(i as int)[0] == sub@[i as int]);
        assert(sub@.skip(i as int).drop_first() =~= sub@.skip(i + 1));
        if let Given::Role(id) = &sub[i] {
            return Some(*id);
        }
    }
    None
}

/// The first channel among the options.
pub fn find_channel(sub: &[Given]) -> (r: Option<u64>)
    ensures
        r == first_channel(sub@),
{
    assert(sub@.skip(0) =~= sub@);
    for i in 0..sub.len()
        invariant
            first_channel(sub@) == first_channel(sub@.skip(i as int)),
    {
        assert(sub@.skip(i as int)[0] == sub@[i as int]);
        assert(sub@.skip(i as int).drop_first() =~= sub@.skip(i + 1));
        if let Given::Channel(id) = &sub[i] {
            return Some(*id);
        }
    }
    None
}

/// What is done to a list.
#[derive(Debug, Clone, Copy, PartialEq, Eq, Structural)]
pub enum ListChange {
    Add(u64),
    Remove(u64),
}

/// What the subcommand with this name does to a list.
pub open spec fn change_named(name: Seq<char>, id: u64) -> Option<ListChange> {
    if name == "add"@ {
        Some(ListChange::Add(id))
    } else if name == "remove"@ {
        Some(ListChange::Remove(id))
    } else {
        None
    }
}

/// What a chosen group does to a list of roles.
pub open spec fn role_change(group: Seq<ChosenSub>) -> Option<ListChange> {
    if group.len() == 0 {
        None
    } else {
        match group[0].options {
            Some(options) => match first_role(options@) {
                Some(id) => change_named(group[0].name@, id),
                None => None,
            },
            None => None,
        }
    }
}

/// What a chosen group does to a list of channels.
pub open spec fn channel_change(group: Seq<ChosenSub>) -> Option<ListChange> {
    if group.len() == 0 {
        None
    } else {
        match group[0].options {
            Some(options) => match first_channel(options@) {
                Some(id) => change_named(group[0].name@, id),
                None => None,
            },
            None => None,
        }
    }
}

fn named_change(name: &str, id: u64) -> (r: Option<ListChange>)
    ensures
        r == change_named(name@, id),
{
    if same_text(name, "add") {
        Some(ListChange::Add(id))
    } else if same_text(name, "remove") {
        Some(ListChange::Remove(id))
    } else {
        None
    }
}

/// What a chosen group does to a list of roles.
pub fn find_role_action(group: &[ChosenSub]) -> (r: Option<ListChange>)
    ensures
        r == role_change(group@),
{
    if group.len() == 0 {
        return None;
    }
    match &group[0].options {
        Some(options) => match find_role(options.as_slice()) {
            Some(id) => named_change(group[0].name.as_str(), id),
            None => None,
        },
        None => None,
    }
}

/// What a chosen group does to a list of channels.
pub fn find_channel_action(group: &[ChosenSub]) -> (r: Option<ListChange>)
    ensures
        r == channel_change(group@),
{
    if group.len() == 0 {
        return None;
    }
    match &group[0].options {
        Some(options) => match find_channel(options.as_slice()) {
            Some(id) => named_change(group[0].name.as_str(), id),
            None => None,
        },
        None => None,
    }
}

/// Why there is nothing to do.
#[derive(Debug, Clone, Copy, PartialEq, Eq, Structural)]
pub enum ConfigRefusal {
    OutsideServer,
    MissingSubcommand,
    BadChannel,
    BadAction,
    BadDuration,
    MissingRole,
    MissingChannel,
    UnknownSubcommand,
}

impl ConfigRefusal {
    /// The answer.
    pub fn message(&self) -> (r: &'static str)
        ensures
            r@ == refusal_text(*self),
    {
        match self {
            ConfigRefusal::OutsideServer => "This command only works in a server.",
            ConfigRefusal::MissingSubcommand => "Missing subcommand.",
            ConfigRefusal::BadChannel => "Missing or invalid channel option.",
            ConfigRefusal::BadAction => "Invalid action value.",
            ConfigRefusal::BadDuration => "Invalid duration.",
            ConfigRefusal::MissingRole => "Missing role option.",
            ConfigRefusal::MissingChannel => "Missing channel option.",
            ConfigRefusal::UnknownSubcommand => "Unknown subcommand.",
        }
    }
}

/// What a `/config` command does.
#[derive(Debug, Clone, Copy, PartialEq, Eq, Structural)]
pub enum ConfigStep {
    Refuse(ConfigRefusal),
    /// Set the log channel, if the bot can post there.
    LogChannel(u64),
    SetAction(Action),
    TimeoutMinutes(u64),
    Show,
    ModRole(ListChange),
    ExemptRole(ListChange),
    ExemptChannel(ListChange),
}

/// What the chosen part of a command does.
pub open spec fn step_of(name: Seq<char>, value: ChosenValue) -> ConfigStep {
    match value {
        ChosenValue::Single(sub) => if name == "log-channel"@ {
            match first_text(sub@) {
                Some(text) => match parsed_u64(text) {
                    Some(id) => ConfigStep::LogChannel(id),
                    None => ConfigStep::Refuse(ConfigRefusal::BadChannel),
                },
                None => ConfigStep::Refuse(ConfigRefusal::BadChannel),
            }
        } else if name == "action"@ {
            match first_text(sub@) {
                Some(text) => match action_named(text) {
                    Some(action) => ConfigStep::SetAction(action),
                    None => ConfigStep::Refuse(ConfigRefusal::BadAction),
                },
                None => ConfigStep::Refuse(ConfigRefusal::BadAction),
            }
        } else if name == "timeout-minutes"@ {
            match first_integer(sub@) {
                Some(minutes) => if minutes > 0 {
                    ConfigStep::TimeoutMinutes(minutes as u64)
                } else {
                    ConfigStep::Refuse(ConfigRefusal::BadDuration)
                },
                None => ConfigStep::Refuse(ConfigRefusal::BadDuration),
            }
        } else if name == "show"@ {
            ConfigStep::Show
        } else {
            ConfigStep::Refuse(ConfigRefusal::UnknownSubcommand)
        },
        ChosenValue::Group(group) => if name == "show"@ {
            ConfigStep::Show
        } else if name == "mod-role"@ {
            match role_change(group@) {
                Some(change) => ConfigStep::ModRole(change),
                None => ConfigStep::Refuse(ConfigRefusal::MissingRole),
            }
        } else if name == "exempt-role"@ {
            match role_change(group@) {
                Some(change) => ConfigStep::ExemptRole(change),
                None => ConfigStep::Refuse(ConfigRefusal::MissingRole),
            }
        } else if name == "exempt-channel"@ {
            match channel_change(group@) {
                Some(change) => ConfigStep::ExemptChannel(change),
                None => ConfigStep::Refuse(ConfigRefusal::MissingChannel),
            }
        } else {
            ConfigStep::Refuse(ConfigRefusal::UnknownSubcommand)
        },
        ChosenValue::Other => if name == "show"@ {
            ConfigStep::Show
        } else {
            ConfigStep::Refuse(ConfigRefusal::UnknownSubcommand)
        },
    }
}

/// What a `/config` command does.
pub open spec fn config_step(in_server: bool, chosen: Seq<Chosen>) -> ConfigStep {
    if !in_server {
        ConfigStep::Refuse(ConfigRefusal::OutsideServer)
    } else if chosen.len() == 0 {
        ConfigStep::Refuse(ConfigRefusal::MissingSubcommand)
    } else {
        step_of(chosen[0].name@, chosen[0].value)
    }
}

fn single_step(name: &str, sub: &Vec<Given>) -> (r: ConfigStep)
    ensures
        r == step_of(name@, ChosenValue::Single(*sub)),
{
    if same_text(name, "log-channel") {
        match find_string(sub.as_slice()) {
            Some(text) => match parse_u64(text) {
                Some(id) => ConfigStep::LogChannel(id),
                None => ConfigStep::Refuse(ConfigRefusal::BadChannel),
            },
            None => ConfigStep::Refuse(ConfigRefusal::BadChannel),
        }
    } else if same_text(name, "action") {
        match find_string(sub.as_slice()) {
            Some(text) => match Action::from_toml_str(text) {
                Some(action) => ConfigStep::SetAction(action),
                None => ConfigStep::Refuse(ConfigRefusal::BadAction),
            },
            None => ConfigStep::Refuse(ConfigRefusal::BadAction),
        }
    } else if same_text(name, "timeout-minutes") {
        match find_integer(sub.as_slice()) {
            Some(minutes) => if minutes > 0 {
                ConfigStep::TimeoutMinutes(minutes as u64)
            } else {
                ConfigStep::Refuse(ConfigRefusal::BadDuration)
            },
            None => ConfigStep::Refuse(ConfigRefusal::BadDuration),
        }
    } else if same_text(name, "show") {
        ConfigStep::Show
    } else {
        ConfigStep::Refuse(ConfigRefusal::UnknownSubcommand)
    }
}

fn group_step(name: &str, group: &Vec<ChosenSub>) -> (r: ConfigStep)
    ensures
        r == step_of(name@, ChosenValue::Group(*group)),
{
    if same_text(name, "show") {
        ConfigStep::Show
    } else if same_text(name, "mod-role") {
        match find_role_action(group.as_slice()) {
            Some(change) => ConfigStep::ModRole(change),
            None => ConfigStep::Refuse(ConfigRefusal::MissingRole),
        }
    } else if same_text(name, "exempt-role") {
        match find_role_action(group.as_slice()) {
            Some(change) => ConfigStep::ExemptRole(change),
            None => ConfigStep::Refuse(ConfigRefusal::MissingRole),
        }
    } else if same_text(name, "exempt-channel") {
        match find_channel_action(group.as_slice()) {
            Some(change) => ConfigStep::ExemptChannel(change),
            None => ConfigStep::Refuse(ConfigRefusal::MissingChannel),
        }
    } else {
        ConfigStep::Refuse(ConfigRefusal::UnknownSubcommand)
    }
}

/// What a `/config` command does, by the options that were chosen.
pub fn plan(in_server: bool, chosen: &[Chosen]) -> (r: ConfigStep)
    ensures
        r == config_step(in_server, chosen@),
{
    if !in_server {
        return ConfigStep::Refuse(ConfigRefusal::OutsideServer);
    }
    if chosen.len() == 0 {
        return ConfigStep::Refuse(ConfigRefusal::MissingSubcommand);
    }
    let top = &chosen[0];
    match &top.value {
        ChosenValue::Single(sub) => single_step(top.name.as_str(), sub),
        ChosenValue::Group(group) => group_step(top.name.as_str(), group),
        ChosenValue::Other => if same_text(top.name.as_str(), "show") {
            ConfigStep::Show
        } else {
            ConfigStep::Refuse(ConfigRefusal::UnknownSubcommand)
        },
    }
}

/// A permission that an action needs.
#[derive(Debug, Clone, Copy, PartialEq, Eq, Structural)]
pub enum NeededPermission {
    ModerateMembers,
    KickMembers,
    BanMembers,
}

/// The permission that an action needs beyond deleting messages.
pub open spec fn needed_by(action: Action) -> Option<NeededPermission> {
    match action {
        Action::DeleteTimeout => Some(NeededPermission::ModerateMembers),
        Action::DeleteKick => Some(NeededPermission::KickMembers),
        Action::DeleteBan => Some(NeededPermission::BanMembers),
        Action::LogOnly => None,
        Action::DeleteOnly => None,
    }
}

/// The name of a permission.
pub open spec fn permission_text(permission: NeededPermission) -> Seq<char> {
    match permission {
        NeededPermission::ModerateMembers => "Moderate Members"@,
        NeededPermission::KickMembers => "Kick Members"@,
        NeededPermission::BanMembers => "Ban Members"@,
    }
}

/// The permission that an action needs beyond deleting messages.
pub fn missing_permission_for(action: Action) -> (r: Option<NeededPermission>)
    ensures
        r == needed_by(action),
{
    match action {
        Action::DeleteTimeout => Some(NeededPermission::ModerateMembers),
        Action::DeleteKick => Some(NeededPermission::KickMembers),
        Action::DeleteBan => Some(NeededPermission::BanMembers),
        Action::LogOnly => None,
        Action::DeleteOnly => None,
    }
}

/// The name of a permission.
pub fn permission_name(permission: NeededPermission) -> (r: &'static str)
    ensures
        r@ == permission_text(permission),
{
    match permission {
        NeededPermission::ModerateMembers => "Moderate Members",
        NeededPermission::KickMembers => "Kick Members",
        NeededPermission::BanMembers => "Ban Members",
    }
}

/// What the bot may do in a channel.
#[derive(Debug, Clone, Copy, PartialEq, Eq, Structural)]
pub struct PostingRights {
    pub view_channel: bool,
    pub send_messages: bool,
    pub embed_links: bool,
    pub attach_files: bool,
}

/// One more name where it applies.
pub open spec fn with_name(names: Seq<Seq<char>>, name: Seq<char>, applies: bool) -> Seq<Seq<char>> {
    if applies {
        names.push(name)
    } else {
        names
    }
}

/// The rights that the bot lacks in a log channel.
pub open spec fn missing_rights(rights: PostingRights) -> Seq<Seq<char>> {
    with_name(
        with_name(
            with_name(
                with_name(Seq::empty(), "View Channel"@, !rights.view_channel),
                "Send Messages"@,
                !rights.send_messages,
            ),
            "Embed Links"@,
            !rights.embed_links,
        ),
        "Attach Files"@,
        !rights.attach_files,
    )
}

/// What stands against a log channel, if anything does.
pub open spec fn posting_problem(server_known: bool, rights: Option<PostingRights>) -> Option<
    Seq<char>,
> {
    if !server_known {
        Some("I couldn't find this server in my cache."@)
    } else {
        match rights {
            Some(rights) => if missing_rights(rights).len() == 0 {
                None
            } else {
                Some("I'm missing: **"@ + joined(missing_rights(rights), ", "@) + "**."@)
            },
            None => Some("that channel doesn't exist (or isn't a text channel) in this server."@),
        }
    }
}

fn push_name(names: &mut Vec<String>, name: &str, applies: bool)
    ensures
        texts(final(names)@) == with_name(texts(old(names)@), name@, applies),
{
    if applies {
        names.push(name.to_owned());
        assert(texts(names@) =~= texts(old(names)@).push(name@));
    }
}

/// What stands against a log channel, if anything does: the bot has to post there
/// with the evidence and the flagged image. `rights` is missing where there is no
/// such channel.
pub fn check_bot_can_post(server_known: bool, rights: Option<PostingRights>) -> (r: Option<String>)
    ensures
        match r {
            Some(problem) => posting_problem(server_known, rights) == Some(problem@),
            None => posting_problem(server_known, rights) is None,
        },
{
    if !server_known {
        return Some("I couldn't find this server in my cache.".to_owned());
    }
    match rights {
        Some(rights) => {
            let mut missing: Vec<String> = Vec::new();
            assert(texts(missing@) =~= Seq::empty());
            push_name(&mut missing, "View Channel", !rights.view_channel);
            push_name(&mut missing, "Send Messages", !rights.send_messages);
            push_name(&mut missing, "Embed Links", !rights.embed_links);
            push_name(&mut missing, "Attach Files", !rights.attach_files);
            assert(texts(missing@) == missing_rights(rights));
            if missing.len() == 0 {
                None
            } else {
                let mut text = "I'm missing: **".to_owned();
                text.append(join(missing.as_slice(), ", ").as_str());
                text.append("**.");
                Some(text)
            }
        },
        None => Some(
            "that channel doesn't exist (or isn't a text channel) in this server.".to_owned(),
        ),
    }
}

/// What is known of posting in a channel.
#[derive(Debug)]
pub enum PostCheck {
    Able,
    /// The bot cannot use it, and why.
    Unable(String),
    /// It could not be found out, and why.
    Unchecked(String),
}

/// The answer to picking a log channel.
pub open spec fn log_channel_answer(channel: u64, check: PostCheck) -> Seq<char> {
    match check {
        PostCheck::Able => "Log channel set to "@ + channel_mention(channel) + "."@,
        PostCheck::Unable(problem) => "I can't use "@ + channel_mention(channel)
            + " as the log channel: "@ + problem@
            + " Fix my permissions there (or pick another channel) and try again."@,
        PostCheck::Unchecked(error) => "Couldn't check my permissions in "@ + channel_mention(
            channel,
        ) + ": "@ + error@,
    }
}

fn log_channel_reply(channel: u64, check: &PostCheck) -> (r: String)
    ensures
        r@ == log_channel_answer(channel, *check),
{
    match check {
        PostCheck::Able => {
            let mut text = "Log channel set to ".to_owned();
            text.append(mention_channel(channel).as_str());
            text.append(".");
            text
        },
        PostCheck::Unable(problem) => {
            let mut text = "I can't use ".to_owned();
            text.append(mention_channel(channel).as_str());
            text.append(" as the log channel: ");
            text.append(problem.as_str());
            text.append(" Fix my permissions there (or pick another channel) and try again.");
            text
        },
        PostCheck::Unchecked(error) => {
            let mut text = "Couldn't check my permissions in ".to_owned();
            text.append(mention_channel(channel).as_str());
            text.append(": ");
            text.append(error.as_str());
            text
        },
    }
}

/// The answer to picking an action. It warns where the bot lacks the permission
/// that the action needs.
pub open spec fn action_answer(action: Action, has_permission: Option<bool>) -> Seq<char> {
    let head = "Action set to `"@ + action_name(action) + "`."@;
    match needed_by(action) {
        Some(needed) => if has_permission == Some(false) {
            head + "\n⚠️ I don't currently have the **"@ + permission_text(needed)
                + "** permission on this server, so this action will fail until you grant it to my role."@
        } else {
            head
        },
        None => head,
    }
}

fn action_reply(action: Action, has_permission: Option<bool>) -> (r: String)
    ensures
        r@ == action_answer(action, has_permission),
{
    let mut text = "Action set to `".to_owned();
    text.append(action.as_toml_str());
    text.append("`.");
    if let Some(needed) = missing_permission_for(action) {
        if let Some(false) = has_permission {
            text.append("\n⚠️ I don't currently have the **");
            text.append(permission_name(needed));
            text.append(
                "** permission on this server, so this action will fail until you grant it to my role.",
            );
        }
    }
    text
}

/// The answer to setting the timeout.
pub open spec fn timeout_answer(minutes: u64) -> Seq<char> {
    "Timeout duration set to "@ + decimal(minutes as nat) + " minute(s)."@
}

fn timeout_reply(minutes: u64) -> (r: String)
    ensures
        r@ == timeout_answer(minutes),
{
    let mut text = "Timeout duration set to ".to_owned();
    text.append(decimal_text(minutes).as_str());
    text.append(" minute(s).");
    text
}

/// The answer to a change of a list.
pub open spec fn list_answer(
    mention: Seq<char>,
    changed: bool,
    did: Seq<char>,
    already: Seq<char>,
) -> Seq<char> {
    mention + " "@ + (if changed {
        did
    } else {
        already
    }) + "."@
}

/// The answer to a change of a list of roles.
pub fn role_reply(role_id: u64, changed: bool, did: &str, already: &str) -> (r: String)
    ensures
        r@ == list_answer(role_mention(role_id), changed, did@, already@),
{
    let mut text = mention_role(role_id);
    text.append(" ");
    text.append(if changed { did } else { already });
    text.append(".");
    text
}

/// The answer to a change of a list of channels.
pub fn channel_reply(channel_id: u64, changed: bool, did: &str, already: &str) -> (r: String)
    ensures
        r@ == list_answer(channel_mention(channel_id), changed, did@, already@),
{
    let mut text = mention_channel(channel_id);
    text.append(" ");
    text.append(if changed { did } else { already });
    text.append(".");
    text
}

/// The mentions of a list of roles.
pub open spec fn role_mentions(ids: Seq<u64>) -> Seq<Seq<char>> {
    ids.map_values(|id: u64| role_mention(id))
}

/// The mentions of a list of channels.
pub open spec fn channel_mentions(ids: Seq<u64>) -> Seq<Seq<char>> {
    ids.map_values(|id: u64| channel_mention(id))
}

/// A list of roles in words.
pub open spec fn role_list(ids: Seq<u64>) -> Seq<char> {
    if ids.len() == 0 {
        "none (falls back to the Administrator permission)"@
    } else {
        joined(role_mentions(ids), ", "@)
    }
}

/// A list of channels in words.
pub open spec fn channel_list(ids: Seq<u64>) -> Seq<char> {
    if ids.len() == 0 {
        "none"@
    } else {
        joined(channel_mentions(ids), ", "@)
    }
}

/// A list of roles in words.
pub fn format_role_list(ids: &[u64]) -> (r: String)
    ensures
        r@ == role_list(ids@),
{
    if ids.len() == 0 {
        return "none (falls back to the Administrator permission)".to_owned();
    }
    let mut mentions: Vec<String> = Vec::new();
    assert(texts(mentions@) =~= role_mentions(ids@.take(0)));
    for i in 0..ids.len()
        invariant
            texts(mentions@) == role_mentions(ids@.take(i as int)),
    {
        let ghost before = texts(mentions@);
        let mention = mention_role(ids[i]);
        mentions.push(mention);
        assert(texts(mentions@) =~= before.push(mention@));
        assert(role_mentions(ids@.take(i + 1)) =~= before.push(mention@));
    }
    assert(ids@.take(ids@.len() as int) =~= ids@);
    join(mentions.as_slice(), ", ")
}

/// A list of channels in words.
pub fn format_channel_list(ids: &[u64]) -> (r: String)
    ensures
        r@ == channel_list(ids@),
{
    if ids.len() == 0 {
        return "none".to_owned();
    }
    let mut mentions: Vec<String> = Vec::new();
    assert(texts(mentions@) =~= channel_mentions(ids@.take(0)));
    for i in 0..ids.len()
        invariant
            texts(mentions@) == channel_mentions(ids@.take(i as int)),
    {
        let ghost before = texts(mentions@);
        let mention = mention_channel(ids[i]);
        mentions.push(mention);
        assert(texts(mentions@) =~= before.push(mention@));
        assert(channel_mentions(ids@.take(i + 1)) =~= before.push(mention@));
    }
    assert(ids@.take(ids@.len() as int) =~= ids@);
    join(mentions.as_slice(), ", ")
}

/// A switch in words.
pub open spec fn on_off(on: bool) -> Seq<char> {
    if on {
        "on"@
    } else {
        "off"@
    }
}

fn switch_text(on: bool) -> (r: &'static str)
    ensures
        r@ == on_off(on),
{
    if on {
        "on"
    } else {
        "off"
    }
}

/// The log channel in words.
pub open spec fn log_channel_words(channel: u64) -> Seq<char> {
    if channel == 0 {
        "disabled"@
    } else {
        channel_mention(channel)
    }
}

/// The lines on a server's own settings.
pub open spec fn server_lines(guild: GuildSettings) -> Seq<char> {
    "**Current settings**\n- Action: `"@ + action_name(guild.action) + "`\n- Timeout duration: "@
        + decimal(guild.timeout_minutes as nat) + " minute(s)\n- Log channel: "@
        + log_channel_words(guild.log_channel_id) + "\n- Mod roles: "@ + role_list(
        guild.mod_role_ids,
    ) + "\n- Exempt roles: "@ + role_list(guild.exempt_role_ids) + "\n- Exempt channels: "@
        + channel_list(guild.exempt_channel_ids)
}

/// The lines on the settings that hold for every server.
pub open spec fn bot_lines(cfg: Config, reads_text: bool) -> Seq<char> {
    "\n- Match threshold: "@ + decimal(cfg.detection.match_threshold as nat)
        + " (hash distance)\n- Flood detection: "@ + on_off(cfg.flood.enabled) + " (min "@
        + decimal(cfg.flood.min_channels as nat) + " channels within "@ + decimal(
        cfg.flood.window_seconds as nat,
    ) + "s)\n- Link images: "@ + on_off(cfg.links.enabled) + " ("@ + decimal(
        cfg.links.allowed_hosts@.len(),
    ) + " allow-listed host(s))\n- Text detection (OCR): "@ + on_off(reads_text)
}

/// The settings in words.
pub open spec fn settings_text(guild: GuildSettings, cfg: Config, reads_text: bool) -> Seq<char> {
    server_lines(guild) + bot_lines(cfg, reads_text)
}

/// The settings in words: the server's own, those that hold for every server, and
/// whether text in images is read, which it is not where the program is missing.
pub fn build_show_text(guild: &GuildConfig, cfg: &Config, reads_text: bool) -> (r: String)
    ensures
        r@ == settings_text(guild@, *cfg, reads_text),
{
    let mut text = "**Current settings**\n- Action: `".to_owned();
    text.append(guild.action.as_toml_str());
    text.append("`\n- Timeout duration: ");
    text.append(decimal_text(guild.timeout_minutes).as_str());
    text.append(" minute(s)\n- Log channel: ");
    if guild.log_channel_id == 0 {
        text.append("disabled");
    } else {
        text.append(mention_channel(guild.log_channel_id).as_str());
    }
    text.append("\n- Mod roles: ");
    text.append(format_role_list(guild.mod_role_ids.as_slice()).as_str());
    text.append("\n- Exempt roles: ");
    text.append(format_role_list(guild.exempt_role_ids.as_slice()).as_str());
    text.append("\n- Exempt channels: ");
    text.append(format_channel_list(guild.exempt_channel_ids.as_slice()).as_str());
    assert(text@ == server_lines(guild@));
    let mut more = "\n- Match threshold: ".to_owned();
    more.append(decimal_text(cfg.detection.match_threshold as u64).as_str());
    more.append(" (hash distance)\n- Flood detection: ");
    more.append(switch_text(cfg.flood.enabled));
    more.append(" (min ");
    more.append(decimal_text(cfg.flood.min_channels as u64).as_str());
    more.append(" channels within ");
    more.append(decimal_text(cfg.flood.window_seconds).as_str());
    more.append("s)\n- Link images: ");
    more.append(switch_text(cfg.links.enabled));
    more.append(" (");
    more.append(decimal_text(cfg.links.allowed_hosts.len() as u64).as_str());
    more.append(" allow-listed host(s))\n- Text detection (OCR): ");
    more.append(switch_text(reads_text));
    assert(more@ == bot_lines(*cfg, reads_text));
    text.append(more.as_str());
    text
}

/// What has to be known before a `/config` command is run.
#[derive(Debug)]
pub struct RunFacts {
    /// Whether the bot can post in the picked log channel.
    pub check: PostCheck,
    /// Whether the bot has the permission that the picked action needs.
    pub has_permission: Option<bool>,
    /// Whether text in images is read.
    pub reads_text: bool,
}

/// A server's settings with its moderator roles changed.
pub open spec fn with_mod_role(settings: GuildSettings, change: ListChange) -> GuildSettings {
    GuildSettings {
        mod_role_ids: match change {
            ListChange::Add(id) => with_value(settings.mod_role_ids, id),
            ListChange::Remove(id) => without_value(settings.mod_role_ids, id),
        },
        ..settings
    }
}

/// A server's settings with its exempt roles changed.
pub open spec fn with_exempt_role(settings: GuildSettings, change: ListChange) -> GuildSettings {
    GuildSettings {
        exempt_role_ids: match change {
            ListChange::Add(id) => with_value(settings.exempt_role_ids, id),
            ListChange::Remove(id) => without_value(settings.exempt_role_ids, id),
        },
        ..settings
    }
}

/// A server's settings with its exempt channels changed.
pub open spec fn with_exempt_channel(settings: GuildSettings, change: ListChange) -> GuildSettings {
    GuildSettings {
        exempt_channel_ids: match change {
            ListChange::Add(id) => with_value(settings.exempt_channel_ids, id),
            ListChange::Remove(id) => without_value(settings.exempt_channel_ids, id),
        },
        ..settings
    }
}

/// A server's settings after a command, if the command changes any.
pub open spec fn changed_settings(
    settings: GuildSettings,
    step: ConfigStep,
    check: PostCheck,
) -> Option<GuildSettings> {
    match step {
        ConfigStep::Refuse(_) => None,
        ConfigStep::LogChannel(id) => match check {
            PostCheck::Able => Some(GuildSettings { log_channel_id: id, ..settings }),
            _ => None,
        },
        ConfigStep::SetAction(action) => Some(GuildSettings { action, ..settings }),
        ConfigStep::TimeoutMinutes(minutes) => Some(
            GuildSettings { timeout_minutes: minutes, ..settings },
        ),
        ConfigStep::Show => None,
        ConfigStep::ModRole(change) => Some(with_mod_role(settings, change)),
        ConfigStep::ExemptRole(change) => Some(with_exempt_role(settings, change)),
        ConfigStep::ExemptChannel(change) => Some(with_exempt_channel(settings, change)),
    }
}

/// The answer to a change of the moderator roles.
pub open spec fn mod_role_answer(roles: Seq<u64>, change: ListChange) -> Seq<char> {
    match change {
        ListChange::Add(id) => list_answer(
            role_mention(id),
            !roles.contains(id),
            "is now allowed to manage this bot"@,
            "already had access"@,
        ),
        ListChange::Remove(id) => list_answer(
            role_mention(id),
            roles.contains(id),
            "can no longer manage this bot"@,
            "didn't have access"@,
        ),
    }
}

/// The answer to a change of a list of what is exempt.
pub open spec fn exempt_answer(mention: Seq<char>, held: Seq<u64>, change: ListChange) -> Seq<
    char,
> {
    match change {
        ListChange::Add(id) => list_answer(
            mention,
            !held.contains(id),
            "is now exempt from detection"@,
            "was already exempt"@,
        ),
        ListChange::Remove(id) => list_answer(
            mention,
            held.contains(id),
            "is no longer exempt"@,
            "wasn't exempt"@,
        ),
    }
}

/// The id that a change is about.
pub open spec fn changed_id(change: ListChange) -> u64 {
    match change {
        ListChange::Add(id) => id,
        ListChange::Remove(id) => id,
    }
}

/// The answer to a refused command.
pub open spec fn refusal_text(refusal: ConfigRefusal) -> Seq<char> {
    match refusal {
        ConfigRefusal::OutsideServer => "This command only works in a server."@,
        ConfigRefusal::MissingSubcommand => "Missing subcommand."@,
        ConfigRefusal::BadChannel => "Missing or invalid channel option."@,
        ConfigRefusal::BadAction => "Invalid action value."@,
        ConfigRefusal::BadDuration => "Invalid duration."@,
        ConfigRefusal::MissingRole => "Missing role option."@,
        ConfigRefusal::MissingChannel => "Missing channel option."@,
        ConfigRefusal::UnknownSubcommand => "Unknown subcommand."@,
    }
}

/// The answer to a command.
pub open spec fn config_answer(
    settings: GuildSettings,
    step: ConfigStep,
    facts: RunFacts,
    cfg: Config,
) -> Seq<char> {
    match step {
        ConfigStep::Refuse(refusal) => refusal_text(refusal),
        ConfigStep::LogChannel(id) => log_channel_answer(id, facts.check),
        ConfigStep::SetAction(action) => action_answer(action, facts.has_permission),
        ConfigStep::TimeoutMinutes(minutes) => timeout_answer(minutes),
        ConfigStep::Show => settings_text(settings, cfg, facts.reads_text),
        ConfigStep::ModRole(change) => mod_role_answer(settings.mod_role_ids, change),
        ConfigStep::ExemptRole(change) => exempt_answer(
            role_mention(changed_id(change)),
            settings.exempt_role_ids,
            change,
        ),
        ConfigStep::ExemptChannel(change) => exempt_answer(
            channel_mention(changed_id(change)),
            settings.exempt_channel_ids,
            change,
        ),
    }
}

/// The stored settings after a command.
pub open spec fn rows_after(
    rows: Seq<StoredSettings>,
    guild: u64,
    step: ConfigStep,
    check: PostCheck,
) -> Seq<StoredSettings> {
    match changed_settings(settings_of(rows, guild), step, check) {
        Some(settings) => with_settings(rows, guild, settings),
        None => rows,
    }
}

/// Whether a command changes the server's settings.
pub fn changes_settings(step: ConfigStep, check: &PostCheck) -> (r: bool)
    ensures
        forall|settings: GuildSettings| #[trigger]
            changed_settings(settings, step, *check) is Some <==> r,
{
    match step {
        ConfigStep::Refuse(_) => false,
        ConfigStep::Show => false,
        ConfigStep::LogChannel(_) => match check {
            PostCheck::Able => true,
            _ => false,
        },
        _ => true,
    }
}

/// Runs a `/config` command: changes the server's settings, and answers.
pub fn run(
    store: &mut GuildSettingsStore,
    guild_id: u64,
    step: ConfigStep,
    facts: &RunFacts,
    cfg: &Config,
) -> (r: String)
    ensures
        final(store)@ == rows_after(old(store)@, guild_id, step, facts.check),
        r@ == config_answer(settings_of(old(store)@, guild_id), step, *facts, *cfg),
{
    match step {
        ConfigStep::Refuse(refusal) => refusal.message().to_owned(),
        ConfigStep::LogChannel(id) => {
            if let PostCheck::Able = &facts.check {
                store.set_log_channel(guild_id, id);
            }
            log_channel_reply(id, &facts.check)
        },
        ConfigStep::SetAction(action) => {
            store.set_action(guild_id, action);
            action_reply(action, facts.has_permission)
        },
        ConfigStep::TimeoutMinutes(minutes) => {
            store.set_timeout_minutes(guild_id, minutes);
            timeout_reply(minutes)
        },
        ConfigStep::Show => {
            let guild = store.get(guild_id);
            build_show_text(&guild, cfg, facts.reads_text)
        },
        ConfigStep::ModRole(ListChange::Add(id)) => {
            let added = store.add_mod_role(guild_id, id);
            role_reply(id, added, "is now allowed to manage this bot", "already had access")
        },
        ConfigStep::ModRole(ListChange::Remove(id)) => {
            let removed = store.remove_mod_role(guild_id, id);
            role_reply(id, removed, "can no longer manage this bot", "didn't have access")
        },
        ConfigStep::ExemptRole(ListChange::Add(id)) => {
            let added = store.add_exempt_role(guild_id, id);
            role_reply(id, added, "is now exempt from detection", "was already exempt")
        },
        ConfigStep::ExemptRole(ListChange::Remove(id)) => {
            let removed = store.remove_exempt_role(guild_id, id);
            role_reply(id, removed, "is no longer exempt", "wasn't exempt")
        },
        ConfigStep::ExemptChannel(ListChange::Add(id)) => {
            let added = store.add_exempt_channel(guild_id, id);
            channel_reply(id, added, "is now exempt from detection", "was already exempt")
        },
        ConfigStep::ExemptChannel(ListChange::Remove(id)) => {
            let removed = store.remove_exempt_channel(guild_id, id);
            channel_reply(id, removed, "is no longer exempt", "wasn't exempt")
        },
    }
}

/// A command of one server never changes another's settings.
pub proof fn commands_stay_in_their_server(
    rows: Seq<StoredSettings>,
    guild: u64,
    step: ConfigStep,
    check: PostCheck,
    other: u64,
)
    requires
        other != guild,
    ensures
        settings_of(rows_after(rows, guild, step, check), other) == settings_of(rows, other),
{
    match changed_settings(settings_of(rows, guild), step, check) {
        Some(settings) => {
            servers_do_not_share_settings(rows, guild, settings, other);
        },
        None => {},
    }
}

/// A change that a command makes takes effect at once: the server's settings are
/// those that the command made of them. The minutes of a timeout are an option
/// with a sign, so they are never above `i64::MAX`.
pub proof fn commands_take_effect(
    rows: Seq<StoredSettings>,
    guild: u64,
    step: ConfigStep,
    check: PostCheck,
    settings: GuildSettings,
)
    requires
        changed_settings(settings_of(rows, guild), step, check) == Some(settings),
        step matches ConfigStep::TimeoutMinutes(minutes) ==> minutes <= i64::MAX,
    ensures
        settings_of(rows_after(rows, guild, step, check), guild) == settings,
{
    written_settings_apply(rows, guild, settings);
}

/// A refused command, a look at the settings, and a log channel that the bot
/// cannot use change nothing.
pub proof fn refused_commands_change_nothing(
    rows: Seq<StoredSettings>,
    guild: u64,
    step: ConfigStep,
    check: PostCheck,
)
    requires
        step is Refuse || step is Show || (step is LogChannel && !(check is Able)),
    ensures
        rows_after(rows, guild, step, check) == rows,
{
}

/// What was typed for the log channel so far, or nothing.
pub open spec fn typed_so_far(chosen: Seq<Chosen>) -> Seq<char> {
    if chosen.len() > 0 && chosen[0].name@ == "log-channel"@ {
        match chosen[0].value {
            ChosenValue::Single(sub) => match first_typed(sub@) {
                Some(text) => text,
                None => Seq::empty(),
            },
            _ => Seq::empty(),
        }
    } else {
        Seq::empty()
    }
}

/// What was typed for the log channel so far, or nothing.
pub fn typed_text(chosen: &[Chosen]) -> (r: String)
    ensures
        r@ == typed_so_far(chosen@),
{
    let none = String::new();
    assert(none@ =~= Seq::<char>::empty());
    if chosen.len() == 0 || !same_text(chosen[0].name.as_str(), "log-channel") {
        return none;
    }
    match &chosen[0].value {
        ChosenValue::Single(sub) => match find_typed(sub.as_slice()) {
            Some(text) => text.to_owned(),
            None => none,
        },
        _ => none,
    }
}

/// The first text among the options is found, whatever else stands there.
pub proof fn the_first_text_is_found(options: Seq<Given>, at: int)
    requires
        0 <= at <= options.len(),
        forall|i: int| 0 <= i < at ==> !((#[trigger] options[i]) is Text || options[i] is Typed),
    ensures
        at == options.len() ==> first_text(options) is None,
        at < options.len() ==> {
            &&& options[at] matches Given::Text(s) ==> first_text(options) == Some(s@)
            &&& options[at] matches Given::Typed(s) ==> first_text(options) == Some(s@)
        },
    decreases at,
{
    if at > 0 {
        assert(!(options[0] is Text || options[0] is Typed));
        let rest = options.drop_first();
        assert forall|i: int| 0 <= i < at - 1 implies !((#[trigger] rest[i]) is Text || rest[i] is Typed) by {
            assert(rest[i] == options[i + 1]);
        }
        the_first_text_is_found(rest, at - 1);
        if at < options.len() {
            assert(rest[at - 1] == options[at]);
        }
    }
}

/// The first text that is being typed among the options is found, whatever else stands there.
pub proof fn the_first_typed_text_is_found(options: Seq<Given>, at: int)
    requires
        0 <= at <= options.len(),
        forall|i: int| 0 <= i < at ==> !((#[trigger] options[i]) is Typed),
    ensures
        at == options.len() ==> first_typed(options) is None,
        at < options.len() ==> (options[at] matches Given::Typed(s) ==> first_typed(options) == Some(
            s@,
        )),
    decreases at,
{
    if at > 0 {
        assert(!((options[0]) is Typed));
        let rest = options.drop_first();
        assert forall|i: int| 0 <= i < at - 1 implies !((#[trigger] rest[i]) is Typed) by {
            assert(rest[i] == options[i + 1]);
        }
        the_first_typed_text_is_found(rest, at - 1);
        if at < options.len() {
            assert(rest[at - 1] == options[at]);
        }
    }
}

/// The first integer among the options is found, whatever else stands there.
pub proof fn the_first_integer_is_found(options: Seq<Given>, at: int)
    requires
        0 <= at <= options.len(),
        forall|i: int| 0 <= i < at ==> !((#[trigger] options[i]) is Integer),
    ensures
        at == options.len() ==> first_integer(options) is None,
        at < options.len() ==> (options[at] matches Given::Integer(n) ==> first_integer(options)
            == Some(n)),
    decreases at,
{
    if at > 0 {
        assert(!((options[0]) is Integer));
        let rest = options.drop_first();
        assert forall|i: int| 0 <= i < at - 1 implies !((#[trigger] rest[i]) is Integer) by {
            assert(rest[i] == options[i + 1]);
        }
        the_first_integer_is_found(rest, at - 1);
        if at < options.len() {
            assert(rest[at - 1] == options[at]);
        }
    }
}

/// The first role among the options is found, whatever else stands there.
pub proof fn the_first_role_is_found(options: Seq<Given>, at: int)
    requires
        0 <= at <= options.len(),
        forall|i: int| 0 <= i < at ==> !((#[trigger] options[i]) is Role),
    ensures
        at == options.len() ==> first_role(options) is None,
        at < options.len() ==> (options[at] matches Given::Role(id) ==> first_role(options) == Some(
            id,
        )),
    decreases at,
{
    if at > 0 {
        assert(!((options[0]) is Role));
        let rest = options.drop_first();
        assert forall|i: int| 0 <= i < at - 1 implies !((#[trigger] rest[i]) is Role) by {
            assert(rest[i] == options[i + 1]);
        }
        the_first_role_is_found(rest, at - 1);
        if at < options.len() {
            assert(rest[at - 1] == options[at]);
        }
    }
}

/// The first channel among the options is found, whatever else stands there.
pub proof fn the_first_channel_is_found(options: Seq<Given>, at: int)
    requires
        0 <= at <= options.len(),
        forall|i: int| 0 <= i < at ==> !((#[trigger] options[i]) is Channel),
    ensures
        at == options.len() ==> first_channel(options) is None,
        at < options.len() ==> (options[at] matches Given::Channel(id) ==> first_channel(options)
            == Some(id)),
    decreases at,
{
    if at > 0 {
        assert(!((options[0]) is Channel));
        let rest = options.drop_first();
        assert forall|i: int| 0 <= i < at - 1 implies !((#[trigger] rest[i]) is Channel) by {
            assert(rest[i] == options[i + 1]);
        }
        the_first_channel_is_found(rest, at - 1);
        if at < options.len() {
            assert(rest[at - 1] == options[at]);
        }
    }
}
/// What is chosen under the command does what it says: each subcommand sets its own
/// setting to the value that was given, and refuses one that it cannot read.
pub proof fn subcommands_set_what_they_name(
    options: Vec<Given>,
    id: u64,
    action: Action,
    minutes: i64,
)
    ensures
        first_text(options@) == Some(decimal(id as nat)) ==> step_of(
            "log-channel"@,
            ChosenValue::Single(options),
        ) == ConfigStep::LogChannel(id),
        first_text(options@) is None ==> step_of("log-channel"@, ChosenValue::Single(options))
            == ConfigStep::Refuse(ConfigRefusal::BadChannel),
        first_text(options@) == Some(action_name(action)) ==> step_of(
            "action"@,
            ChosenValue::Single(options),
        ) == ConfigStep::SetAction(action),
        first_text(options@) is None ==> step_of("action"@, ChosenValue::Single(options))
            == ConfigStep::Refuse(ConfigRefusal::BadAction),
        first_integer(options@) == Some(minutes) && minutes >= 1 ==> step_of(
            "timeout-minutes"@,
            ChosenValue::Single(options),
        ) == ConfigStep::TimeoutMinutes(minutes as u64),
        first_integer(options@) == Some(minutes) && minutes < 1 ==> step_of(
            "timeout-minutes"@,
            ChosenValue::Single(options),
        ) == ConfigStep::Refuse(ConfigRefusal::BadDuration),
        first_integer(options@) is None ==> step_of(
            "timeout-minutes"@,
            ChosenValue::Single(options),
        ) == ConfigStep::Refuse(ConfigRefusal::BadDuration),
        step_of("show"@, ChosenValue::Single(options)) is Show,
{
    names_of_parts_differ();
    crate::text::decimal_reads_back(id);
    crate::config::action_names_read_back(action);
}

/// What is no number sets no log channel, and what is no action's name sets no action.
pub proof fn unreadable_values_are_refused(options: Vec<Given>, text: Seq<char>)
    requires
        first_text(options@) == Some(text),
    ensures
        parsed_u64(text) is None ==> step_of("log-channel"@, ChosenValue::Single(options))
            == ConfigStep::Refuse(ConfigRefusal::BadChannel),
        action_named(text) is None ==> step_of("action"@, ChosenValue::Single(options))
            == ConfigStep::Refuse(ConfigRefusal::BadAction),
{
    names_of_parts_differ();
}

proof fn names_of_parts_differ()
    ensures
        "log-channel"@ != "action"@,
        "log-channel"@ != "timeout-minutes"@,
        "log-channel"@ != "show"@,
        "action"@ != "timeout-minutes"@,
        "action"@ != "show"@,
        "timeout-minutes"@ != "show"@,
        "mod-role"@ != "show"@,
        "mod-role"@ != "exempt-role"@,
        "mod-role"@ != "exempt-channel"@,
        "exempt-role"@ != "show"@,
        "exempt-role"@ != "exempt-channel"@,
        "exempt-channel"@ != "show"@,
        "add"@ != "remove"@,
{
    reveal_strlit("log-channel");
    reveal_strlit("action");
    reveal_strlit("timeout-minutes");
    reveal_strlit("show");
    reveal_strlit("mod-role");
    reveal_strlit("exempt-role");
    reveal_strlit("exempt-channel");
    reveal_strlit("add");
    reveal_strlit("remove");
    assert("log-channel"@.len() == 11 && "action"@.len() == 6 && "timeout-minutes"@.len() == 15
        && "show"@.len() == 4);
    assert("mod-role"@.len() == 8 && "exempt-role"@.len() == 11 && "exempt-channel"@.len() == 14);
    assert("add"@.len() == 3 && "remove"@.len() == 6);
}

/// What is chosen in a group changes that group's list: it adds or removes the role or the
/// channel that was given.
pub proof fn groups_change_their_own_list(group: Vec<ChosenSub>, options: Vec<Given>, id: u64)
    requires
        group@.len() > 0,
        group@[0].options == Some(options),
    ensures
        ({
            let add = group@[0].name@ == "add"@;
            let remove = group@[0].name@ == "remove"@;
            let value = ChosenValue::Group(group);
            &&& first_role(options@) == Some(id) && add ==> step_of("mod-role"@, value)
                == ConfigStep::ModRole(ListChange::Add(id)) && step_of("exempt-role"@, value)
                == ConfigStep::ExemptRole(ListChange::Add(id))
            &&& first_role(options@) == Some(id) && remove ==> step_of("mod-role"@, value)
                == ConfigStep::ModRole(ListChange::Remove(id)) && step_of("exempt-role"@, value)
                == ConfigStep::ExemptRole(ListChange::Remove(id))
            &&& first_channel(options@) == Some(id) && add ==> step_of("exempt-channel"@, value)
                == ConfigStep::ExemptChannel(ListChange::Add(id))
            &&& first_channel(options@) == Some(id) && remove ==> step_of("exempt-channel"@, value)
                == ConfigStep::ExemptChannel(ListChange::Remove(id))
            &&& first_role(options@) is None || !(add || remove) ==> step_of("mod-role"@, value)
                == ConfigStep::Refuse(ConfigRefusal::MissingRole) && step_of("exempt-role"@, value)
                == ConfigStep::Refuse(ConfigRefusal::MissingRole)
            &&& first_channel(options@) is None || !(add || remove) ==> step_of(
                "exempt-channel"@,
                value,
            ) == ConfigStep::Refuse(ConfigRefusal::MissingChannel)
        }),
{
    names_of_parts_differ();
}

/// Outside servers, and where nothing was chosen, the command is refused. Else the first
/// part that was chosen decides.
pub proof fn the_first_part_decides(chosen: Seq<Chosen>, in_server: bool)
    ensures
        !in_server ==> config_step(in_server, chosen) == ConfigStep::Refuse(
            ConfigRefusal::OutsideServer,
        ),
        in_server && chosen.len() == 0 ==> config_step(in_server, chosen) == ConfigStep::Refuse(
            ConfigRefusal::MissingSubcommand,
        ),
        in_server && chosen.len() > 0 ==> config_step(in_server, chosen) == step_of(
            chosen[0].name@,
            chosen[0].value,
        ),
{
}

/// Every part of the command that is offered is understood, and no other is.
pub proof fn what_is_offered_is_understood(
    i: int,
    name: Seq<char>,
    options: Vec<Given>,
    group: Vec<ChosenSub>,
)
    requires
        0 <= i < config_parts().len(),
    ensures
        match config_parts()[i] {
            PartText::Single(sub) => step_of(sub.name, ChosenValue::Single(options))
                != ConfigStep::Refuse(ConfigRefusal::UnknownSubcommand),
            PartText::Group { name, .. } => step_of(name, ChosenValue::Group(group))
                != ConfigStep::Refuse(ConfigRefusal::UnknownSubcommand),
        },
        (forall|k: int|
            0 <= k < config_parts().len() ==> match #[trigger] config_parts()[k] {
                PartText::Single(sub) => sub.name != name,
                PartText::Group { .. } => true,
            }) ==> step_of(name, ChosenValue::Single(options)) == ConfigStep::Refuse(
            ConfigRefusal::UnknownSubcommand,
        ),
        config_parts().len() == 7,
{
    names_of_parts_differ();
    assert(config_parts()[0] == log_channel_part());
    assert(config_parts()[1] == action_part());
    assert(config_parts()[2] == timeout_part());
    assert(config_parts()[3] == show_part());
}

/// Every action can be picked by its own name, and a timeout from one minute to 28 days.
pub proof fn every_action_can_be_picked(action: Action)
    ensures
        exists|i: int|
            0 <= i < action_choices().len() && (#[trigger] action_choices()[i]).1 == action_name(
                action,
            ),
        action_choices().len() == 5,
        MAX_TIMEOUT_MINUTES == 28 * 24 * 60,
        timeout_part() matches PartText::Single(sub) && sub.parameters.len() == 1
            && sub.parameters[0].range == Some((1u64, 40320u64)),
{
    let choices = action_choices();
    assert(choices[0].1 == action_name(Action::LogOnly));
    assert(choices[1].1 == action_name(Action::DeleteOnly));
    assert(choices[2].1 == action_name(Action::DeleteTimeout));
    assert(choices[3].1 == action_name(Action::DeleteKick));
    assert(choices[4].1 == action_name(Action::DeleteBan));
}

/// A step changes its own setting, to the value that was given, and no other.
pub proof fn steps_change_one_setting(
    s: GuildSettings,
    id: u64,
    action: Action,
    minutes: u64,
    check: PostCheck,
)
    ensures
        changed_settings(s, ConfigStep::LogChannel(id), PostCheck::Able) == Some(
            GuildSettings {
                log_channel_id: id,
                action: s.action,
                timeout_minutes: s.timeout_minutes,
                mod_role_ids: s.mod_role_ids,
                exempt_role_ids: s.exempt_role_ids,
                exempt_channel_ids: s.exempt_channel_ids,
            },
        ),
        changed_settings(s, ConfigStep::SetAction(action), check) == Some(
            GuildSettings {
                log_channel_id: s.log_channel_id,
                action,
                timeout_minutes: s.timeout_minutes,
                mod_role_ids: s.mod_role_ids,
                exempt_role_ids: s.exempt_role_ids,
                exempt_channel_ids: s.exempt_channel_ids,
            },
        ),
        changed_settings(s, ConfigStep::TimeoutMinutes(minutes), check) == Some(
            GuildSettings {
                log_channel_id: s.log_channel_id,
                action: s.action,
                timeout_minutes: minutes,
                mod_role_ids: s.mod_role_ids,
                exempt_role_ids: s.exempt_role_ids,
                exempt_channel_ids: s.exempt_channel_ids,
            },
        ),
{
}

/// A change of a list adds or removes the one id, in the list that it is for, and leaves
/// every other id of every list where it was.
pub proof fn list_changes_touch_one_id(s: GuildSettings, id: u64, other: u64, check: PostCheck)
    ensures
        ({
            let add = ListChange::Add(id);
            let remove = ListChange::Remove(id);
            let roles = changed_settings(s, ConfigStep::ModRole(add), check)->0;
            let fewer_roles = changed_settings(s, ConfigStep::ModRole(remove), check)->0;
            let exempt = changed_settings(s, ConfigStep::ExemptRole(add), check)->0;
            let fewer_exempt = changed_settings(s, ConfigStep::ExemptRole(remove), check)->0;
            let channels = changed_settings(s, ConfigStep::ExemptChannel(add), check)->0;
            let fewer_channels = changed_settings(s, ConfigStep::ExemptChannel(remove), check)->0;
            &&& roles.mod_role_ids.contains(other) <==> s.mod_role_ids.contains(other) || other == id
            &&& fewer_roles.mod_role_ids.contains(other) <==> s.mod_role_ids.contains(other)
                && other != id
            &&& exempt.exempt_role_ids.contains(other) <==> s.exempt_role_ids.contains(other)
                || other == id
            &&& fewer_exempt.exempt_role_ids.contains(other) <==> s.exempt_role_ids.contains(other)
                && other != id
            &&& channels.exempt_channel_ids.contains(other) <==> s.exempt_channel_ids.contains(
                other,
            ) || other == id
            &&& fewer_channels.exempt_channel_ids.contains(other) <==> s.exempt_channel_ids.contains(
                other,
            ) && other != id
            &&& roles == (GuildSettings { mod_role_ids: roles.mod_role_ids, ..s })
            &&& fewer_roles == (GuildSettings { mod_role_ids: fewer_roles.mod_role_ids, ..s })
            &&& exempt == (GuildSettings { exempt_role_ids: exempt.exempt_role_ids, ..s })
            &&& fewer_exempt == (GuildSettings {
                exempt_role_ids: fewer_exempt.exempt_role_ids,
                ..s
            })
            &&& channels == (GuildSettings { exempt_channel_ids: channels.exempt_channel_ids, ..s })
            &&& fewer_channels == (GuildSettings {
                exempt_channel_ids: fewer_channels.exempt_channel_ids,
                ..s
            })
        }),
        changed_settings(s, ConfigStep::ModRole(ListChange::Add(id)), check) is Some,
        changed_settings(s, ConfigStep::ModRole(ListChange::Remove(id)), check) is Some,
        changed_settings(s, ConfigStep::ExemptRole(ListChange::Add(id)), check) is Some,
        changed_settings(s, ConfigStep::ExemptRole(ListChange::Remove(id)), check) is Some,
        changed_settings(s, ConfigStep::ExemptChannel(ListChange::Add(id)), check) is Some,
        changed_settings(s, ConfigStep::ExemptChannel(ListChange::Remove(id)), check) is Some,
{
    crate::guildstore::adding_keeps_the_others(s.mod_role_ids, id, other);
    crate::guildstore::removing_takes_only_the_value(s.mod_role_ids, id);
    crate::guildstore::adding_keeps_the_others(s.exempt_role_ids, id, other);
    crate::guildstore::removing_takes_only_the_value(s.exempt_role_ids, id);
    crate::guildstore::adding_keeps_the_others(s.exempt_channel_ids, id, other);
    crate::guildstore::removing_takes_only_the_value(s.exempt_channel_ids, id);
}

/// An administrator may configure, and so may a member with one of the server's moderator
/// roles. Nobody else may.
pub proof fn administrators_and_moderators_configure(mod_roles: Seq<u64>, member: MemberFacts)
    ensures
        may_configure(mod_roles, Some(member)) <==> (member.administrator matches Some(admin)
            && admin) || exists|role: u64| #[trigger]
            member.roles@.contains(role) && mod_roles.contains(role),
        !may_configure(mod_roles, None),
{
    if has_a_role(member.roles@, mod_roles) {
        crate::commands::listed_roles_are_shared(member.roles@, mod_roles, 0);
    }
    if exists|role: u64| #[trigger] member.roles@.contains(role) && mod_roles.contains(role) {
        let role = choose|role: u64| #[trigger]
            member.roles@.contains(role) && mod_roles.contains(role);
        crate::commands::listed_roles_are_shared(member.roles@, mod_roles, role);
    }
}

/// Each sanction needs its own permission of the bot, and deleting and logging need none
/// beyond.
pub proof fn sanctions_need_their_permission()
    ensures
        needed_by(Action::DeleteTimeout) == Some(NeededPermission::ModerateMembers),
        needed_by(Action::DeleteKick) == Some(NeededPermission::KickMembers),
        needed_by(Action::DeleteBan) == Some(NeededPermission::BanMembers),
        needed_by(Action::LogOnly) is None,
        needed_by(Action::DeleteOnly) is None,
        permission_text(NeededPermission::ModerateMembers) == "Moderate Members"@,
        permission_text(NeededPermission::KickMembers) == "Kick Members"@,
        permission_text(NeededPermission::BanMembers) == "Ban Members"@,
{
}

/// The bot can post where it may see the channel, send messages, embed links and attach
/// files, all four of them. Whatever it lacks is named.
pub proof fn posting_needs_four_rights(rights: PostingRights)
    ensures
        ({
            let all = rights.view_channel && rights.send_messages && rights.embed_links
                && rights.attach_files;
            &&& posting_problem(true, Some(rights)) is None <==> all
            &&& posting_problem(false, Some(rights)) is Some
            &&& posting_problem(true, None) is Some
            &&& missing_rights(rights).contains("View Channel"@) <==> !rights.view_channel
            &&& missing_rights(rights).contains("Send Messages"@) <==> !rights.send_messages
            &&& missing_rights(rights).contains("Embed Links"@) <==> !rights.embed_links
            &&& missing_rights(rights).contains("Attach Files"@) <==> !rights.attach_files
        }),
{
    reveal_strlit("View Channel");
    reveal_strlit("Send Messages");
    reveal_strlit("Embed Links");
    reveal_strlit("Attach Files");
    assert("View Channel"@[0] == 'V' && "Send Messages"@[0] == 'S' && "Embed Links"@[0] == 'E'
        && "Attach Files"@[0] == 'A');
    let a = with_name(Seq::empty(), "View Channel"@, !rights.view_channel);
    let b = with_name(a, "Send Messages"@, !rights.send_messages);
    let c = with_name(b, "Embed Links"@, !rights.embed_links);
    let d = with_name(c, "Attach Files"@, !rights.attach_files);
    assert(d == missing_rights(rights));
    let names = seq!["View Channel"@, "Send Messages"@, "Embed Links"@, "Attach Files"@];
    assert forall|n: Seq<char>| a.contains(n) <==> n == "View Channel"@ && !rights.view_channel by {
        if !rights.view_channel {
            assert(a[0] == "View Channel"@);
        }
    }
    pushed_names(a, "Send Messages"@);
    pushed_names(b, "Embed Links"@);
    pushed_names(c, "Attach Files"@);
}

proof fn pushed_names(names: Seq<Seq<char>>, name: Seq<char>)
    ensures
        forall|n: Seq<char>| #[trigger]
            names.push(name).contains(n) <==> names.contains(n) || n == name,
{
    let after = names.push(name);
    assert(after[names.len() as int] == name);
    assert forall|n: Seq<char>| #[trigger] after.contains(n) <==> names.contains(n) || n == name by {
        if names.contains(n) {
            let k = choose|k: int| 0 <= k < names.len() && names[k] == n;
            assert(after[k] == n);
        }
        if after.contains(n) {
            let k = choose|k: int| 0 <= k < after.len() && after[k] == n;
            if k < names.len() {
                assert(names[k] == n);
            }
        }
    }
}

/// The answer to an action names it, and warns exactly where the bot is known to lack the
/// permission that the action needs.
pub proof fn missing_permissions_are_warned_of(action: Action, has_permission: Option<bool>)
    ensures
        ({
            let answer = action_answer(action, has_permission);
            let plain = "Action set to `"@ + action_name(action) + "`."@;
            let warned = has_permission == Some(false) && (action is DeleteTimeout
                || action is DeleteKick || action is DeleteBan);
            &&& !warned ==> answer == plain
            &&& warned ==> answer.len() > plain.len() && answer.take(plain.len() as int) == plain
        }),
{
    let plain = "Action set to `"@ + action_name(action) + "`."@;
    reveal_strlit("\n⚠️ I don't currently have the **");
    let answer = action_answer(action, has_permission);
    if answer.len() > plain.len() {
        assert(answer.take(plain.len() as int) =~= plain);
    }
}

/// The answer to a change of a list tells a change from none: adding what was there, and
/// removing what was not, change nothing.
pub proof fn answers_tell_a_change_from_none(mention: Seq<char>, held: Seq<u64>, id: u64)
    ensures
        !held.contains(id) ==> exempt_answer(mention, held, ListChange::Add(id)) == mention + " "@
            + "is now exempt from detection"@ + "."@ && exempt_answer(
            mention,
            held,
            ListChange::Remove(id),
        ) == mention + " "@ + "wasn't exempt"@ + "."@ && mod_role_answer(held, ListChange::Add(id))
            == role_mention(id) + " "@ + "is now allowed to manage this bot"@ + "."@
            && mod_role_answer(held, ListChange::Remove(id)) == role_mention(id) + " "@
            + "didn't have access"@ + "."@,
        held.contains(id) ==> exempt_answer(mention, held, ListChange::Add(id)) == mention + " "@
            + "was already exempt"@ + "."@ && exempt_answer(mention, held, ListChange::Remove(id))
            == mention + " "@ + "is no longer exempt"@ + "."@ && mod_role_answer(
            held,
            ListChange::Add(id),
        ) == role_mention(id) + " "@ + "already had access"@ + "."@ && mod_role_answer(
            held,
            ListChange::Remove(id),
        ) == role_mention(id) + " "@ + "can no longer manage this bot"@ + "."@,
{
}

/// A list of roles or of channels mentions every one of them, in their order.
pub proof fn lists_mention_every_id(ids: Seq<u64>)
    requires
        ids.len() > 0,
    ensures
        role_list(ids) == joined(ids.map_values(|id: u64| role_mention(id)), ", "@),
        channel_list(ids) == joined(ids.map_values(|id: u64| channel_mention(id)), ", "@),
        channel_list(Seq::empty()) == "none"@,
        log_channel_words(0) == "disabled"@,
        ids[0] != 0 ==> log_channel_words(ids[0]) == channel_mention(ids[0]),
        on_off(true) == "on"@,
        on_off(false) == "off"@,
{
}

/// What is typed for a log channel is what is searched for, and nothing is searched for in
/// any other part.
pub proof fn what_is_typed_is_searched_for(chosen: Seq<Chosen>, options: Vec<Given>)
    ensures
        chosen.len() > 0 && chosen[0].name@ == "log-channel"@ && chosen[0].value
            == ChosenValue::Single(options) ==> typed_so_far(chosen) == match first_typed(
            options@,
        ) {
            Some(text) => text,
            None => Seq::empty(),
        },
        chosen.len() == 0 || chosen[0].name@ != "log-channel"@ ==> typed_so_far(chosen).len() == 0,
{
}

/// Each option asks for the kind of value that its subcommand reads: a log channel is typed
/// and suggested, an action is picked, minutes are a number, and the lists take roles or
/// channels, to add or to remove.
pub proof fn options_ask_for_what_is_read()
    ensures
        log_channel_part() matches PartText::Single(sub) && sub.parameters.len() == 1
            && sub.parameters[0].kind is Text && sub.parameters[0].autocomplete,
        action_part() matches PartText::Single(sub) && sub.parameters.len() == 1
            && sub.parameters[0].kind is Text && sub.parameters[0].choices == action_choices(),
        timeout_part() matches PartText::Single(sub) && sub.parameters.len() == 1
            && sub.parameters[0].kind is Integer,
        show_part() matches PartText::Single(sub) && sub.parameters.len() == 0,
        forall|i: int|
            4 <= i < 7 ==> (#[trigger] config_parts()[i] matches PartText::Group {
                subcommands,
                ..
            } && subcommands.len() == 2 && subcommands[0].name == "add"@ && subcommands[1].name
                == "remove"@ && subcommands[0].parameters.len() == 1
                && subcommands[1].parameters.len() == 1 && (if i < 6 {
                subcommands[0].parameters[0].kind is Role && subcommands[1].parameters[0].kind
                    is Role
            } else {
                subcommands[0].parameters[0].kind is Channel && subcommands[1].parameters[0].kind
                    is Channel
            })),
{
}

} // verus!
