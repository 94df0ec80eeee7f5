use discord_anti_scam_bot::commands::MemberFacts;
use discord_anti_scam_bot::config::{
    Action, BotConfig, Config, DetectionConfig, FloodConfig, GuildConfig, LinksConfig,
    ModerationConfig, OcrConfig, StorageConfig,
};
use discord_anti_scam_bot::guildstore::GuildSettingsStore;
use discord_anti_scam_bot::slashconfig::{
    build_config_command, build_show_text, changes_settings, check_bot_can_post, find_channel, find_channel_action,
    find_integer, find_role, find_role_action, find_string, is_authorized, missing_permission_for,
    not_authorized_text, permission_name, plan, run, typed_text, Chosen, ChosenSub, ChosenValue,
    CommandPart, ConfigRefusal, ConfigStep, Given, ListChange, NeededPermission, ParameterKind,
    PostCheck, PostingRights, RunFacts, Subcommand,
};
use discord_anti_scam_bot::suggestions::{postable_channels, ChannelFacts, ChannelKind};

fn config() -> Config {
    Config {
        bot: BotConfig { prefix: "!scam".to_string(), log_channel_id: 0, mod_role_ids: vec![] },
        moderation: ModerationConfig {
            action: Action::DeleteTimeout,
            timeout_minutes: 60,
            exempt_role_ids: vec![],
            exempt_channel_ids: vec![],
        },
        detection: DetectionConfig {
            reference_dir: "reference".to_string(),
            match_threshold: 18,
            retro_scan_minutes: 15,
        },
        flood: FloodConfig {
            enabled: true,
            min_channels: 3,
            window_seconds: 60,
            same_image_threshold: 6,
        },
        links: LinksConfig { enabled: false, allowed_hosts: vec!["imgur.com".to_string()] },
        ocr: OcrConfig::default(),
        storage: StorageConfig { database_path: "data/bot.sqlite3".to_string() },
    }
}

fn facts() -> RunFacts {
    RunFacts { check: PostCheck::Able, has_permission: None, reads_text: true }
}

fn single(name: &str, options: Vec<Given>) -> Vec<Chosen> {
    vec![Chosen { name: name.to_string(), value: ChosenValue::Single(options) }]
}

fn group(name: &str, sub: &str, options: Vec<Given>) -> Vec<Chosen> {
    vec![Chosen {
        name: name.to_string(),
        value: ChosenValue::Group(vec![ChosenSub { name: sub.to_string(), options: Some(options) }]),
    }]
}

fn refused(refusal: ConfigRefusal) -> ConfigStep {
    ConfigStep::Refuse(refusal)
}

#[test]
fn the_command_has_every_option() {
    let command = build_config_command();
    assert_eq!(command.name, "config");
    assert_eq!(
        command.description,
        "View or change discord-anti-scam-bot settings for this server"
    );
    let name = |part: &CommandPart| match part {
        CommandPart::Single(sub) => sub.name.clone(),
        CommandPart::Group { name, .. } => format!("{name}/"),
    };
    assert_eq!(
        command.parts.iter().map(name).collect::<Vec<_>>(),
        vec![
            "log-channel",
            "action",
            "timeout-minutes",
            "show",
            "mod-role/",
            "exempt-role/",
            "exempt-channel/"
        ]
    );
    let sub = |i: usize| -> &Subcommand {
        match &command.parts[i] {
            CommandPart::Single(sub) => sub,
            CommandPart::Group { .. } => panic!("a group"),
        }
    };
    assert!(sub(0).parameters[0].autocomplete);
    assert_eq!(
        sub(1).parameters[0].choices.iter().map(|c| c.value.as_str()).collect::<Vec<_>>(),
        vec!["log_only", "delete_only", "delete_timeout", "delete_kick", "delete_ban"]
    );
    assert_eq!(sub(1).parameters[0].choices[2].name, "Delete + timeout (recommended)");
    assert_eq!(sub(2).parameters[0].range, Some((1, 40320)));
    assert_eq!(sub(2).parameters[0].kind, ParameterKind::Integer);
    assert!(sub(3).parameters.is_empty());
    match &command.parts[6] {
        CommandPart::Group { subcommands, .. } => {
            assert_eq!(subcommands[1].name, "remove");
            assert_eq!(subcommands[1].description, "Remove a channel");
            assert_eq!(subcommands[1].parameters[0].kind, ParameterKind::Channel);
        }
        CommandPart::Single(_) => panic!("a single"),
    }
}

#[test]
fn settings_are_changed_by_administrators_and_moderator_roles() {
    let member = |roles: &[u64], administrator| {
        Some(MemberFacts { roles: roles.to_vec(), manage_messages: Some(true), administrator })
    };
    let open = GuildConfig::default();
    assert!(is_authorized(&open, &member(&[], Some(true))));
    assert!(!is_authorized(&open, &member(&[1], Some(false))));
    assert!(!is_authorized(&open, &member(&[1], None)));
    assert!(!is_authorized(&open, &None));
    let roles = GuildConfig { mod_role_ids: vec![7], ..GuildConfig::default() };
    assert!(is_authorized(&roles, &member(&[7], Some(false))));
    assert!(is_authorized(&roles, &member(&[], Some(true))));
    assert!(!is_authorized(&roles, &member(&[8], Some(false))));
    assert_eq!(
        not_authorized_text(),
        "You need to be a server **Administrator** (or have a role listed in `mod_role_ids`) to change this bot's settings."
    );
}

#[test]
fn options_are_found() {
    let options = vec![
        Given::Other,
        Given::Role(3),
        Given::Typed("typed".to_string()),
        Given::Text("text".to_string()),
        Given::Integer(-4),
        Given::Channel(5),
    ];
    assert_eq!(find_string(&options), Some("typed"));
    assert_eq!(find_integer(&options), Some(-4));
    assert_eq!(find_role(&options), Some(3));
    assert_eq!(find_channel(&options), Some(5));
    assert_eq!(find_string(&[]), None);
    assert_eq!(find_role(&[Given::Channel(1)]), None);
    let chosen = |name: &str, options| vec![ChosenSub { name: name.to_string(), options }];
    assert_eq!(
        find_role_action(&chosen("add", Some(vec![Given::Role(3)]))),
        Some(ListChange::Add(3))
    );
    assert_eq!(
        find_channel_action(&chosen("remove", Some(vec![Given::Channel(3)]))),
        Some(ListChange::Remove(3))
    );
    assert_eq!(find_role_action(&chosen("toggle", Some(vec![Given::Role(3)]))), None);
    assert_eq!(find_role_action(&chosen("add", None)), None);
    assert_eq!(find_role_action(&[]), None);
}

#[test]
fn every_command_is_planned() {
    let text = |s: &str| vec![Given::Text(s.to_string())];
    assert_eq!(plan(false, &[]), refused(ConfigRefusal::OutsideServer));
    assert_eq!(plan(true, &[]), refused(ConfigRefusal::MissingSubcommand));
    assert_eq!(plan(true, &single("log-channel", text("12"))), ConfigStep::LogChannel(12));
    assert_eq!(plan(true, &single("log-channel", text("x"))), refused(ConfigRefusal::BadChannel));
    assert_eq!(plan(true, &single("log-channel", vec![])), refused(ConfigRefusal::BadChannel));
    assert_eq!(
        plan(true, &single("action", text("delete_ban"))),
        ConfigStep::SetAction(Action::DeleteBan)
    );
    assert_eq!(plan(true, &single("action", text("nuke"))), refused(ConfigRefusal::BadAction));
    assert_eq!(
        plan(true, &single("timeout-minutes", vec![Given::Integer(5)])),
        ConfigStep::TimeoutMinutes(5)
    );
    assert_eq!(
        plan(true, &single("timeout-minutes", vec![Given::Integer(0)])),
        refused(ConfigRefusal::BadDuration)
    );
    assert_eq!(
        plan(true, &single("timeout-minutes", vec![])),
        refused(ConfigRefusal::BadDuration)
    );
    assert_eq!(plan(true, &single("show", vec![])), ConfigStep::Show);
    assert_eq!(
        plan(true, &group("mod-role", "add", vec![Given::Role(1)])),
        ConfigStep::ModRole(ListChange::Add(1))
    );
    assert_eq!(
        plan(true, &group("exempt-role", "remove", vec![Given::Role(1)])),
        ConfigStep::ExemptRole(ListChange::Remove(1))
    );
    assert_eq!(
        plan(true, &group("exempt-channel", "add", vec![Given::Channel(1)])),
        ConfigStep::ExemptChannel(ListChange::Add(1))
    );
    assert_eq!(
        plan(true, &group("mod-role", "add", vec![])),
        refused(ConfigRefusal::MissingRole)
    );
    assert_eq!(
        plan(true, &group("exempt-channel", "add", vec![Given::Role(1)])),
        refused(ConfigRefusal::MissingChannel)
    );
    assert_eq!(plan(true, &single("mod-role", vec![])), refused(ConfigRefusal::UnknownSubcommand));
    assert_eq!(
        plan(true, &group("action", "add", vec![])),
        refused(ConfigRefusal::UnknownSubcommand)
    );
    let other = vec![Chosen { name: "x".to_string(), value: ChosenValue::Other }];
    assert_eq!(plan(true, &other), refused(ConfigRefusal::UnknownSubcommand));
}

#[test]
fn refusals_in_words() {
    for (refusal, text) in [
        (ConfigRefusal::OutsideServer, "This command only works in a server."),
        (ConfigRefusal::MissingSubcommand, "Missing subcommand."),
        (ConfigRefusal::BadChannel, "Missing or invalid channel option."),
        (ConfigRefusal::BadAction, "Invalid action value."),
        (ConfigRefusal::BadDuration, "Invalid duration."),
        (ConfigRefusal::MissingRole, "Missing role option."),
        (ConfigRefusal::MissingChannel, "Missing channel option."),
        (ConfigRefusal::UnknownSubcommand, "Unknown subcommand."),
    ] {
        assert_eq!(refusal.message(), text);
        let mut store = GuildSettingsStore::open(Vec::new());
        assert_eq!(run(&mut store, 1, refused(refusal), &facts(), &config()), text);
        assert!(store.row(1).is_none());
    }
}

#[test]
fn commands_change_only_their_server() {
    let mut store = GuildSettingsStore::open(Vec::new());
    let cfg = config();
    let mut go = |step| run(&mut store, 1, step, &facts(), &cfg);
    assert_eq!(go(ConfigStep::LogChannel(12)), "Log channel set to <#12>.");
    assert_eq!(go(ConfigStep::SetAction(Action::DeleteKick)), "Action set to `delete_kick`.");
    assert_eq!(go(ConfigStep::TimeoutMinutes(30)), "Timeout duration set to 30 minute(s).");
    assert_eq!(
        go(ConfigStep::ModRole(ListChange::Add(5))),
        "<@&5> is now allowed to manage this bot."
    );
    assert_eq!(go(ConfigStep::ModRole(ListChange::Add(5))), "<@&5> already had access.");
    assert_eq!(
        go(ConfigStep::ModRole(ListChange::Remove(5))),
        "<@&5> can no longer manage this bot."
    );
    assert_eq!(go(ConfigStep::ModRole(ListChange::Remove(5))), "<@&5> didn't have access.");
    assert_eq!(
        go(ConfigStep::ExemptRole(ListChange::Add(6))),
        "<@&6> is now exempt from detection."
    );
    assert_eq!(go(ConfigStep::ExemptRole(ListChange::Add(6))), "<@&6> was already exempt.");
    assert_eq!(go(ConfigStep::ExemptRole(ListChange::Remove(6))), "<@&6> is no longer exempt.");
    assert_eq!(go(ConfigStep::ExemptRole(ListChange::Remove(6))), "<@&6> wasn't exempt.");
    assert_eq!(
        go(ConfigStep::ExemptChannel(ListChange::Add(7))),
        "<#7> is now exempt from detection."
    );
    assert_eq!(go(ConfigStep::ExemptChannel(ListChange::Remove(8))), "<#8> wasn't exempt.");
    let guild = store.get(1);
    assert_eq!(guild.log_channel_id, 12);
    assert_eq!(guild.action, Action::DeleteKick);
    assert_eq!(guild.timeout_minutes, 30);
    assert!(guild.mod_role_ids.is_empty());
    assert_eq!(guild.exempt_channel_ids, vec![7]);
    assert_eq!(store.get(2), GuildConfig::default());
}

#[test]
fn a_channel_that_the_bot_cannot_use_is_not_set() {
    let mut store = GuildSettingsStore::open(Vec::new());
    let unable = RunFacts { check: PostCheck::Unable("I'm missing: **X**.".to_string()), ..facts() };
    assert_eq!(
        run(&mut store, 1, ConfigStep::LogChannel(12), &unable, &config()),
        "I can't use <#12> as the log channel: I'm missing: **X**. \
         Fix my permissions there (or pick another channel) and try again."
    );
    let unchecked = RunFacts { check: PostCheck::Unchecked("offline".to_string()), ..facts() };
    assert_eq!(
        run(&mut store, 1, ConfigStep::LogChannel(12), &unchecked, &config()),
        "Couldn't check my permissions in <#12>: offline"
    );
    assert_eq!(store.get(1).log_channel_id, 0);
    assert!(!changes_settings(ConfigStep::LogChannel(12), &unable.check));
    assert!(changes_settings(ConfigStep::LogChannel(12), &PostCheck::Able));
    assert!(!changes_settings(ConfigStep::Show, &PostCheck::Able));
    assert!(!changes_settings(refused(ConfigRefusal::BadAction), &PostCheck::Able));
    assert!(changes_settings(ConfigStep::TimeoutMinutes(1), &unable.check));
}

#[test]
fn an_action_that_the_bot_cannot_take_is_warned_of() {
    let mut store = GuildSettingsStore::open(Vec::new());
    let lacking = RunFacts { has_permission: Some(false), ..facts() };
    assert_eq!(
        run(&mut store, 1, ConfigStep::SetAction(Action::DeleteBan), &lacking, &config()),
        "Action set to `delete_ban`.\n⚠️ I don't currently have the **Ban Members** permission on \
         this server, so this action will fail until you grant it to my role."
    );
    assert_eq!(store.get(1).action, Action::DeleteBan);
    assert_eq!(
        run(&mut store, 1, ConfigStep::SetAction(Action::LogOnly), &lacking, &config()),
        "Action set to `log_only`."
    );
    assert_eq!(
        missing_permission_for(Action::DeleteTimeout),
        Some(NeededPermission::ModerateMembers)
    );
    assert_eq!(missing_permission_for(Action::DeleteKick), Some(NeededPermission::KickMembers));
    assert_eq!(missing_permission_for(Action::DeleteOnly), None);
    assert_eq!(permission_name(NeededPermission::ModerateMembers), "Moderate Members");
    assert_eq!(permission_name(NeededPermission::KickMembers), "Kick Members");
}

#[test]
fn the_settings_are_shown() {
    let guild = GuildConfig {
        log_channel_id: 12,
        mod_role_ids: vec![1, 2],
        exempt_channel_ids: vec![3, 4],
        ..GuildConfig::default()
    };
    assert_eq!(
        build_show_text(&guild, &config(), false),
        "**Current settings**\n\
         - Action: `delete_timeout`\n\
         - Timeout duration: 60 minute(s)\n\
         - Log channel: <#12>\n\
         - Mod roles: <@&1>, <@&2>\n\
         - Exempt roles: none (falls back to the Administrator permission)\n\
         - Exempt channels: <#3>, <#4>\n\
         - Match threshold: 18 (hash distance)\n\
         - Flood detection: on (min 3 channels within 60s)\n\
         - Link images: off (1 allow-listed host(s))\n\
         - Text detection (OCR): off"
    );
    let mut store = GuildSettingsStore::open(Vec::new());
    let shown = run(&mut store, 1, ConfigStep::Show, &facts(), &config());
    assert_eq!(shown, build_show_text(&GuildConfig::default(), &config(), true));
    assert!(shown.contains("- Log channel: disabled\n"));
    assert!(shown.contains("- Exempt channels: none\n"));
    assert!(store.row(1).is_none());
}

#[test]
fn posting_needs_every_right() {
    let rights = PostingRights {
        view_channel: true,
        send_messages: true,
        embed_links: true,
        attach_files: true,
    };
    assert_eq!(check_bot_can_post(true, Some(rights)), None);
    assert_eq!(
        check_bot_can_post(
            true,
            Some(PostingRights { view_channel: false, attach_files: false, ..rights })
        ),
        Some("I'm missing: **View Channel, Attach Files**.".to_string())
    );
    assert_eq!(
        check_bot_can_post(
            true,
            Some(PostingRights { send_messages: false, embed_links: false, ..rights })
        ),
        Some("I'm missing: **Send Messages, Embed Links**.".to_string())
    );
    assert_eq!(
        check_bot_can_post(true, None),
        Some("that channel doesn't exist (or isn't a text channel) in this server.".to_string())
    );
    assert_eq!(
        check_bot_can_post(false, Some(rights)),
        Some("I couldn't find this server in my cache.".to_string())
    );
}

fn channel(id: u64, name: &str, kind: ChannelKind) -> ChannelFacts {
    ChannelFacts { id, name: name.to_string(), kind, view_channel: true, send_messages: true }
}

#[test]
fn channels_are_suggested_in_order() {
    let channels = [
        channel(1, "zebra", ChannelKind::Text),
        channel(2, "Mod-LOG", ChannelKind::News),
        channel(3, "voice", ChannelKind::Other),
        channel(4, "mod-log", ChannelKind::Text),
        ChannelFacts { view_channel: false, ..channel(5, "hidden", ChannelKind::Text) },
        ChannelFacts { send_messages: false, ..channel(6, "read-only", ChannelKind::Text) },
    ];
    let names = |typed: &str| -> Vec<String> {
        postable_channels(&channels, typed).iter().map(|c| format!("{}={}", c.name, c.value)).collect()
    };
    assert_eq!(names(""), vec!["#Mod-LOG=2", "#mod-log=4", "#zebra=1"]);
    assert_eq!(names("MOD-l"), vec!["#Mod-LOG=2", "#mod-log=4"]);
    assert!(names("nothing").is_empty());
}

#[test]
fn only_so_many_channels_are_suggested() {
    let channels: Vec<ChannelFacts> =
        (0..30).map(|i| channel(i, &format!("c{:02}", 29 - i), ChannelKind::Text)).collect();
    let found = postable_channels(&channels, "");
    assert_eq!(found.len(), 25);
    assert_eq!(found[0].name, "#c00");
    assert_eq!(found[24].name, "#c24");
}

#[test]
fn what_was_typed_is_found() {
    let typed = || vec![Given::Text("no".to_string()), Given::Typed("gen".to_string())];
    assert_eq!(typed_text(&single("log-channel", typed())), "gen");
    assert_eq!(typed_text(&single("action", typed())), "");
    assert_eq!(typed_text(&single("log-channel", vec![])), "");
    assert_eq!(typed_text(&group("log-channel", "add", typed())), "");
    assert_eq!(typed_text(&[]), "");
}
