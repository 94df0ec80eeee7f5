use discord_anti_scam_bot::config::{Action, GuildConfig};
use discord_anti_scam_bot::guildstore::{
    format_ids, parse_ids, push_unique, read_row, remove_value, write_row, GuildSettingsStore,
    SettingsRow,
};

fn row(guild: &str) -> SettingsRow {
    SettingsRow {
        guild_id: guild.to_string(),
        log_channel_id: "5".to_string(),
        action: "delete_kick".to_string(),
        timeout_minutes: 7,
        mod_role_ids: "1,2".to_string(),
        exempt_role_ids: "".to_string(),
        exempt_channel_ids: "3".to_string(),
    }
}

#[test]
fn settings_are_isolated_per_guild() {
    let mut store = GuildSettingsStore::open(Vec::new());

    store.set_log_channel(1, 111);
    store.set_log_channel(2, 222);
    store.set_action(1, Action::DeleteBan);

    let guild1 = store.get(1);
    let guild2 = store.get(2);

    assert_eq!(guild1.log_channel_id, 111);
    assert_eq!(guild1.action, Action::DeleteBan);
    assert_eq!(guild2.log_channel_id, 222);
    assert_eq!(
        guild2.action,
        Action::DeleteTimeout,
        "guild 2 must keep the default, unaffected by guild 1's change"
    );
}

#[test]
fn unconfigured_guild_gets_defaults() {
    let store = GuildSettingsStore::open(Vec::new());
    let cfg = store.get(999);
    assert_eq!(cfg, GuildConfig::default());
    assert!(store.row(999).is_none());
}

#[test]
fn role_and_channel_lists_add_and_remove() {
    let mut store = GuildSettingsStore::open(Vec::new());
    let guild_id = 1;

    assert!(store.add_mod_role(guild_id, 10));
    assert!(!store.add_mod_role(guild_id, 10), "adding twice is a no-op");
    assert!(store.add_exempt_role(guild_id, 20));
    assert!(store.add_exempt_channel(guild_id, 30));

    let cfg = store.get(guild_id);
    assert_eq!(cfg.mod_role_ids, vec![10]);
    assert_eq!(cfg.exempt_role_ids, vec![20]);
    assert_eq!(cfg.exempt_channel_ids, vec![30]);

    assert!(store.remove_mod_role(guild_id, 10));
    assert!(!store.remove_mod_role(guild_id, 10), "already removed");
    assert!(store.get(guild_id).mod_role_ids.is_empty());
    assert!(store.remove_exempt_role(guild_id, 20));
    assert!(!store.remove_exempt_role(guild_id, 20));
    assert!(store.remove_exempt_channel(guild_id, 30));
    assert!(!store.remove_exempt_channel(guild_id, 30));
}

#[test]
fn a_row_reads_back_as_it_was_written() {
    let cfg = GuildConfig {
        log_channel_id: u64::MAX,
        action: Action::LogOnly,
        timeout_minutes: 40320,
        mod_role_ids: vec![1, 2, 3],
        exempt_role_ids: vec![],
        exempt_channel_ids: vec![u64::MAX],
    };
    let stored = write_row(77, &cfg);
    assert_eq!(stored.guild_id, "77");
    assert_eq!(stored.log_channel_id, "18446744073709551615");
    assert_eq!(stored.action, "log_only");
    assert_eq!(stored.timeout_minutes, 40320);
    assert_eq!(stored.mod_role_ids, "1,2,3");
    assert_eq!(stored.exempt_role_ids, "");
    assert_eq!(read_row(&stored), cfg);
}

#[test]
fn a_timeout_beyond_the_signed_range_comes_back_as_the_default() {
    let mut store = GuildSettingsStore::open(Vec::new());
    store.set_timeout_minutes(1, u64::MAX);
    assert_eq!(store.row(1).unwrap().timeout_minutes, -1);
    assert_eq!(store.get(1).timeout_minutes, GuildConfig::default().timeout_minutes);
    store.set_timeout_minutes(1, i64::MAX as u64);
    assert_eq!(store.get(1).timeout_minutes, i64::MAX as u64);
}

#[test]
fn unreadable_fields_count_as_defaults() {
    let bad = SettingsRow {
        guild_id: "1".to_string(),
        log_channel_id: "general".to_string(),
        action: "explode".to_string(),
        timeout_minutes: -5,
        mod_role_ids: "x,1,,+2, 3".to_string(),
        exempt_role_ids: ",".to_string(),
        exempt_channel_ids: "99999999999999999999".to_string(),
    };
    let cfg = read_row(&bad);
    assert_eq!(cfg.log_channel_id, 0);
    assert_eq!(cfg.action, Action::DeleteTimeout);
    assert_eq!(cfg.timeout_minutes, 60);
    assert_eq!(cfg.mod_role_ids, vec![1, 2]);
    assert!(cfg.exempt_role_ids.is_empty());
    assert!(cfg.exempt_channel_ids.is_empty());
}

#[test]
fn a_change_keeps_the_other_settings_of_the_row() {
    let mut store = GuildSettingsStore::open(vec![row("1"), row("2")]);
    store.set_timeout_minutes(2, 9);
    let cfg = store.get(2);
    assert_eq!(cfg.timeout_minutes, 9);
    assert_eq!(cfg.log_channel_id, 5);
    assert_eq!(cfg.action, Action::DeleteKick);
    assert_eq!(cfg.mod_role_ids, vec![1, 2]);
    assert_eq!(cfg.exempt_channel_ids, vec![3]);
    assert_eq!(store.get(1).timeout_minutes, 7);
}

#[test]
fn lists_of_ids_as_text() {
    assert_eq!(format_ids(&[]), "");
    assert_eq!(format_ids(&[7]), "7");
    assert_eq!(format_ids(&[10, 20, 30]), "10,20,30");
    assert_eq!(parse_ids("10,20,30"), vec![10, 20, 30]);
    assert!(parse_ids("").is_empty());
}

#[test]
fn values_in_lists() {
    let mut v = vec![1, 2];
    assert!(!push_unique(&mut v, 2));
    assert!(push_unique(&mut v, 3));
    assert_eq!(v, vec![1, 2, 3]);
    let mut twice = vec![1, 2, 1];
    assert!(remove_value(&mut twice, 1));
    assert_eq!(twice, vec![2]);
    assert!(!remove_value(&mut twice, 1));
}

#[test]
fn actions_by_name() {
    for (action, name) in [
        (Action::LogOnly, "log_only"),
        (Action::DeleteOnly, "delete_only"),
        (Action::DeleteTimeout, "delete_timeout"),
        (Action::DeleteKick, "delete_kick"),
        (Action::DeleteBan, "delete_ban"),
    ] {
        assert_eq!(action.as_toml_str(), name);
        assert_eq!(Action::from_toml_str(name), Some(action));
    }
    assert_eq!(Action::from_toml_str("Delete_Ban"), None);
}
