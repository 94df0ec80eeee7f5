use discord_anti_scam_bot::commands::{
    add_reply, command_of, fits_reference, help_text, is_authorized, list_reply,
    nothing_attached_text, parse_command, remove_reply, remove_usage_text, unique_suffix,
    AddOutcome, Command, MemberFacts, MAX_REFERENCE_BYTES,
};
use discord_anti_scam_bot::config::GuildConfig;

fn member(roles: &[u64], manage_messages: Option<bool>) -> Option<MemberFacts> {
    Some(MemberFacts { roles: roles.to_vec(), manage_messages, administrator: None })
}

#[test]
fn commands_are_read_by_their_words() {
    assert_eq!(parse_command(" add"), Command::Add);
    assert_eq!(parse_command("list extra"), Command::List);
    assert_eq!(parse_command("remove\u{a0} a.png b.png"), Command::Remove(Some("a.png".to_string())));
    assert_eq!(parse_command("remove  "), Command::Remove(None));
    assert_eq!(parse_command(""), Command::Help);
    assert_eq!(parse_command("Add"), Command::Help);
    assert_eq!(command_of(&[]), Command::Help);
    assert_eq!(command_of(&["list".to_string()]), Command::List);
}

#[test]
fn answers_to_commands() {
    assert_eq!(
        help_text(),
        "Available commands:\n\
         `!scam add` (with one or more attached images) — add scam references\n\
         `!scam list` — list known references\n\
         `!scam remove <file>` — remove a reference"
    );
    assert_eq!(nothing_attached_text(), "Attach one or more images to your `!scam add` command.");
    assert_eq!(remove_usage_text(), "Usage: `!scam remove <filename>` (see `!scam list`)");
    assert_eq!(remove_reply("a.png", true), "Reference `a.png` removed.");
    assert_eq!(remove_reply("a.png", false), "No reference named `a.png`.");
    assert_eq!(list_reply(&[]), "No reference stored yet.");
    assert_eq!(
        list_reply(&["a.png".to_string(), "b.png".to_string()]),
        "**2 reference(s):**\n```\na.png\nb.png\n```"
    );
}

#[test]
fn the_answer_to_an_add_counts_what_became_of_the_images() {
    assert_eq!(add_reply(&[AddOutcome::Failed], 3), "0 reference image(s) added. Total: 3");
    assert_eq!(
        add_reply(
            &[
                AddOutcome::Added { retro: 2 },
                AddOutcome::TooLarge,
                AddOutcome::Added { retro: 5 },
            ],
            12
        ),
        "2 reference image(s) added. Total: 12\n\
         Retro-scan: 7 recent post(s) matched and were handled.\n\
         1 image(s) skipped: over the 15 MiB reference size limit."
    );
}

#[test]
fn references_have_a_size_limit() {
    assert_eq!(MAX_REFERENCE_BYTES, 15 * 1024 * 1024);
    assert!(fits_reference(MAX_REFERENCE_BYTES));
    assert!(!fits_reference(MAX_REFERENCE_BYTES + 1));
}

#[test]
fn references_are_managed_by_role_or_permission() {
    let open = GuildConfig::default();
    assert!(is_authorized(&open, &member(&[], Some(true))));
    assert!(!is_authorized(&open, &member(&[], Some(false))));
    assert!(!is_authorized(&open, &member(&[1], None)));
    assert!(!is_authorized(&open, &None));
    let roles = GuildConfig { mod_role_ids: vec![7, 8], ..GuildConfig::default() };
    assert!(is_authorized(&roles, &member(&[1, 8], Some(false))));
    assert!(!is_authorized(&roles, &member(&[1], Some(true))));
}

#[test]
fn suffixes_are_hexadecimal_and_differ() {
    assert_eq!(unique_suffix(0), "0");
    assert_eq!(unique_suffix(255), "ff");
    assert_eq!(unique_suffix(1_700_000_000_000_000_000), format!("{:x}", 1_700_000_000_000_000_000u64));
    assert_eq!(unique_suffix(u128::MAX), "f".repeat(32));
    assert_ne!(unique_suffix(10), unique_suffix(11));
}
