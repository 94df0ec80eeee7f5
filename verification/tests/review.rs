use discord_anti_scam_bot::commands::MemberFacts;
use discord_anti_scam_bot::config::{Action, GuildConfig};
use discord_anti_scam_bot::embeds::{ButtonLook, EmbedField};
use discord_anti_scam_bot::hashstore::is_safe_filename;
use discord_anti_scam_bot::review::{
    attached_image, can_manage_references, confirmable, confirmed_review, dismissed_review,
    extension_of, failure_text, is_review_button, lift_note, manual_add_log, menu_reply, menu_step,
    no_image_text, not_allowed_text, parse_button, reference_buttons, reference_name,
    removed_review, retro_summary, review_step, timeout_to_lift, truncate,
    unconfirmed_detection_buttons, unknown_button_text, AttachedFile, ConfirmFault, MenuStep,
    Removal, ReviewButton, ReviewKind, ReviewStep,
};

fn moderator() -> Option<MemberFacts> {
    Some(MemberFacts { roles: vec![], manage_messages: Some(true), administrator: None })
}

#[test]
fn extension_is_sanitized() {
    assert_eq!(extension_of("image.jpg"), "jpg");
    assert_eq!(extension_of("no_extension"), "png");
    assert_eq!(extension_of("evil.j/../pg"), "png");
    assert_eq!(extension_of("weird.verylongext"), "png");
    assert_eq!(extension_of("odd.jp g"), "png");
    assert_eq!(extension_of("dot."), "png");
    assert_eq!(extension_of("a.jpeg2"), "jpeg2");
}

#[test]
fn reference_button_encodes_author_and_file() {
    let rows = reference_buttons(Some(42), "ref_abc.jpg");
    assert_eq!(rows.len(), 1);
    assert_eq!(rows[0].buttons.len(), 1);
    assert_eq!(rows[0].buttons[0].custom_id, "antiscam:rmref:42:ref_abc.jpg");
    assert_eq!(rows[0].buttons[0].label, "✖ False positive: remove ref_abc.jpg");
    assert_eq!(rows[0].buttons[0].look, ButtonLook::Danger);
    assert!(reference_buttons(None, &"x".repeat(100)).is_empty());
}

#[test]
fn an_id_has_at_most_a_hundred_bytes() {
    // "antiscam:rmref:0:" takes 17.
    assert_eq!(reference_buttons(None, &"x".repeat(83)).len(), 1);
    assert!(reference_buttons(None, &"x".repeat(84)).is_empty());
    assert!(reference_buttons(None, &"é".repeat(42)).is_empty());
    let long = reference_buttons(None, &"x".repeat(50));
    assert_eq!(
        long[0].buttons[0].label,
        format!("✖ False positive: remove {}…", "x".repeat(39))
    );
}

#[test]
fn buttons_of_unconfirmed_detections() {
    let rows = unconfirmed_detection_buttons(42);
    let ids: Vec<&str> = rows[0].buttons.iter().map(|b| b.custom_id.as_str()).collect();
    assert_eq!(ids, vec!["antiscam:add:42", "antiscam:dismiss:42"]);
    assert_eq!(rows[0].buttons[0].label, "➕ Scam: add to references");
    assert_eq!(rows[0].buttons[0].look, ButtonLook::Success);
    assert_eq!(rows[0].buttons[1].label, "✖ False positive");
    assert_eq!(rows[0].buttons[1].look, ButtonLook::Secondary);
}

#[test]
fn buttons_are_read_back() {
    assert!(is_review_button("antiscam:add:1"));
    assert!(!is_review_button("other:add:1"));
    let parsed = |kind, author, reference: Option<&str>| ReviewButton {
        kind,
        author,
        reference: reference.map(|r| r.to_string()),
    };
    assert_eq!(parse_button("antiscam:add:7"), parsed(ReviewKind::Add, Some(7), None));
    assert_eq!(parse_button("antiscam:dismiss:0"), parsed(ReviewKind::Dismiss, None, None));
    assert_eq!(
        parse_button("antiscam:rmref:7:a:b.png"),
        parsed(ReviewKind::RemoveReference, Some(7), Some("a:b.png"))
    );
    assert_eq!(parse_button("antiscam:"), parsed(ReviewKind::Unknown, None, None));
    assert_eq!(parse_button("antiscam:rmref"), parsed(ReviewKind::RemoveReference, None, None));
    assert_eq!(parse_button("antiscam:x:y:"), parsed(ReviewKind::Unknown, None, Some("")));
}

#[test]
fn clicks_are_gated() {
    let guild = GuildConfig::default();
    let id = "antiscam:rmref:7:a.png";
    assert_eq!(review_step(false, &guild, &moderator(), id), ReviewStep::Ignore);
    assert_eq!(review_step(true, &guild, &None, id), ReviewStep::Refuse);
    assert_eq!(
        review_step(true, &guild, &moderator(), id),
        ReviewStep::RemoveReference { reference: "a.png".to_string(), author: Some(7) }
    );
    assert_eq!(review_step(true, &guild, &moderator(), "antiscam:add:7"), ReviewStep::Confirm);
    assert_eq!(
        review_step(true, &guild, &moderator(), "antiscam:dismiss:7"),
        ReviewStep::Dismiss { author: Some(7) }
    );
    assert_eq!(
        review_step(true, &guild, &moderator(), "antiscam:rmref:0"),
        ReviewStep::RemoveReference { reference: String::new(), author: None }
    );
    assert_eq!(review_step(true, &guild, &moderator(), "antiscam:zap:1"), ReviewStep::Unknown);
    assert!(can_manage_references(&guild, &moderator()));
    assert!(!can_manage_references(&guild, &None));
}

#[test]
fn only_a_timeout_is_lifted() {
    assert_eq!(timeout_to_lift(Action::DeleteTimeout, Some(7)), Some(7));
    assert_eq!(timeout_to_lift(Action::DeleteTimeout, None), None);
    assert_eq!(timeout_to_lift(Action::DeleteBan, Some(7)), None);
    assert_eq!(lift_note(Some(7), true), ", timeout of <@7> lifted");
    assert_eq!(lift_note(Some(7), false), ", could not lift the timeout of <@7>");
    assert_eq!(lift_note(None, true), "");
}

#[test]
fn reviews_in_words() {
    assert_eq!(
        dismissed_review(9, ", timeout of <@7> lifted"),
        "✖ False positive (<@9>), timeout of <@7> lifted"
    );
    assert_eq!(
        removed_review(9, "a.png", Removal::Removed, ""),
        "✖ False positive (<@9>): reference `a.png` removed"
    );
    assert_eq!(
        removed_review(9, "a.png", Removal::AlreadyGone, "!"),
        "✖ False positive (<@9>): reference `a.png` was already gone!"
    );
    assert_eq!(
        removed_review(9, "a.png", Removal::Failed, ""),
        "✖ False positive (<@9>): could not remove reference `a.png`"
    );
    assert_eq!(
        confirmed_review(9, "ref_1.png", 0),
        "✅ Confirmed scam (<@9>): added as `ref_1.png`. Retro-scan: no recent post matched."
    );
    assert_eq!(
        retro_summary(3),
        " Retro-scan: 3 recent post(s) matched and were handled per each server's settings."
    );
    assert_eq!(unknown_button_text(), "Unknown button.");
    assert_eq!(failure_text("no luck"), "Something went wrong: no luck");
}

#[test]
fn only_an_attached_image_within_the_limit_is_confirmed() {
    assert_eq!(confirmable(Some(15 * 1024 * 1024)), Ok(()));
    assert_eq!(confirmable(Some(15 * 1024 * 1024 + 1)), Err(ConfirmFault::TooLarge));
    assert_eq!(confirmable(None), Err(ConfirmFault::NoImage));
    assert_eq!(ConfirmFault::NoImage.message(), "this log message has no image attached");
    assert_eq!(ConfirmFault::TooLarge.message(), "image is over the reference size limit");
}

#[test]
fn messages_are_picked_in_steps() {
    assert_eq!(menu_step(false, true, true), MenuStep::OutsideServer);
    assert_eq!(menu_step(true, false, true), MenuStep::NotAllowed);
    assert_eq!(menu_step(true, true, false), MenuStep::NoTarget);
    assert_eq!(menu_step(true, true, true), MenuStep::Collect);
    assert_eq!(MenuStep::OutsideServer.refusal(), Some("This only works in a server."));
    assert_eq!(MenuStep::NotAllowed.refusal(), Some(not_allowed_text()));
    assert_eq!(MenuStep::NoTarget.refusal(), Some("Could not read the target message."));
    assert_eq!(MenuStep::Collect.refusal(), None);
    assert_eq!(
        not_allowed_text(),
        "You need the **Manage Messages** permission (or one of this server's \
         mod roles) to manage scam references."
    );
    assert_eq!(
        no_image_text(),
        "No image found in that message (attachments, forwarded images or allow-listed links)."
    );
    assert_eq!(
        menu_reply(2, 1, 4),
        "Added 2 reference(s). 1 image(s) could not be added (see logs). Retro-scan: 4 recent \
         post(s) matched and were handled per each server's settings."
    );
    assert_eq!(menu_reply(1, 0, 0), "Added 1 reference(s). Retro-scan: no recent post matched.");
}

#[test]
fn references_added_by_hand_are_logged() {
    let silent = GuildConfig::default();
    assert!(manual_add_log(&silent, 9, "link", 7, &["a.png".to_string()], 0).is_none());
    let guild = GuildConfig { log_channel_id: 5, ..GuildConfig::default() };
    let names: Vec<String> = (0..12).map(|i| format!("ref_{i}.png")).collect();
    let log = manual_add_log(&guild, 9, "https://discord/x", 7, &names, 2).unwrap();
    assert_eq!(log.embeds.len(), 10);
    assert_eq!(log.rows.len(), 5);
    let first = &log.embeds[0];
    assert_eq!(first.title.as_deref(), Some("➕ Scam reference added manually"));
    assert_eq!(first.colour, (88, 101, 242));
    assert_eq!(first.attachment, "ref_0.png");
    assert!(first.timestamp);
    let field = |name: &str, value: &str, inline| EmbedField {
        name: name.to_string(),
        value: value.to_string(),
        inline,
    };
    assert_eq!(
        first.fields,
        vec![
            field("Added by", "<@9>", true),
            field("From", "https://discord/x by <@7>", true),
            field(
                "Retro-scan",
                "Retro-scan: 2 recent post(s) matched and were handled per each server's settings.",
                false
            ),
        ]
    );
    assert_eq!(log.embeds[1].title, None);
    assert!(log.embeds[1].fields.is_empty());
    assert_eq!(log.rows[4].buttons[0].custom_id, "antiscam:rmref:0:ref_4.png");
}

#[test]
fn embeds_are_pointed_at_their_files() {
    let files = [
        AttachedFile { filename: "a".into(), url: "u1".into(), proxy_url: "p1".into() },
        AttachedFile { filename: "b".into(), url: "u2".into(), proxy_url: "p2".into() },
    ];
    assert_eq!(attached_image("p2", &files), Some("b".to_string()));
    assert_eq!(attached_image("u1", &files), Some("a".to_string()));
    assert_eq!(attached_image("u3", &files), None);
}

#[test]
fn stored_names_are_safe() {
    let name = reference_name(0xabc, &extension_of("../../evil.j/../pg"));
    assert_eq!(name, "ref_abc.png");
    assert!(is_safe_filename(&name));
}

#[test]
fn long_texts_are_cut() {
    assert_eq!(truncate("abcdef", 6), "abcdef");
    assert_eq!(truncate("abcdef", 5), "abcd…");
    assert_eq!(truncate("", 0), "");
    assert_eq!(truncate("éééé", 2), "é…");
}
