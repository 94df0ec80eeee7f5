use std::io::Cursor;

use discord_anti_scam_bot::config::{
    Action, BotConfig, Config, DetectionConfig, FloodConfig, GuildConfig, LinksConfig,
    ModerationConfig, OcrConfig, StorageConfig,
};
use discord_anti_scam_bot::embeds::EmbedField;
use discord_anti_scam_bot::flood::FloodHit;
use discord_anti_scam_bot::handler::{
    action_taken, action_text, after_flood, after_match, after_text, author_is_exempt,
    collect_plan, delete_targets, detection_log, evaluate_image, handled_messages,
    is_image_attachment, on_detection, route, route_interaction, sanction_of, sanction_reason,
    sanitize_filename, scan_plan, scan_step, sweep_interval, timeout_until, AttachmentFacts,
    DetectionReason, InteractionKind, InteractionRoute, MessageFacts, NextCheck, Route, Sanction,
    SanctionOutcome, ScanItem, ScanPlan, LINKED_EXTENSION,
};
use discord_anti_scam_bot::hashstore::{AddError, MatchResult, ReferenceStore};
use discord_anti_scam_bot::linkimage::LinkImageFetcher;
use discord_anti_scam_bot::ocr::OcrMatch;
use discord_anti_scam_bot::recent::{Post, RecentMedia};
use discord_anti_scam_bot::retro::{add_reference, group_matches, retro_reason};
use discord_anti_scam_bot::sweep::{sweep_author, sweep_window};

const SECOND: u128 = 1_000_000_000;

fn config() -> Config {
    Config {
        bot: BotConfig { prefix: "!scam".to_string(), log_channel_id: 0, mod_role_ids: vec![] },
        moderation: ModerationConfig {
            action: Action::DeleteTimeout,
            timeout_minutes: 60,
            exempt_role_ids: vec![],
            exempt_channel_ids: vec![],
        },
        detection: DetectionConfig {
            reference_dir: "reference".to_string(),
            match_threshold: 18,
            retro_scan_minutes: 15,
        },
        flood: FloodConfig {
            enabled: true,
            min_channels: 3,
            window_seconds: 60,
            same_image_threshold: 6,
        },
        links: LinksConfig { enabled: true, allowed_hosts: vec!["imgur.com".to_string()] },
        ocr: OcrConfig::default(),
        storage: StorageConfig { database_path: "data/bot.sqlite3".to_string() },
    }
}

/// An encoded image with a pattern of its own for each seed.
fn image_bytes(seed: u64) -> Vec<u8> {
    let mut state = seed.wrapping_mul(2685821657736338717).wrapping_add(1);
    let mut img = image::RgbImage::new(64, 64);
    for p in img.pixels_mut() {
        state ^= state << 13;
        state ^= state >> 7;
        state ^= state << 17;
        let v = (state & 0xff) as u8;
        *p = image::Rgb([v, v, v]);
    }
    let mut bytes = Vec::new();
    image::DynamicImage::ImageRgb8(img)
        .write_to(&mut Cursor::new(&mut bytes), image::ImageFormat::Png)
        .unwrap();
    bytes
}

fn post(guild: u64, channel: u64, message: u64, author: u64) -> Post {
    Post { guild_id: guild, channel_id: channel, message_id: message, author_id: author }
}

fn message(content: &str, attachments: &[usize]) -> MessageFacts {
    MessageFacts {
        in_server: true,
        author_is_bot: false,
        content: content.to_string(),
        channel_id: 5,
        attachments: attachments.to_vec(),
    }
}

#[test]
fn messages_are_routed() {
    let cfg = config();
    let guild = GuildConfig::default();
    assert_eq!(route(&message("!scam list", &[0]), &cfg, &guild), Route::Command(" list".to_string()));
    assert_eq!(route(&message("hello", &[0]), &cfg, &guild), Route::Scan);
    let outside = MessageFacts { in_server: false, ..message("!scam list", &[1]) };
    assert_eq!(route(&outside, &cfg, &guild), Route::Ignore);
    let bot = MessageFacts { author_is_bot: true, ..message("!scam list", &[1]) };
    assert_eq!(route(&bot, &cfg, &guild), Route::Ignore);
    let mut no_links = config();
    no_links.links.enabled = false;
    assert_eq!(route(&message("hello", &[0, 0]), &no_links, &guild), Route::Ignore);
    assert_eq!(route(&message("hello", &[0, 2]), &no_links, &guild), Route::Scan);
    let exempt = GuildConfig { exempt_channel_ids: vec![5], ..GuildConfig::default() };
    assert_eq!(route(&message("hello", &[1]), &cfg, &exempt), Route::Ignore);
    // A command is a command in an exempt channel too.
    assert_eq!(route(&message("!scam", &[]), &cfg, &exempt), Route::Command(String::new()));
}

#[test]
fn exempt_roles_are_passed_over() {
    let guild = GuildConfig { exempt_role_ids: vec![8], ..GuildConfig::default() };
    assert!(author_is_exempt(&guild, Some(&vec![7, 8])));
    assert!(!author_is_exempt(&guild, Some(&vec![7])));
    assert!(!author_is_exempt(&guild, None));
}

#[test]
fn images_are_told_by_type_then_by_name() {
    assert!(is_image_attachment(Some("image/png"), "x.txt"));
    assert!(!is_image_attachment(Some("text/plain"), "x.png"));
    for name in ["a.PNG", "a.jpg", "a.jpeg", "a.webp", "a.gif", "a.bmp"] {
        assert!(is_image_attachment(None, name), "{name}");
    }
    assert!(!is_image_attachment(None, "a.tiff"));
}

fn file(filename: &str, content_type: Option<&str>, size: u32) -> AttachmentFacts {
    AttachmentFacts {
        filename: filename.to_string(),
        content_type: content_type.map(|c| c.to_string()),
        size,
    }
}

#[test]
fn the_images_of_a_message_are_scanned_in_order() {
    let links = LinkImageFetcher::new(&["imgur.com".to_string()]);
    let files = [
        file("notes.txt", Some("text/plain"), 1),
        file("a.png", None, 15 * 1024 * 1024 + 1),
        file("shot", Some("image/jpeg"), 2),
    ];
    let texts =
        ["see https://imgur.com/1".to_string(), "https://imgur.com/1 https://evil.tld/2".to_string()];
    let plan = scan_plan(&files, &texts, true, &links);
    assert_eq!(plan.files, vec![1, 2]);
    assert_eq!(plan.urls, vec!["https://imgur.com/1", "https://imgur.com/1"]);
    let plan = scan_plan(&files, &texts, false, &links);
    assert_eq!(plan.files, vec![1, 2]);
    assert!(plan.urls.is_empty());
}

#[test]
fn the_first_detection_ends_a_message() {
    let plan = ScanPlan { files: vec![1, 4], urls: vec!["u".to_string(), "v".to_string()] };
    let items = [ScanItem::File(1), ScanItem::File(4), ScanItem::Link(0), ScanItem::Link(1)];
    for (done, item) in items.iter().enumerate() {
        assert_eq!(scan_step(&plan, done, false), Some(*item));
        assert_eq!(scan_step(&plan, done, true), None);
    }
    assert_eq!(scan_step(&plan, 4, false), None);
    assert_eq!(scan_step(&plan, 4, true), None);

    let detected = [false, false, true, true];
    let mut seen = Vec::new();
    let mut last = false;
    while let Some(item) = scan_step(&plan, seen.len(), last) {
        last = detected[seen.len()];
        seen.push(item);
    }
    assert_eq!(seen, items[..3]);
    assert_eq!(LINKED_EXTENSION, "png");
}

#[test]
fn only_images_within_the_limit_are_collected() {
    let links = LinkImageFetcher::new(&["imgur.com".to_string()]);
    let files = [
        file("a.png", None, 15 * 1024 * 1024 + 1),
        file("b.JPG", None, 15 * 1024 * 1024),
        file("c.txt", None, 1),
        file("shot", Some("image/jpeg"), 2),
    ];
    let texts = ["https://imgur.com/1".to_string()];
    let plan = collect_plan(&files, &texts, true, &links);
    assert_eq!(plan.files, vec![(1, "JPG".to_string()), (3, "png".to_string())]);
    assert_eq!(plan.urls, vec!["https://imgur.com/1"]);
    assert!(collect_plan(&files, &texts, false, &links).urls.is_empty());
}

#[test]
fn evidence_has_a_plain_name() {
    assert_eq!(sanitize_filename("shot 1/é.png"), "shot_1__.png");
    assert_eq!(sanitize_filename("https://imgur.com/a?b"), "https___imgur.com_a_b");
    assert_eq!(sanitize_filename("ok_A-9.jpg"), "ok_A-9.jpg");
    assert_eq!(sanitize_filename(""), "evidence.png");
}

fn found(next: NextCheck) -> Option<(DetectionReason, Vec<(u64, u64)>)> {
    match next {
        NextCheck::Detected { reason, others } => Some((reason, others)),
        _ => None,
    }
}

#[test]
fn checks_follow_one_another() {
    let best = |distance| Some(MatchResult { filename: "a.png".to_string(), distance });
    assert_eq!(
        found(after_match(best(17), 18, true, true)),
        Some((
            DetectionReason::KnownReference { reference: "a.png".to_string(), distance: 17 },
            vec![]
        ))
    );
    assert!(matches!(after_match(best(18), 18, true, true), NextCheck::Flood));
    assert!(matches!(after_match(best(19), 18, true, true), NextCheck::Flood));
    assert!(matches!(after_match(best(0), 0, false, true), NextCheck::Text));
    assert!(matches!(after_match(None, 18, false, true), NextCheck::Text));
    assert!(matches!(after_match(None, 18, false, false), NextCheck::Remember));
    assert_eq!(
        found(after_flood(Some(FloodHit { channels: 3, earlier_messages: vec![(1, 2)] }), true)),
        Some((DetectionReason::CrossChannelFlood { channels: 3 }, vec![(1, 2)]))
    );
    assert!(matches!(after_flood(None, true), NextCheck::Text));
    assert!(matches!(after_flood(None, false), NextCheck::Remember));
    assert_eq!(
        found(after_text(Some(OcrMatch { score: 7, matched: vec!["casino".to_string()] }))),
        Some((
            DetectionReason::ScamText { score: 7, matched: vec!["casino".to_string()] },
            vec![]
        ))
    );
    assert!(matches!(after_text(None), NextCheck::Remember));
}

#[test]
fn an_added_image_is_detected_when_it_is_posted_again() {
    let mut store = ReferenceStore::new();
    let mut recent = RecentMedia::new(60 * SECOND, 10);
    let bytes = image_bytes(1);
    let (_, next) = evaluate_image(&store, &bytes, &config(), true).unwrap();
    assert!(matches!(next, NextCheck::Flood));
    add_reference(&mut store, &mut recent, "ref_1.png", &bytes, 18, 0).unwrap();
    let (_, next) = evaluate_image(&store, &bytes, &config(), true).unwrap();
    assert_eq!(
        found(next),
        Some((
            DetectionReason::KnownReference { reference: "ref_1.png".to_string(), distance: 0 },
            vec![]
        ))
    );
    assert!(evaluate_image(&store, b"no image", &config(), true).is_none());
}

#[test]
fn adding_a_reference_catches_recent_posts() {
    let mut store = ReferenceStore::new();
    let mut recent = RecentMedia::new(60 * SECOND, 10);
    let bytes = image_bytes(1);
    let other = image_bytes(2);
    let hash = |b: &[u8]| ReferenceStore::new().hash_bytes(b).unwrap();
    recent.record(post(1, 11, 101, 7), hash(&bytes), 0);
    recent.record(post(1, 12, 102, 7), hash(&bytes), 0);
    recent.record(post(2, 13, 103, 7), hash(&bytes), 0);
    recent.record(post(1, 14, 104, 8), hash(&other), 0);
    let added = add_reference(&mut store, &mut recent, "ref_1.png", &bytes, 18, 0).unwrap();
    assert_eq!(added.retro_matches, 3);
    assert_eq!(added.groups.len(), 2);
    assert_eq!(added.groups[0].post, post(1, 11, 101, 7));
    assert_eq!(added.groups[0].others, vec![(12, 102)]);
    assert_eq!(added.groups[0].distance, 0);
    assert_eq!(added.groups[1].post, post(2, 13, 103, 7));
    assert_eq!(
        retro_reason(&added.groups[0], "ref_1.png"),
        DetectionReason::RetroMatch {
            reference: "ref_1.png".to_string(),
            distance: 0,
            messages: 2
        }
    );
    // They are taken: adding the image again catches nothing.
    let again = add_reference(&mut store, &mut recent, "ref_2.png", &bytes, 18, 0).unwrap();
    assert_eq!(again.retro_matches, 0);
    assert!(again.groups.is_empty());
    assert_eq!(store.len(), 2);
}

#[test]
fn what_cannot_be_added_changes_nothing() {
    let mut store = ReferenceStore::new();
    let mut recent = RecentMedia::new(60 * SECOND, 10);
    let bytes = image_bytes(1);
    recent.record(post(1, 1, 1, 1), store.hash_bytes(&bytes).unwrap(), 0);
    assert!(matches!(
        add_reference(&mut store, &mut recent, "../x.png", &bytes, 18, 0),
        Err(AddError::InvalidFilename)
    ));
    assert!(matches!(
        add_reference(&mut store, &mut recent, "x.png", b"no image", 18, 0),
        Err(AddError::Image(_))
    ));
    assert_eq!(store.len(), 0);
    let hash = store.hash_bytes(&bytes).unwrap();
    assert_eq!(recent.take_matches(&hash, 18, 0).len(), 1);
}

#[test]
fn matches_are_grouped_by_server_and_author() {
    let groups = group_matches(&[
        (post(1, 1, 10, 7), 5),
        (post(1, 2, 20, 8), 6),
        (post(1, 3, 30, 7), 2),
        (post(2, 4, 40, 7), 9),
        (post(1, 5, 50, 7), 4),
    ]);
    assert_eq!(groups.len(), 3);
    assert_eq!(groups[0].post.message_id, 10);
    assert_eq!(groups[0].others, vec![(3, 30), (5, 50)]);
    assert_eq!(groups[0].distance, 2);
    assert_eq!((groups[1].post.message_id, groups[1].distance), (20, 6));
    assert_eq!((groups[2].post.message_id, groups[2].distance), (40, 9));
}

#[test]
fn an_authors_other_posts_are_swept() {
    let mut store = ReferenceStore::new();
    let known = image_bytes(1);
    let flagged = image_bytes(2);
    store.add_from_bytes("known.png", &known).unwrap();
    let hash = |b: &[u8]| ReferenceStore::new().hash_bytes(b).unwrap();
    let entries = vec![
        (post(1, 1, 100, 7), hash(&flagged)),
        (post(1, 2, 200, 7), hash(&known)),
        (post(1, 3, 300, 7), hash(&flagged)),
        (post(1, 3, 300, 7), hash(&flagged)),
        (post(1, 4, 400, 7), hash(&image_bytes(3))),
        (post(1, 5, 500, 7), hash(&image_bytes(4))),
        (post(1, 5, 500, 7), hash(&known)),
        (post(1, 6, 600, 7), hash(&known)),
    ];
    let plan =
        sweep_author(&store, &entries, &entries[0].0, &[(6, 600)], &Some(hash(&flagged)), 18);
    assert_eq!(plan.matched, vec![(2, 200), (3, 300), (5, 500)]);
    assert_eq!(plan.to_read, vec![(4, 400)]);
    assert_eq!(plan.finish(&[true]), vec![(2, 200), (3, 300), (5, 500), (4, 400)]);
    let plan = sweep_author(&store, &entries, &entries[0].0, &[], &None, 18);
    assert_eq!(plan.matched, vec![(2, 200), (5, 500), (6, 600)]);
    assert_eq!(plan.to_read, vec![(3, 300), (4, 400)]);
    // Without a reader nothing is read.
    assert_eq!(plan.finish(&[]), vec![(2, 200), (5, 500), (6, 600)]);
}

#[test]
fn only_so_many_posts_are_read_again() {
    let store = ReferenceStore::new();
    let hash = store.hash_bytes(&image_bytes(1)).unwrap();
    let entries: Vec<_> = (1..=12).map(|i| (post(1, i, i * 10, 7), hash.clone())).collect();
    let plan = sweep_author(&store, &entries, &post(1, 1, 999, 7), &[], &None, 18);
    assert!(plan.matched.is_empty());
    assert_eq!(plan.to_read.len(), 10);
    assert_eq!(plan.to_read[9], (10, 100));
}

#[test]
fn windows_in_seconds() {
    assert_eq!(sweep_window(0), None);
    assert_eq!(sweep_window(15), Some(900));
    assert_eq!(sweep_interval(10), 120);
    assert_eq!(sweep_interval(60), 120);
    assert_eq!(sweep_interval(100), 200);
}

#[test]
fn handled_and_deleted_messages() {
    let flagged = post(1, 5, 50, 7);
    let others = [(6, 60), (7, 70)];
    assert_eq!(handled_messages(&flagged, &others), vec![50, 60, 70]);
    assert_eq!(
        delete_targets(Action::DeleteOnly, &flagged, &others),
        vec![(5, 50), (6, 60), (7, 70)]
    );
    assert!(delete_targets(Action::LogOnly, &flagged, &others).is_empty());
    let guild = GuildConfig { action: Action::DeleteKick, ..GuildConfig::default() };
    let plan = on_detection(&guild, &flagged, &[(6, 60)], &[(7, 70)]);
    assert_eq!(plan.handled, vec![50, 60, 70]);
    assert_eq!(plan.targets, vec![(5, 50), (6, 60), (7, 70)]);
    assert_eq!(plan.sanction, Some(Sanction::Kick));
    let quiet = GuildConfig { action: Action::LogOnly, ..GuildConfig::default() };
    let plan = on_detection(&quiet, &flagged, &others, &[]);
    assert_eq!(plan.handled, vec![50, 60, 70]);
    assert!(plan.targets.is_empty());
    assert_eq!(plan.sanction, None);
}

#[test]
fn actions_in_words() {
    assert_eq!(action_text(Action::LogOnly, 0, 3), "No action (log-only mode)");
    assert_eq!(action_text(Action::DeleteOnly, 1, 0), "Message deleted");
    assert_eq!(
        action_text(Action::DeleteBan, 4, 2),
        "4 messages deleted (incl. 2 other post(s) by this author found around that time)"
    );
    assert_eq!(action_text(Action::DeleteOnly, 0, 0), "No action (log-only mode)");
    let taken = |sanction| action_taken(Action::DeleteBan, 1, 0, &SanctionOutcome::Taken(sanction));
    assert_eq!(
        taken(Sanction::Timeout { minutes: 60 }),
        "Message deleted + timeout 60 min"
    );
    assert_eq!(taken(Sanction::Kick), "Message deleted + member kicked");
    assert_eq!(taken(Sanction::Ban), "Message deleted + member banned");
    assert_eq!(
        action_taken(Action::DeleteBan, 0, 0, &SanctionOutcome::Failed("no right".to_string())),
        "No action (log-only mode) (sanction failed: no right)"
    );
    assert_eq!(
        action_taken(Action::DeleteKick, 2, 0, &SanctionOutcome::NotTaken),
        "2 messages deleted"
    );
    assert_eq!(
        sanction_reason(),
        "Account likely compromised: scam automatically detected"
    );
}

#[test]
fn sanctions_follow_the_settings() {
    let of = |action| {
        sanction_of(&GuildConfig { action, timeout_minutes: 5, ..GuildConfig::default() })
    };
    assert_eq!(of(Action::LogOnly), None);
    assert_eq!(of(Action::DeleteOnly), None);
    assert_eq!(of(Action::DeleteTimeout), Some(Sanction::Timeout { minutes: 5 }));
    assert_eq!(of(Action::DeleteKick), Some(Sanction::Kick));
    assert_eq!(of(Action::DeleteBan), Some(Sanction::Ban));
    assert_eq!(timeout_until(1_000, 5), Some(1_300));
    assert_eq!(timeout_until(1_000, u64::MAX), Some(940));
    assert_eq!(timeout_until(1_000, i64::MAX as u64), None);
}

#[test]
fn detections_in_words() {
    let known = DetectionReason::KnownReference { reference: "a.png".to_string(), distance: 3 };
    assert_eq!(known.title(), "🚨 Image matches a known scam");
    assert_eq!(known.description(), "Matches reference `a.png` (hash distance: 3).");
    let flood = DetectionReason::CrossChannelFlood { channels: 4 };
    assert_eq!(flood.title(), "🚨 Same image posted across multiple channels");
    assert_eq!(
        flood.description(),
        "The same image was posted in 4 different channels in a short time — a typical sign of a \
         compromised account auto-spamming."
    );
    let text = DetectionReason::ScamText {
        score: 9,
        matched: (1..=10).map(|i| format!("p{i}")).collect(),
    };
    assert_eq!(text.title(), "🚨 Image text matches a known scam pattern");
    assert_eq!(
        text.description(),
        "Text read from the image (OCR) scored 9. Matched: `p1`, `p2`, `p3`, `p4`, `p5`, `p6`, \
         `p7`, `p8` (+2 more)."
    );
    let retro = DetectionReason::RetroMatch {
        reference: "a.png".to_string(),
        distance: 1,
        messages: 2,
    };
    assert_eq!(retro.title(), "🚨 Recent post matches a newly added scam reference");
    assert_eq!(
        retro.description(),
        "2 post(s) from the last few minutes match `a.png` (hash distance: 1), added as a \
         reference after they were posted."
    );
    assert_eq!(retro.review_buttons(7)[0].buttons[0].custom_id, "antiscam:rmref:7:a.png");
    assert_eq!(known.review_buttons(7), retro.review_buttons(7));
    assert_eq!(flood.review_buttons(7)[0].buttons[0].custom_id, "antiscam:add:7");
    assert_eq!(text.review_buttons(7), flood.review_buttons(7));
}

#[test]
fn detections_are_logged() {
    let reason = DetectionReason::CrossChannelFlood { channels: 3 };
    let flagged = post(1, 5, 50, 7);
    let silent = GuildConfig::default();
    assert!(detection_log(&silent, &flagged, "a.png", &reason, "x").is_none());
    let guild = GuildConfig { log_channel_id: 9, ..GuildConfig::default() };
    let (embed, rows) = detection_log(&guild, &flagged, "a b.png", &reason, "Message deleted").unwrap();
    assert_eq!(embed.title.as_deref(), Some(reason.title()));
    assert_eq!(embed.description, Some(reason.description()));
    assert_eq!(embed.colour, (220, 50, 47));
    assert_eq!(embed.attachment, "a_b.png");
    assert!(embed.timestamp);
    let field = |name: &str, value: &str, inline| EmbedField {
        name: name.to_string(),
        value: value.to_string(),
        inline,
    };
    assert_eq!(
        embed.fields,
        vec![
            field("Author", "<@7> (`7`)", true),
            field("Channel", "<#5>", true),
            field("Action taken", "Message deleted", false),
        ]
    );
    assert_eq!(rows, reason.review_buttons(7));
}

#[test]
fn interactions_are_routed() {
    let go = route_interaction;
    assert_eq!(go(InteractionKind::Command, "config"), InteractionRoute::Config);
    assert_eq!(
        go(InteractionKind::Command, "Add to scam references"),
        InteractionRoute::AddReferenceMenu
    );
    assert_eq!(go(InteractionKind::Command, "other"), InteractionRoute::Ignore);
    assert_eq!(go(InteractionKind::Autocomplete, "config"), InteractionRoute::ConfigAutocomplete);
    assert_eq!(
        go(InteractionKind::Autocomplete, "Add to scam references"),
        InteractionRoute::Ignore
    );
    assert_eq!(go(InteractionKind::Component, "antiscam:add:1"), InteractionRoute::ReviewButton);
    assert_eq!(go(InteractionKind::Component, "x"), InteractionRoute::Ignore);
    assert_eq!(go(InteractionKind::Other, "config"), InteractionRoute::Ignore);
}
