use discord_anti_scam_bot::flood::{row_of, FloodDetector, FloodHit, FloodRow};
use discord_anti_scam_bot::hashstore::{hash_image, ImageHash};

const NOW: i64 = 1_700_000_000;

fn solid_color_hash(value: u8) -> ImageHash {
    let img = image::RgbImage::from_pixel(16, 16, image::Rgb([value, value, value]));
    hash_image(&image::DynamicImage::ImageRgb8(img)).unwrap().primary
}

/// A solid color hashes the same whatever the color, so different images need
/// variation inside: noise from a seed.
fn noise_hash(seed: u64) -> ImageHash {
    let mut state = seed.wrapping_mul(2685821657736338717).wrapping_add(1);
    let mut img = image::RgbImage::new(16, 16);
    for p in img.pixels_mut() {
        state ^= state << 13;
        state ^= state >> 7;
        state ^= state << 17;
        let v = (state & 0xff) as u8;
        *p = image::Rgb([v, v.wrapping_add(64), v.wrapping_add(128)]);
    }
    hash_image(&image::DynamicImage::ImageRgb8(img)).unwrap().primary
}

fn row(id: i64, guild: &str, user: &str, channel: &str, message: &str, hash: &str, ts: i64) -> FloodRow {
    FloodRow {
        id,
        guild_id: guild.to_string(),
        user_id: user.to_string(),
        channel_id: channel.to_string(),
        message_id: message.to_string(),
        hash: hash.to_string(),
        ts,
    }
}

#[test]
fn flags_the_same_image_across_enough_channels() {
    let flood = FloodDetector::new(60, 6, 3);
    let mut table = Vec::new();
    let hash = solid_color_hash(128);

    assert!(flood.record_and_check(&mut table, 1, 1, 1, 100, &hash, NOW).is_none());
    assert!(flood.record_and_check(&mut table, 1, 1, 2, 200, &hash, NOW).is_none());
    let result = flood.record_and_check(&mut table, 1, 1, 3, 300, &hash, NOW);
    assert_eq!(result.map(|h| h.channels), Some(3));
}

#[test]
fn ignores_different_images_across_channels() {
    let flood = FloodDetector::new(60, 6, 3);
    let mut table = Vec::new();

    assert!(flood.record_and_check(&mut table, 1, 1, 1, 100, &noise_hash(1), NOW).is_none());
    assert!(flood.record_and_check(&mut table, 1, 1, 2, 200, &noise_hash(2), NOW).is_none());
    assert!(flood.record_and_check(&mut table, 1, 1, 3, 300, &noise_hash(3), NOW).is_none());
}

#[test]
fn returns_the_earlier_posts_of_a_flood_once() {
    let flood = FloodDetector::new(60, 6, 3);
    let mut table = Vec::new();
    let hash = solid_color_hash(128);

    flood.record_and_check(&mut table, 1, 1, 1, 100, &hash, NOW);
    flood.record_and_check(&mut table, 1, 1, 2, 200, &hash, NOW);
    let hit = flood
        .record_and_check(&mut table, 1, 1, 3, 300, &hash, NOW)
        .expect("flood detected");
    let mut earlier = hit.earlier_messages;
    earlier.sort();
    assert_eq!(earlier, vec![(1, 100), (2, 200)]);

    let hit = flood
        .record_and_check(&mut table, 1, 1, 4, 400, &hash, NOW)
        .expect("flood still detected");
    assert_eq!(hit.channels, 4);
    assert!(hit.earlier_messages.is_empty());
}

#[test]
fn does_not_flag_across_different_guilds() {
    let flood = FloodDetector::new(60, 6, 3);
    let mut table = Vec::new();
    let hash = solid_color_hash(128);

    assert!(flood.record_and_check(&mut table, 1, 1, 1, 100, &hash, NOW).is_none());
    assert!(flood.record_and_check(&mut table, 1, 1, 2, 200, &hash, NOW).is_none());
    // The third post is in another server: it does not complete the flood.
    assert!(flood.record_and_check(&mut table, 2, 1, 3, 300, &hash, NOW).is_none());
}

#[test]
fn survives_a_restart() {
    let hash = solid_color_hash(200);
    let mut table = Vec::new();
    {
        let flood = FloodDetector::new(60, 6, 3);
        flood.record_and_check(&mut table, 1, 42, 1, 100, &hash, NOW);
        flood.record_and_check(&mut table, 1, 42, 2, 200, &hash, NOW);
    }

    // The detector is gone, the stored posts are not.
    let flood = FloodDetector::new(60, 6, 3);
    let result = flood.record_and_check(&mut table, 1, 42, 3, 300, &hash, NOW);
    assert_eq!(
        result.map(|h| h.channels),
        Some(3),
        "flood history should persist across a restart"
    );
}

#[test]
fn opens_a_pre_multi_guild_database() {
    // A row from before servers and messages were stored has neither.
    let mut table = vec![row(1, "", "1", "1", "", "x", 0)];
    let flood = FloodDetector::new(60, 6, 3);
    let result = flood.record_and_check(&mut table, 1, 1, 1, 100, &solid_color_hash(1), NOW);
    assert_eq!(result, None);
    assert_eq!(table.len(), 1);
    assert_eq!(table[0].message_id, "100");
}

#[test]
fn a_row_without_a_readable_hash_does_not_count() {
    let hash = solid_color_hash(7);
    let mut table = vec![row(1, "1", "1", "1", "100", "not base64!", NOW)];
    let flood = FloodDetector::new(60, 6, 2);
    assert_eq!(flood.record_and_check(&mut table, 1, 1, 2, 200, &hash, NOW), None);
    assert_eq!(
        flood.record_and_check(&mut table, 1, 1, 3, 300, &hash, NOW),
        Some(FloodHit { channels: 2, earlier_messages: vec![(2, 200)] })
    );
}

#[test]
fn two_posts_in_one_channel_count_once() {
    let hash = solid_color_hash(7);
    let mut table = Vec::new();
    let flood = FloodDetector::new(60, 6, 2);
    assert_eq!(flood.record_and_check(&mut table, 1, 1, 5, 100, &hash, NOW), None);
    assert_eq!(flood.record_and_check(&mut table, 1, 1, 5, 200, &hash, NOW), None);
    assert_eq!(table.len(), 2);
}

#[test]
fn posts_leave_the_window() {
    let hash = solid_color_hash(7);
    let mut table = Vec::new();
    let flood = FloodDetector::new(60, 6, 2);
    flood.record_and_check(&mut table, 1, 1, 1, 100, &hash, NOW);
    // A minute later the first post still counts; a second after that it does not.
    assert!(flood.record_and_check(&mut table, 1, 1, 2, 200, &hash, NOW + 60).is_some());
    assert_eq!(flood.record_and_check(&mut table, 1, 1, 3, 300, &hash, NOW + 121), None);
    assert_eq!(table.len(), 1);
    assert_eq!(flood.cutoff(NOW), NOW - 60);
}

#[test]
fn sweeping_takes_only_expired_rows() {
    let flood = FloodDetector::new(60, 6, 2);
    let mut table = vec![
        row(1, "1", "1", "1", "1", "x", NOW - 61),
        row(2, "1", "1", "1", "2", "x", NOW - 60),
        row(3, "1", "1", "1", "3", "x", NOW),
    ];
    flood.sweep(&mut table, NOW);
    assert_eq!(table.iter().map(|r| r.id).collect::<Vec<_>>(), vec![2, 3]);
}

#[test]
fn a_window_is_held_with_a_sign() {
    let flood = FloodDetector::new(u64::MAX, 6, 2);
    assert_eq!(flood.cutoff(10), 11);
    assert!(flood.window_fits(10));
    assert!(!flood.window_fits(i64::MAX));
}

#[test]
fn places_that_are_not_numbers_are_not_handed_out() {
    let hash = solid_color_hash(7);
    let stored = hash.to_base64();
    let mut table = vec![
        row(1, "1", "1", "general", "10", &stored, NOW),
        row(2, "1", "1", "2", "0", &stored, NOW),
        row(3, "1", "1", "3", "30", &stored, NOW),
    ];
    let flood = FloodDetector::new(60, 6, 2);
    let hit = flood.record_and_check(&mut table, 1, 1, 4, 40, &hash, NOW).unwrap();
    assert_eq!(hit, FloodHit { channels: 4, earlier_messages: vec![(3, 30)] });
    assert!(table.iter().all(|r| r.message_id.is_empty()));
    assert_eq!(table.iter().map(|r| r.id).collect::<Vec<_>>(), vec![1, 2, 3, 0]);
}

#[test]
fn a_post_is_recorded_as_a_row_of_text() {
    let hash = solid_color_hash(128);
    let new = row_of(1, 2, 3, 400, &hash, NOW);
    assert_eq!((new.id, new.ts), (0, NOW));
    assert_eq!(
        (new.guild_id.as_str(), new.user_id.as_str(), new.channel_id.as_str(), new.message_id.as_str()),
        ("1", "2", "3", "400")
    );
    assert_eq!(new.hash, hash.to_base64());
}

#[test]
fn a_variant_does_not_hand_out_posts_again() {
    let flood = FloodDetector::new(60, 200, 2);
    let mut table = Vec::new();
    let (a, b) = (noise_hash(1), noise_hash(2));
    assert!(flood.record_and_check(&mut table, 1, 1, 1, 100, &a, NOW).is_none());
    let hit = flood.record_and_check(&mut table, 1, 1, 2, 200, &a, NOW).unwrap();
    assert_eq!((hit.channels, hit.earlier_messages), (2, vec![(1, 100)]));
    let hit = flood.record_and_check(&mut table, 1, 1, 3, 300, &b, NOW).unwrap();
    assert_eq!((hit.channels, hit.earlier_messages), (3, vec![]));
    let hit = flood.record_and_check(&mut table, 1, 1, 4, 400, &a, NOW).unwrap();
    assert_eq!((hit.channels, hit.earlier_messages), (4, vec![]));
}

#[test]
fn what_is_no_flood_uses_up_no_post() {
    let flood = FloodDetector::new(60, 6, 3);
    let mut table = Vec::new();
    let hash = solid_color_hash(128);
    assert!(flood.record_and_check(&mut table, 1, 1, 1, 100, &hash, NOW).is_none());
    assert!(flood.record_and_check(&mut table, 1, 1, 2, 200, &hash, NOW).is_none());
    assert!(flood.record_and_check(&mut table, 1, 1, 2, 201, &hash, NOW).is_none());
    let hit = flood.record_and_check(&mut table, 1, 1, 3, 300, &hash, NOW + 60).unwrap();
    assert_eq!((hit.channels, hit.earlier_messages), (3, vec![(1, 100), (2, 200), (2, 201)]));
}

#[test]
fn a_stored_hash_of_another_length_counts() {
    let flood = FloodDetector::new(60, 6, 2);
    let hash = solid_color_hash(128);
    let longer = format!("{}{}", hash.to_base64(), "/".repeat(40));
    let mut table = vec![row(1, "1", "1", "7", "700", &longer, NOW)];
    let hit = flood.record_and_check(&mut table, 1, 1, 8, 800, &hash, NOW).unwrap();
    assert_eq!((hit.channels, hit.earlier_messages), (2, vec![(7, 700)]));
}
