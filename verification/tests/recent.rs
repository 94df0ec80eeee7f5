use discord_anti_scam_bot::hashstore::{hash_image, ImageVariants};
use discord_anti_scam_bot::recent::{message_time, Post, RecentMedia};

const SECOND: u128 = 1_000_000_000;

fn post(message: u64, author: u64) -> Post {
    Post { guild_id: 1, channel_id: message, message_id: message, author_id: author }
}

/// An image with a pattern of its own for each seed.
fn hash(seed: u64) -> ImageVariants {
    let mut state = seed.wrapping_mul(2685821657736338717).wrapping_add(1);
    let mut img = image::RgbImage::new(48, 48);
    for p in img.pixels_mut() {
        state ^= state << 13;
        state ^= state >> 7;
        state ^= state << 17;
        let v = (state & 0xff) as u8;
        *p = image::Rgb([v, v, v]);
    }
    hash_image(&image::DynamicImage::ImageRgb8(img)).unwrap()
}

#[test]
fn finds_recent_posts_of_a_newly_added_reference_once() {
    let mut recent = RecentMedia::new(60 * SECOND, 100);

    recent.record(post(1, 10), hash(3), 0);
    recent.record(post(2, 11), hash(4), 0);
    recent.record(post(3, 10), hash(3), 0);

    let reference = hash(3);
    let mut matched: Vec<u64> =
        recent.take_matches(&reference, 18, 0).iter().map(|(p, _)| p.message_id).collect();
    matched.sort();
    assert_eq!(matched, vec![1, 3]);

    // They are taken out: a second search does not act on them again.
    assert!(recent.take_matches(&reference, 18, 0).is_empty());
}

#[test]
fn forgotten_posts_are_not_retro_matched() {
    let mut recent = RecentMedia::new(60 * SECOND, 100);
    recent.record(post(1, 10), hash(3), 0);
    recent.record(post(2, 10), hash(3), 0);

    recent.forget(&[1]);

    let matched = recent.take_matches(&hash(3), 18, 0);
    assert_eq!(matched.iter().map(|(p, _)| p.message_id).collect::<Vec<_>>(), vec![2]);
}

#[test]
fn author_window_only_returns_that_author_in_that_guild_and_time_range() {
    let mut recent = RecentMedia::new(3600 * SECOND, 100);
    // The id of a message at a time: message times come from the id.
    let at = |secs: u64, n: u64| ((secs * 1000 - 1_420_070_400_000) << 22) + n;
    let t = 1_790_000_000;
    let mk = |id: u64, guild: u64, author: u64| Post {
        guild_id: guild,
        channel_id: 1,
        message_id: id,
        author_id: author,
    };

    recent.record(mk(at(t - 20 * 60, 1), 1, 10), hash(4), 0); // in window
    recent.record(mk(at(t + 10 * 60, 2), 1, 10), hash(4), 0); // in window (after)
    recent.record(mk(at(t - 45 * 60, 3), 1, 10), hash(4), 0); // too early
    recent.record(mk(at(t, 4), 1, 11), hash(4), 0); // other author
    recent.record(mk(at(t, 5), 2, 10), hash(4), 0); // other guild

    let found = recent.author_window(1, 10, at(t, 0), 30 * 60, 0);
    let mut ids: Vec<u64> = found.iter().map(|(p, _)| p.message_id & 0xfff).collect();
    ids.sort();
    assert_eq!(ids, vec![1, 2]);
    // A window that no signed number holds finds nothing.
    assert!(recent.author_window(1, 10, at(t, 0), u64::MAX, 0).is_empty());
    // The edges belong to the window.
    assert_eq!(recent.author_window(1, 10, at(t, 0), 20 * 60, 0).len(), 2);
    assert_eq!(recent.author_window(1, 10, at(t, 0), 20 * 60 - 1, 0).len(), 1);
}

#[test]
fn is_bounded_by_count() {
    let mut recent = RecentMedia::new(60 * SECOND, 2);
    for i in 1..=3 {
        recent.record(post(i, 10), hash(3), 0);
    }
    let mut matched: Vec<u64> =
        recent.take_matches(&hash(3), 18, 0).iter().map(|(p, _)| p.message_id).collect();
    matched.sort();
    assert_eq!(matched, vec![2, 3], "the oldest entry should have been evicted");
}

#[test]
fn is_bounded_by_age() {
    let mut recent = RecentMedia::new(60 * SECOND, 100);
    recent.record(post(1, 10), hash(3), 0);
    recent.record(post(2, 10), hash(3), SECOND);
    let matched = recent.take_matches(&hash(3), 18, 61 * SECOND);
    assert_eq!(matched.iter().map(|(p, _)| p.message_id).collect::<Vec<_>>(), vec![2]);
}

#[test]
fn an_entry_of_exactly_the_greatest_age_is_kept() {
    let mut recent = RecentMedia::new(60 * SECOND, 100);
    recent.record(post(1, 10), hash(3), 0);
    assert_eq!(recent.take_matches(&hash(3), 18, 60 * SECOND).len(), 1);
}

#[test]
fn nothing_is_remembered_without_room_or_time() {
    let mut none = RecentMedia::new(60 * SECOND, 0);
    none.record(post(1, 10), hash(3), 0);
    assert!(none.take_matches(&hash(3), 18, 0).is_empty());
    let mut never = RecentMedia::new(0, 10);
    never.record(post(1, 10), hash(3), 0);
    assert!(never.take_matches(&hash(3), 18, 0).is_empty());
}

#[test]
fn a_message_with_two_matching_images_is_named_once() {
    let mut recent = RecentMedia::new(60 * SECOND, 100);
    recent.record(post(1, 10), hash(3), 0);
    recent.record(post(1, 10), hash(3), 0);
    let matched = recent.take_matches(&hash(3), 18, 0);
    assert_eq!(matched, vec![(post(1, 10), 0)]);
    assert!(recent.take_matches(&hash(3), 18, 0).is_empty());
}

#[test]
fn message_times_come_from_the_id() {
    assert_eq!(message_time(175928847299117063), 1462015105);
    assert_eq!(message_time(0), 1420070400);
}
