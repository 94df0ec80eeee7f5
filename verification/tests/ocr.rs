use std::io::Cursor;

use discord_anti_scam_bot::config::{OcrConfig, OcrRule};
use discord_anti_scam_bot::hashstore::ImageFault;
use discord_anti_scam_bot::ocr::{
    default_rules, fold, normalize, prepare_image, scaling, separate_words, OcrMatch, OcrScanner,
    Scaling, ScoreTooLarge,
};

fn scanner() -> OcrScanner {
    OcrScanner::with_rules(&OcrConfig::default(), &default_rules())
}

fn rule(pattern: &str, weight: u32) -> OcrRule {
    OcrRule { pattern: pattern.to_string(), weight }
}

// Excerpts of what text recognition makes of scam screenshots: noise, stray
// Cyrillic look-alikes and all.
const TWEET: &str = "MrBeast @ ©] @MrBeast 56т\nГат pleased to announce the launch of my own cryptocurrency casino linked\n\
    to our recent launch of the Vyro project! To celebrate this big event, | am\ngiving away $3,500 to everyone who registers\n\
    How to claim your reward:\nGo to: sedowin.com\nEnter the special promo code: CASH\n\
    This post will be deleted an hour after publication";
const BONUS_PAGE: &str = "*$ sedowin.com/profile/bonuses\n@ Home $ Profile  Вопизез ¥¢ VIP-Club\nBONUSES\n\
    $ honestly5434.. ‘Activate Code for Bonus\ne Enter the promo code and receive an exclusive rew\nRakeback";
const WITHDRAW_POPUP: &str = "sedowin.com/profile/withdraw\nWithdrawal Success! x\n\
    Your Withdrawal of $3700.00 Was Successfully!\nThe money will be transferred to your specified wallet.";
const PHONE_POPUP: &str = "Home § Profile Bonuses VIP-Club\nВег | VISA\nWithdre\n\
    Your balance = ‘Your Withdrawal of $3700.00 Was Successfully!\n— x The money will be transferred to your specified wallet.";
const RUSSIAN: &str = "< РИА НОВОСТИ\nМеллстрой открыл своё казино ив\nчесть открытия раздаёт 10000\n\
    рублей каждому новому\nпользователю. Бонус можно\nполучить Ha drgn25.casino. После\nрегистрации деньги поступают сразу";

#[test]
fn flags_every_screenshot_of_the_new_scam_wave() {
    let s = scanner();
    for (name, text) in [
        ("tweet", TWEET),
        ("bonus page", BONUS_PAGE),
        ("withdraw popup", WITHDRAW_POPUP),
        ("phone popup", PHONE_POPUP),
        ("russian", RUSSIAN),
    ] {
        let m = s.score(text);
        assert!(m.score >= 6, "{name} should be flagged, got {m:?}");
        assert_eq!(s.check(text), Ok(Some(m)));
    }
}

#[test]
fn does_not_flag_ordinary_screenshots() {
    let s = scanner();
    for text in [
        // A game screenshot that mentions a bonus.
        "Level 12 complete! Daily bonus: +50 coins. Press E to continue",
        // A confirmation of a real exchange.
        "Withdrawal successful. Your withdrawal of 0.5 ETH has been sent to your wallet.",
        // Someone talking about a casino map.
        "gm_casino loaded - 24 players. Type !help for commands",
        "Error: attempt to index a nil value (field 'Player') lua/autorun/server/init.lua:42",
    ] {
        let m = s.score(text);
        assert!(m.score < 6, "{text:?} should not be flagged, got {m:?}");
        assert_eq!(s.check(text), Ok(None));
    }
}

#[test]
fn normalize_folds_case_punctuation_and_cyrillic_lookalikes() {
    assert_eq!(normalize("Гат pleased!!  VIP-Club"), "гat pleased vip club");
    assert_eq!(normalize("ВАМК САВО"), "bamk cabo");
    assert_eq!(normalize("Раздаёт"), normalize("раздает"));
}

#[test]
fn words_are_separated_by_one_space() {
    assert_eq!(normalize("  --A,,b\t\nC--  "), "a b c");
    assert_eq!(normalize("!?"), "");
    assert_eq!(normalize(""), "");
    assert_eq!(normalize("İ"), "i");
    assert_eq!(separate_words(&['a', '.', '.', 'b', ' ']), "a b");
}

#[test]
fn a_separator_parts_the_words_of_two_texts() {
    for sep in [" ", "\n", "!! -"] {
        assert_eq!(normalize(&format!("Casino BONUS{sep}now,")), "casino bonus now");
        assert_eq!(normalize(&format!("--{sep}Now")), "now");
        assert_eq!(normalize(&format!("Now,{sep}")), "now");
        assert_eq!(normalize(&format!("!{sep}?")), "");
    }
}

#[test]
fn cyrillic_small_letters_are_letters() {
    for code in 0x430..=0x45fu32 {
        let c = char::from_u32(code).unwrap();
        assert_eq!(separate_words(&[' ', c, ' ']).chars().count(), 1, "{c}");
    }
}

#[test]
fn what_the_program_writes_is_scored() {
    let scanner = OcrScanner::with_rules(&OcrConfig::default(), &[rule("free casino", 6)]);
    let found = scanner.check_output(b"Free\xff CASINO\n\x0c").unwrap().unwrap();
    assert_eq!((found.score, found.matched), (6, vec!["free casino".to_string()]));
    assert_eq!(scanner.check_output(b"free lunch\n").unwrap(), None);
}

#[test]
fn every_look_alike_is_folded() {
    let pairs = [
        ('а', 'a'), ('в', 'b'), ('е', 'e'), ('ё', 'e'), ('к', 'k'), ('м', 'm'), ('н', 'h'),
        ('о', 'o'), ('р', 'p'), ('с', 'c'), ('т', 't'), ('у', 'y'), ('х', 'x'), ('і', 'i'),
    ];
    for (cyrillic, latin) in pairs {
        assert_eq!(fold(cyrillic), latin);
    }
    assert_eq!(fold('г'), 'г');
    assert_eq!(fold('z'), 'z');
}

#[test]
fn a_phrase_counts_once() {
    let s = OcrScanner::with_rules(
        &OcrConfig::default(),
        &[rule("Bonus!", 2), rule("big bonus", 3), rule("...", 9), rule("wallet", 5)],
    );
    assert_eq!(s.rule_count(), 3);
    assert_eq!(
        s.score("bonus BONUS b-o-n-u-s: big  bonus"),
        OcrMatch { score: 5, matched: vec!["Bonus!".to_string(), "big bonus".to_string()] }
    );
    assert_eq!(s.score_words(" wallet "), OcrMatch { score: 5, matched: vec!["wallet".to_string()] });
    assert_eq!(s.score(""), OcrMatch { score: 0, matched: vec![] });
}

#[test]
fn the_threshold_decides() {
    let cfg = OcrConfig { score_threshold: 3, ..OcrConfig::default() };
    let s = OcrScanner::with_rules(&cfg, &[rule("a", 2), rule("b", 1)]);
    assert_eq!(s.check("a"), Ok(None));
    assert_eq!(
        s.check("a b"),
        Ok(Some(OcrMatch { score: 3, matched: vec!["a".to_string(), "b".to_string()] }))
    );
    let m = OcrMatch { score: 2, matched: vec![] };
    assert_eq!(s.verdict(m), None);
}

#[test]
fn a_score_that_cannot_be_held_is_told_apart() {
    let s = OcrScanner::with_rules(
        &OcrConfig::default(),
        &[rule("a", u32::MAX), rule("b", 1), rule("c", 0)],
    );
    assert_eq!(s.check("a b"), Err(ScoreTooLarge));
    assert_eq!(s.try_score("a b"), None);
    assert_eq!(s.try_score("a c").map(|m| m.score), Some(u32::MAX));
}

#[test]
fn a_scanner_needs_its_switch_and_its_program() {
    let cfg = OcrConfig::default();
    assert!(OcrScanner::new(&cfg, false).is_none());
    let off = OcrConfig { enabled: false, ..OcrConfig::default() };
    assert!(OcrScanner::new(&off, true).is_none());
    let s = OcrScanner::new(&cfg, true).unwrap();
    assert_eq!(s.rule_count(), 27);
    assert_eq!(s.tesseract_path(), "tesseract");
    assert_eq!(s.tesseract_args(), vec!["stdin", "stdout", "-l", "eng+rus"]);
    let own = OcrConfig { rules: vec![rule("x", 1)], ..OcrConfig::default() };
    assert_eq!(OcrScanner::new(&own, true).unwrap().rule_count(), 1);
}

#[test]
fn limits_are_never_zero() {
    let cfg = OcrConfig {
        timeout_seconds: 0,
        max_dimension: 10,
        max_concurrent: 0,
        ..OcrConfig::default()
    };
    let s = OcrScanner::with_rules(&cfg, &[]);
    assert_eq!((s.timeout_seconds(), s.max_dimension(), s.max_concurrent()), (1, 64, 1));
    let s = scanner();
    assert_eq!((s.timeout_seconds(), s.max_dimension(), s.max_concurrent()), (15, 2000, 2));
}

#[test]
fn no_default_rule_is_enough_alone() {
    let rules = default_rules();
    assert_eq!(rules.len(), 27);
    let threshold = OcrConfig::default().score_threshold;
    assert!(rules.iter().all(|r| r.weight < threshold && r.weight > 0));
    assert_eq!((rules[0].pattern.as_str(), rules[0].weight), ("this post will be deleted", 4));
    assert_eq!((rules[26].pattern.as_str(), rules[26].weight), ("рублей", 1));
}

fn png_of(width: u32, height: u32) -> Vec<u8> {
    let img = image::RgbaImage::from_fn(width, height, |x, y| {
        image::Rgba([(x * 3) as u8, (y * 5) as u8, 77, 255])
    });
    let mut bytes = Vec::new();
    image::DynamicImage::ImageRgba8(img)
        .write_to(&mut Cursor::new(&mut bytes), image::ImageFormat::Png)
        .unwrap();
    bytes
}

#[test]
fn images_are_prepared_for_reading() {
    let prepared = prepare_image(&png_of(100, 80), 2000).unwrap().unwrap();
    let img = image::load_from_memory(&prepared).unwrap();
    assert_eq!((img.width(), img.height()), (100, 80));
    assert_eq!(img.color(), image::ColorType::Rgb8);
    assert_eq!(img.to_rgb8().get_pixel(10, 7).0, [30, 35, 77]);

    let shrunk = prepare_image(&png_of(400, 100), 200).unwrap().unwrap();
    let img = image::load_from_memory(&shrunk).unwrap();
    assert_eq!((img.width(), img.height()), (200, 50));

    assert!(prepare_image(&png_of(63, 200), 2000).unwrap().is_none());
    assert!(matches!(prepare_image(b"nothing", 2000), Err(ImageFault::Decode(_))));
}

#[test]
fn sizes_decide_on_scaling() {
    assert_eq!(scaling(63, 64, 100), Scaling::TooSmall);
    assert_eq!(scaling(64, 63, 100), Scaling::TooSmall);
    assert_eq!(scaling(64, 64, 64), Scaling::Keep);
    assert_eq!(scaling(65, 64, 64), Scaling::Shrink);
    assert_eq!(scaling(64, 101, 100), Scaling::Shrink);
}
