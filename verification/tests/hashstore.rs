use std::io::Cursor;

use discord_anti_scam_bot::crops::{crop_variants, kept_extent, Ratio, Region};
use discord_anti_scam_bot::hashstore::{
    hash_image, is_safe_filename, AddError, ImageFault, ReferenceFile, ReferenceStore,
};

/// A picture of soft light and dark shapes, others for each seed.
fn picture(seed: u32, width: u32, height: u32) -> image::DynamicImage {
    let s = seed as f32;
    let mut img = image::RgbImage::new(width, height);
    for (x, y, p) in img.enumerate_pixels_mut() {
        let u = x as f32 / width as f32;
        let v = y as f32 / height as f32;
        let a = ((u * (3.0 + s) + v * 2.0) * 3.1 + s).sin();
        let b = ((v * (4.0 + s) - u * 1.5) * 2.7 + 2.0 * s).cos();
        let c = ((u * u + v * v) * (5.0 + s)).sin();
        let value = (128.0 + 40.0 * (a + b + c)) as u8;
        *p = image::Rgb([value, value, value]);
    }
    image::DynamicImage::ImageRgb8(img)
}

fn encoded(img: &image::DynamicImage, format: image::ImageFormat) -> Vec<u8> {
    let mut bytes = Vec::new();
    img.write_to(&mut Cursor::new(&mut bytes), format).expect("encode image");
    bytes
}

fn png(img: &image::DynamicImage) -> Vec<u8> {
    encoded(img, image::ImageFormat::Png)
}

fn files() -> Vec<ReferenceFile> {
    (1..=4)
        .map(|seed| ReferenceFile {
            name: format!("image{seed}.png"),
            bytes: png(&picture(seed, 640, 480)),
        })
        .collect()
}

#[test]
fn matches_a_cropped_repost() {
    let mut store = ReferenceStore::new();
    let loaded = store.load_dir(&files());
    assert!(loaded > 0, "expected at least one reference image");

    let img = picture(3, 640, 480);
    let (w, h) = (640, 480);
    // A crop that lines up with none of those that are hashed.
    let cropped = img.crop_imm(w / 20, h / 8, w * 9 / 10, h * 4 / 5);

    let hash = store.hash_bytes(&png(&cropped)).expect("hash cropped image");
    let m = store.best_match(&hash).expect("a best match");

    assert_eq!(m.filename, "image3.png");
    assert!(
        m.distance <= 20,
        "cropped repost should still match closely, got distance {}",
        m.distance
    );
}

#[test]
fn matches_middle_vertical_third_only() {
    let mut store = ReferenceStore::new();
    store.load_dir(&files());

    let img = picture(3, 640, 480);
    let third = 640 / 3;
    let cropped = img.crop_imm(third, 0, third, 480);

    let hash = store.hash_bytes(&png(&cropped)).expect("hash cropped image");
    let m = store.best_match(&hash).expect("a best match");

    assert_eq!(m.filename, "image3.png");
    assert!(
        m.distance <= 20,
        "middle-third-only repost should still match closely, got distance {}",
        m.distance
    );
}

#[test]
fn rejects_path_traversal_in_filenames() {
    let mut store = ReferenceStore::new();
    for evil in ["../victim.txt", "../../etc/passwd", "a/b.jpg", "..", "", "/etc/passwd"] {
        let added = store.add_from_bytes(evil, b"fake image");
        assert!(
            matches!(added, Err(AddError::InvalidFilename)),
            "add_from_bytes should reject {evil:?}"
        );
        let removed = store.remove(evil);
        assert!(!removed, "remove should reject {evil:?} rather than touch it");
    }
    assert_eq!(store.len(), 0);
}

#[test]
fn safe_names_are_single_components() {
    for good in ["image.jpg", "ref_1.png", "...", "a b", "é.png"] {
        assert!(is_safe_filename(good), "{good}");
    }
    for bad in ["", ".", "..", "a/b", "a\\b", "nul\0byte"] {
        assert!(!is_safe_filename(bad), "{bad:?}");
    }
}

#[test]
fn an_added_reference_is_found_at_no_distance() {
    let mut store = ReferenceStore::new();
    store.load_dir(&files());
    let bytes = png(&picture(9, 300, 200));
    store.add_from_bytes("new.png", &bytes).expect("add");
    assert_eq!(store.len(), 5);
    let hash = store.hash_bytes(&bytes).expect("hash");
    let m = store.best_match(&hash).expect("a match");
    assert_eq!((m.filename.as_str(), m.distance), ("new.png", 0));
    assert!(store.remove("new.png"));
    assert!(!store.remove("new.png"));
    assert_eq!(store.list(), vec!["image1.png", "image2.png", "image3.png", "image4.png"]);
}

#[test]
fn an_empty_store_matches_nothing() {
    let store = ReferenceStore::new();
    let hash = store.hash_bytes(&png(&picture(1, 100, 100))).unwrap();
    assert!(store.best_match(&hash).is_none());
    assert!(store.list().is_empty());
}

#[test]
fn of_two_equal_references_the_first_name_matches() {
    let mut store = ReferenceStore::new();
    let bytes = png(&picture(2, 200, 200));
    store.add_from_bytes("b.png", &bytes).unwrap();
    store.add_from_bytes("a.png", &bytes).unwrap();
    let hash = store.hash_bytes(&bytes).unwrap();
    assert_eq!(store.best_match(&hash).unwrap().filename, "a.png");
}

#[test]
fn what_is_no_image_is_not_hashed() {
    let mut store = ReferenceStore::new();
    assert!(matches!(store.hash_bytes(b"fake image"), Err(ImageFault::Decode(_))));
    assert!(matches!(
        store.add_from_bytes("x.png", b"fake image"),
        Err(AddError::Image(ImageFault::Decode(_)))
    ));
    let loaded = store.load_dir(&[
        ReferenceFile { name: "notes.txt".to_string(), bytes: b"text".to_vec() },
        ReferenceFile { name: "ok.png".to_string(), bytes: png(&picture(1, 64, 64)) },
    ]);
    assert_eq!(loaded, 1);
    assert_eq!(store.list(), vec!["ok.png"]);
}

#[test]
fn an_image_without_pixels_is_not_hashed() {
    let empty = image::DynamicImage::ImageRgb8(image::RgbImage::new(0, 5));
    assert!(hash_image(&empty).is_none());
}

#[test]
fn the_extension_tells_what_the_content_does_not() {
    // A TGA file has no magic bytes: its format shows in its name alone.
    let store = ReferenceStore::new();
    let bytes = encoded(&picture(1, 64, 64), image::ImageFormat::Tga);
    assert!(store.hash_bytes(&bytes).is_err());
    assert!(store.hash_file("shot.tga", &bytes).is_ok());
    assert!(store.hash_file("shot", &bytes).is_err());
}

#[test]
fn the_content_tells_the_format_before_the_name_does() {
    let store = ReferenceStore::new();
    let bytes = png(&picture(1, 64, 48));
    let plain = store.hash_bytes(&bytes).expect("hash");
    for name in ["shot.jpg", "shot.tga", "shot.txt", "shot"] {
        let named = store.hash_file(name, &bytes).expect("hash");
        assert_eq!(named.primary, plain.primary);
        assert_eq!(named.all, plain.all);
    }
}

#[test]
fn hashes_are_those_of_the_hashing_crate() {
    let img = picture(5, 120, 90);
    let hasher = image_hasher::HasherConfig::new()
        .hash_alg(image_hasher::HashAlg::DoubleGradient)
        .hash_size(16, 16)
        .to_hasher();
    let expected: image_hasher::ImageHash = hasher.hash_image(&img);
    let v = hash_image(&img).unwrap();
    assert_eq!(v.all.len(), 17);
    assert_eq!(v.primary.to_base64(), expected.to_base64());
    assert_eq!(v.primary.to_base64().len(), 24);
    let crop = img.crop_imm(0, 0, 102, 76);
    let cropped: image_hasher::ImageHash = hasher.hash_image(&crop);
    assert!(v.all.iter().any(|h| h.to_base64() == cropped.to_base64()));
    let other: image_hasher::ImageHash = hasher.hash_image(&picture(6, 120, 90));
    let o = hash_image(&picture(6, 120, 90)).unwrap();
    assert_eq!(v.primary.dist(&o.primary), expected.dist(&other));
}

#[test]
fn hashes_as_text() {
    // In an image of one color no pixel differs from its neighbor: no bit is set.
    let plain = image::RgbImage::from_pixel(64, 64, image::Rgb([90, 90, 90]));
    let a = hash_image(&image::DynamicImage::ImageRgb8(plain)).unwrap().primary;
    let b = hash_image(&picture(3, 120, 90)).unwrap().primary;
    assert_eq!(a.to_base64(), "A".repeat(24));
    assert_eq!(a.dist_to_text(&a.to_base64()), Some(0));
    assert_eq!(b.dist_to_text(&b.to_base64()), Some(0));
    assert_eq!(a.dist_to_text(&b.to_base64()), Some(a.dist(&b)));
    assert_eq!(a.dist(&b), b.dist(&a));
    assert!(a.dist(&b) > 0);
    assert_eq!(a.dist_to_text("/wAP"), Some(12));
    assert_eq!(a.dist_to_text("not base64!"), None);
    assert_eq!(a.dist_to_text(""), None);
}

#[test]
fn hashes_of_different_lengths_are_compared_over_the_shorter() {
    let plain = image::RgbImage::from_pixel(64, 64, image::Rgb([90, 90, 90]));
    let a = hash_image(&image::DynamicImage::ImageRgb8(plain)).unwrap().primary;
    assert_eq!(a.dist_to_text(&"/".repeat(400)), Some(18 * 8));
    assert_eq!(a.dist_to_text(&format!("{}////", "A".repeat(24))), Some(0));
}

#[test]
fn crops_scale_as_single_precision_does() {
    let ratios = [
        (Ratio::Whole, 1.0f32),
        (Ratio::Slight, 0.85),
        (Ratio::Mild, 0.7),
        (Ratio::Strong, 0.55),
        (Ratio::Half, 0.5),
        (Ratio::Heavy, 0.4),
        (Ratio::Third, 0.33),
    ];
    let mut extents: Vec<u32> = (1..5000).collect();
    extents.extend([16777215, 16777216, 16777217, 33554433, 2147483647, 4294967294, 4294967295]);
    for extent in extents {
        for (ratio, r) in ratios {
            let expected = ((extent as f32 * r) as u32).max(1).min(extent);
            assert_eq!(kept_extent(extent, ratio), expected, "{extent} {r}");
        }
    }
}

#[test]
fn crops_of_a_small_image() {
    let regions = crop_variants(100, 50);
    assert_eq!(regions.len(), 16);
    assert_eq!(regions[0], Region { x: 7, y: 4, width: 85, height: 42 });
    assert_eq!(regions[1], Region { x: 0, y: 0, width: 85, height: 42 });
    assert_eq!(regions[4], Region { x: 15, y: 8, width: 85, height: 42 });
    assert_eq!(regions[12], Region { x: 33, y: 0, width: 33, height: 50 });
    for r in crop_variants(1, 1) {
        assert_eq!((r.width, r.height), (1, 1));
    }
}
