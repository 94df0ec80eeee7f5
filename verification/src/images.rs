//! Decoding, cutting, scaling and hashing of images, done by the `image` and
//! `image_hasher` crates.
use vstd::prelude::*;

verus! {

/// An image in memory: its color type and color space, its size and its samples.
#[verifier::external_type_specification]
#[verifier::external_body]
pub struct ExDynamicImage(image::DynamicImage);

/// Why the `image` crate could not read or write an image.
#[verifier::external_type_specification]
#[verifier::external_body]
pub struct ExImageError(image::ImageError);

/// Why text is not the base64 form of a hash.
#[verifier::external_type_specification]
#[verifier::external_body]
pub struct ExInvalidBytesError(image_hasher::InvalidBytesError);

/// What an image holds: its color type and color space, its width and height, and
/// its samples row by row, written out as bytes.
pub uninterp spec fn pixels_of(img: image::DynamicImage) -> Seq<u8>;

/// What `ImageReader` makes of an encoded image, where the format is told from
/// the content and, failing that, from the file extension, and where decoding
/// may allocate `max_alloc` bytes.
pub uninterp spec fn decoded_pixels(bytes: Seq<u8>, extension: Seq<char>, max_alloc: u64) -> Option<
    Seq<u8>,
>;

/// The width and height of an image that holds these pixels.
pub uninterp spec fn pixels_size(pixels: Seq<u8>) -> (u32, u32);

/// The part of an image that `crop_imm` cuts out.
pub uninterp spec fn cropped_pixels(pixels: Seq<u8>, x: u32, y: u32, width: u32, height: u32) -> Seq<
    u8,
>;

/// The double-gradient hash of an image.
pub uninterp spec fn gradient_hash(pixels: Seq<u8>, width: u32, height: u32) -> Seq<u8>;

/// An image scaled to fit, by linear interpolation.
pub uninterp spec fn fitted_pixels(pixels: Seq<u8>, width: u32, height: u32) -> Seq<u8>;

/// The PNG encoding of an image's 8-bit RGB form.
pub uninterp spec fn rgb_png(pixels: Seq<u8>) -> Option<Seq<u8>>;

/// The bytes that `ImageHash::from_base64` reads from a text.
pub uninterp spec fn base64_bytes(text: Seq<char>) -> Option<Seq<u8>>;

/// The text that `ImageHash::to_base64` writes for a hash.
pub uninterp spec fn base64_text(bytes: Seq<u8>) -> Seq<char>;

/// Bytes of a double-gradient hash: a bit for each two neighbors in a row and in
/// a column of a grid of one more than half the size, both ways.
pub open spec fn gradient_hash_len(width: nat, height: nat) -> nat {
    ((width / 2) * (height / 2 + 1) + (width / 2 + 1) * (height / 2) + 7) / 8
}

/// `image::ImageReader`: `with_guessed_format`, `limits` and `decode` over bytes
/// in memory. The result depends on the bytes, the extension and the limit alone.
/// The extension counts only where the content does not tell the format: an image
/// that is read without one is read the same with any.
#[verifier::external_body]
pub(crate) fn decode(bytes: &[u8], extension: &str, max_alloc: u64) -> (r: Result<
    image::DynamicImage,
    image::ImageError,
>)
    ensures
        match r {
            Ok(img) => decoded_pixels(bytes@, extension@, max_alloc) == Some(pixels_of(img)),
            Err(_) => decoded_pixels(bytes@, extension@, max_alloc) is None,
        },
        r is Ok && extension@.len() == 0 ==> forall|other: Seq<char>| #[trigger]
            decoded_pixels(bytes@, other, max_alloc) == decoded_pixels(
                bytes@,
                extension@,
                max_alloc,
            ),
{
    let mut reader = image::ImageReader::new(std::io::Cursor::new(bytes));
    image::ImageFormat::from_extension(extension).map(|format| reader.set_format(format));
    let mut reader = reader.with_guessed_format().map_err(image::ImageError::IoError)?;
    let mut limits = image::Limits::default();
    limits.max_alloc = Some(max_alloc);
    reader.limits(limits);
    reader.decode()
}

/// `DynamicImage::width` and `DynamicImage::height`: both are what the image holds.
#[verifier::external_body]
pub(crate) fn size(img: &image::DynamicImage) -> (r: (u32, u32))
    ensures
        r == pixels_size(pixels_of(*img)),
{
    (img.width(), img.height())
}

/// `DynamicImage::crop_imm`: a cut that lies inside the image has the size asked for.
#[verifier::external_body]
pub(crate) fn crop(img: &image::DynamicImage, x: u32, y: u32, width: u32, height: u32) -> (r:
    image::DynamicImage)
    ensures
        pixels_of(r) == cropped_pixels(pixels_of(*img), x, y, width, height),
        x + width <= pixels_size(pixels_of(*img)).0 && y + height <= pixels_size(
            pixels_of(*img),
        ).1 ==> pixels_size(pixels_of(r)) == (width, height),
{
    img.crop_imm(x, y, width, height)
}

/// `Hasher::hash_image` with the double-gradient algorithm and a hash of the
/// given size.
#[verifier::external_body]
pub(crate) fn hash(img: &image::DynamicImage, width: u32, height: u32) -> (r: Vec<u8>)
    requires
        2 <= width <= 64,
        2 <= height <= 64,
        width % 2 == 0,
        height % 2 == 0,
    ensures
        r@ == gradient_hash(pixels_of(*img), width, height),
        r@.len() == gradient_hash_len(width as nat, height as nat),
{
    let hasher = image_hasher::HasherConfig::new()
        .hash_alg(image_hasher::HashAlg::DoubleGradient)
        .hash_size(width, height)
        .to_hasher();
    hasher.hash_image(img).as_bytes().to_vec()
}

/// `DynamicImage::resize` with the triangle filter, for an image that is larger
/// one way or the other.
#[verifier::external_body]
pub(crate) fn fit(img: &image::DynamicImage, width: u32, height: u32) -> (r: image::DynamicImage)
    requires
        width < pixels_size(pixels_of(*img)).0 || height < pixels_size(pixels_of(*img)).1,
    ensures
        pixels_of(r) == fitted_pixels(pixels_of(*img), width, height),
{
    img.resize(width, height, image::imageops::FilterType::Triangle)
}

/// `DynamicImage::to_rgb8`, then `DynamicImage::write_to` as PNG into memory.
#[verifier::external_body]
pub(crate) fn encode_rgb_png(img: &image::DynamicImage) -> (r: Result<Vec<u8>, image::ImageError>)
    ensures
        match r {
            Ok(png) => rgb_png(pixels_of(*img)) == Some(png@),
            Err(_) => rgb_png(pixels_of(*img)) is None,
        },
{
    let mut png = Vec::new();
    image::DynamicImage::ImageRgb8(img.to_rgb8())
        .write_to(&mut std::io::Cursor::new(&mut png), image::ImageFormat::Png)
        .map(|()| png)
}

/// Number of bits set in a byte.
pub open spec fn bits_set(b: nat) -> nat
    decreases b,
{
    if b == 0 {
        0
    } else {
        b % 2 + bits_set(b / 2)
    }
}

/// Number of bits in which two hashes differ, over the length of the shorter.
pub open spec fn hamming(a: Seq<u8>, b: Seq<u8>) -> nat
    decreases a.len(),
{
    if a.len() == 0 || b.len() == 0 {
        0
    } else {
        bits_set((a[0] ^ b[0]) as nat) + hamming(a.drop_first(), b.drop_first())
    }
}

/// `ImageHash::dist`: the Hamming distance of two hashes, which are not empty.
#[verifier::external_body]
pub(crate) fn distance(a: &[u8], b: &[u8]) -> (r: u32)
    requires
        0 < a@.len() <= 0x1FFF_FFFF,
        0 < b@.len() <= 0x1FFF_FFFF,
    ensures
        r == hamming(a@, b@),
{
    let a: image_hasher::ImageHash = image_hasher::ImageHash::from_bytes(a).unwrap();
    let b: image_hasher::ImageHash = image_hasher::ImageHash::from_bytes(b).unwrap();
    a.dist(&b)
}

/// `ImageHash::to_base64`: unpadded base64, from which `ImageHash::from_base64`
/// reads the same hash.
#[verifier::external_body]
pub(crate) fn to_base64(bytes: &[u8]) -> (r: String)
    requires
        0 < bytes@.len() <= 0x1FFF_FFFF,
    ensures
        r@ == base64_text(bytes@),
        base64_bytes(r@) == Some(bytes@),
{
    let hash: image_hasher::ImageHash = image_hasher::ImageHash::from_bytes(bytes).unwrap();
    hash.to_base64()
}

/// `ImageHash::from_base64`: a hash is never empty.
#[verifier::external_body]
pub(crate) fn from_base64(text: &str) -> (r: Result<Vec<u8>, image_hasher::InvalidBytesError>)
    ensures
        match r {
            Ok(bytes) => base64_bytes(text@) == Some(bytes@) && bytes@.len() > 0,
            Err(_) => base64_bytes(text@) is None,
        },
{
    let hash: image_hasher::ImageHash = image_hasher::ImageHash::from_base64(text)?;
    Ok(hash.as_bytes().to_vec())
}

} // verus!
