//! Perceptual hashes of images and the set of known scam images.
use vstd::prelude::*;
use vstd::slice::slice_subrange;

use crate::crops;
use crate::crops::{crop_regions, Region};
use crate::images;
use crate::images::{
    base64_bytes, base64_text, cropped_pixels, decoded_pixels, gradient_hash, hamming, pixels_of,
    pixels_size,
};
use crate::paths;
use crate::paths::path_extension;
use crate::text;
use crate::text::{text_before, texts};

verus! {

/// Side of the square grid of bits that a hash is asked for.
pub const HASH_SIZE: u32 = 16;

/// Bytes that decoding one image may allocate.
pub const MAX_DECODE_BYTES: u64 = 134217728;

/// Bytes of a hash of that size.
pub const HASH_BYTES: usize = 18;

/// A perceptual hash: similar images have hashes that differ in few bits.
#[derive(Debug, PartialEq, Eq)]
pub struct ImageHash {
    bytes: Vec<u8>,
}

impl View for ImageHash {
    type V = Seq<u8>;

    closed spec fn view(&self) -> Seq<u8> {
        self.bytes@
    }
}

impl Clone for ImageHash {
    fn clone(&self) -> (r: Self)
        ensures
            r@ == self@,
    {
        proof {
            use_type_invariant(self);
        }
        let bytes = self.bytes.clone();
        assert(bytes@ =~= self.bytes@);
        ImageHash { bytes }
    }
}

impl ImageHash {
    #[verifier::type_invariant]
    spec fn complete(self) -> bool {
        self.bytes@.len() == HASH_BYTES
    }

    /// The number of bits in which two hashes differ.
    pub fn dist(&self, other: &ImageHash) -> (r: u32)
        ensures
            r == hamming(self@, other@),
    {
        proof {
            use_type_invariant(self);
            use_type_invariant(other);
        }
        images::distance(self.bytes.as_slice(), other.bytes.as_slice())
    }

    /// The hash as text, which stands for the same bytes.
    pub fn to_base64(&self) -> (r: String)
        ensures
            r@ == base64_text(self@),
            base64_bytes(r@) == Some(self@),
    {
        proof {
            use_type_invariant(self);
        }
        images::to_base64(self.bytes.as_slice())
    }

    /// The number of bits in which the hash differs from the one that a text stands
    /// for, over the length of the shorter. `None` where the text stands for none.
    pub fn dist_to_text(&self, text: &str) -> (r: Option<u32>)
        ensures
            match r {
                Some(d) => base64_bytes(text@) matches Some(other) && d == hamming(self@, other),
                None => base64_bytes(text@) is None,
            },
    {
        proof {
            use_type_invariant(self);
        }
        match images::from_base64(text) {
            Ok(other) => {
                let shorter: usize = if other.len() < self.bytes.len() {
                    other.len()
                } else {
                    self.bytes.len()
                };
                proof {
                    hamming_of_the_shorter(self.bytes@, other@, shorter as int);
                }
                Some(
                    images::distance(
                        slice_subrange(self.bytes.as_slice(), 0, shorter),
                        slice_subrange(other.as_slice(), 0, shorter),
                    ),
                )
            },
            Err(_) => None,
        }
    }
}

/// What the longer of two hashes has beyond the shorter does not count.
proof fn hamming_of_the_shorter(a: Seq<u8>, b: Seq<u8>, shorter: int)
    requires
        0 <= shorter <= a.len(),
        shorter <= b.len(),
        shorter == a.len() || shorter == b.len(),
    ensures
        hamming(a.subrange(0, shorter), b.subrange(0, shorter)) == hamming(a, b),
    decreases a.len(),
{
    if shorter > 0 {
        hamming_of_the_shorter(a.drop_first(), b.drop_first(), shorter - 1);
        assert(a.subrange(0, shorter).drop_first() =~= a.drop_first().subrange(0, shorter - 1));
        assert(b.subrange(0, shorter).drop_first() =~= b.drop_first().subrange(0, shorter - 1));
    }
}

/// The hashes of an image and of its crops.
///
/// A hash of the whole image is fragile to cropping. Comparing every variant of
/// one image with every variant of another catches a crop that dodges it.
#[derive(Debug)]
pub struct ImageVariants {
    /// Hash of the untouched image. Flood detection compares this one: it looks
    /// for reposts, not for evasive crops.
    pub primary: ImageHash,
    pub all: Vec<ImageHash>,
}

/// The bits of an [`ImageVariants`].
#[verifier::ext_equal]
pub struct Variants {
    pub primary: Seq<u8>,
    pub all: Seq<Seq<u8>>,
}

/// The bits of each of a list of hashes.
pub open spec fn hash_bits(hashes: Seq<ImageHash>) -> Seq<Seq<u8>> {
    hashes.map_values(|h: ImageHash| h@)
}

impl View for ImageVariants {
    type V = Variants;

    open spec fn view(&self) -> Variants {
        Variants { primary: self.primary@, all: hash_bits(self.all@) }
    }
}

/// The least distance of one hash to any of a list, or `u32::MAX` to none.
pub open spec fn nearest(a: Seq<u8>, others: Seq<Seq<u8>>) -> nat
    decreases others.len(),
{
    if others.len() == 0 {
        u32::MAX as nat
    } else {
        vstd::math::min(
            nearest(a, others.drop_last()) as int,
            hamming(a, others.last()) as int,
        ) as nat
    }
}

/// The least distance between any hash of one list and any of another, or
/// `u32::MAX` where one of them is empty.
pub open spec fn least_distance(ones: Seq<Seq<u8>>, others: Seq<Seq<u8>>) -> nat
    decreases ones.len(),
{
    if ones.len() == 0 {
        u32::MAX as nat
    } else {
        vstd::math::min(
            least_distance(ones.drop_last(), others) as int,
            nearest(ones.last(), others) as int,
        ) as nat
    }
}

impl ImageVariants {
    /// The least distance between any variant of one image and any of the other.
    pub fn min_dist(&self, other: &ImageVariants) -> (r: u32)
        ensures
            r == least_distance(self@.all, other@.all),
    {
        let mut best: u32 = u32::MAX;
        for i in 0..self.all.len()
            invariant
                best == least_distance(self@.all.take(i as int), other@.all),
        {
            let mut row: u32 = u32::MAX;
            for j in 0..other.all.len()
                invariant
                    i < self.all@.len(),
                    row == nearest(self@.all[i as int], other@.all.take(j as int)),
            {
                assert(other@.all.take(j + 1).drop_last() == other@.all.take(j as int));
                assert(other@.all.take(j + 1).last() == other.all@[j as int]@);
                let d = self.all[i].dist(&other.all[j]);
                if d < row {
                    row = d;
                }
            }
            assert(other@.all.take(other.all@.len() as int) == other@.all);
            assert(self@.all.take(i + 1).drop_last() == self@.all.take(i as int));
            if row < best {
                best = row;
            }
        }
        assert(self@.all.take(self.all@.len() as int) == self@.all);
        best
    }
}

impl Clone for ImageVariants {
    fn clone(&self) -> (r: Self)
        ensures
            r@ == self@,
    {
        let mut all: Vec<ImageHash> = Vec::new();
        for i in 0..self.all.len()
            invariant
                hash_bits(all@) == self@.all.take(i as int),
        {
            let ghost before = all@;
            let copy = self.all[i].clone();
            all.push(copy);
            assert(hash_bits(all@) == hash_bits(before).push(copy@));
            assert(self@.all.take(i + 1) == self@.all.take(i as int).push(self.all@[i as int]@));
        }
        assert(self@.all.take(self.all@.len() as int) == self@.all);
        ImageVariants { primary: self.primary.clone(), all }
    }
}

/// Why an image could not be hashed or prepared.
#[derive(Debug)]
pub enum ImageFault {
    /// It could not be decoded.
    Decode(image::ImageError),
    /// It could not be encoded again.
    Encode(image::ImageError),
    /// It has no pixels.
    Empty,
}

/// The pixels of an image can be cut and hashed: there are some.
pub open spec fn has_pixels(pixels: Seq<u8>) -> bool {
    pixels_size(pixels).0 > 0 && pixels_size(pixels).1 > 0
}

/// The hash of one region of an image.
pub open spec fn region_hash(pixels: Seq<u8>, r: Region) -> Seq<u8> {
    gradient_hash(cropped_pixels(pixels, r.x, r.y, r.width, r.height), HASH_SIZE, HASH_SIZE)
}

/// The hashes of an image: of all of it, and of each of its crops.
pub open spec fn variants_of(pixels: Seq<u8>) -> Variants {
    let size = pixels_size(pixels);
    let whole = gradient_hash(pixels, HASH_SIZE, HASH_SIZE);
    Variants {
        primary: whole,
        all: seq![whole] + crop_regions(size.0 as nat, size.1 as nat).map_values(
            |r: Region| region_hash(pixels, r),
        ),
    }
}

/// The hashes of an encoded image, if it can be decoded and has pixels.
pub open spec fn hashed(bytes: Seq<u8>, extension: Seq<char>) -> Option<Variants> {
    match decoded_pixels(bytes, extension, MAX_DECODE_BYTES) {
        Some(pixels) => if has_pixels(pixels) {
            Some(variants_of(pixels))
        } else {
            None
        },
        None => None,
    }
}

/// The extension that tells an image file's format where its content does not.
pub open spec fn format_extension(name: Seq<char>) -> Seq<char> {
    match path_extension(name) {
        Some(e) => e,
        None => Seq::empty(),
    }
}

/// One hash, computed.
fn hash_whole(img: &image::DynamicImage) -> (r: ImageHash)
    ensures
        r@ == gradient_hash(pixels_of(*img), HASH_SIZE, HASH_SIZE),
{
    let bytes = images::hash(img, HASH_SIZE, HASH_SIZE);
    assert(bytes@.len() == HASH_BYTES) by {
        assert(images::gradient_hash_len(16, 16) == 18) by (nonlinear_arith);
    }
    ImageHash { bytes }
}

/// Hashes a decoded image and its crops. `None` for an image without pixels.
pub fn hash_image(img: &image::DynamicImage) -> (r: Option<ImageVariants>)
    ensures
        match r {
            Some(v) => has_pixels(pixels_of(*img)) && v@ == variants_of(pixels_of(*img)),
            None => !has_pixels(pixels_of(*img)),
        },
{
    let (width, height) = images::size(img);
    if width == 0 || height == 0 {
        return None;
    }
    let ghost pixels = pixels_of(*img);
    let regions = crops::crop_variants(width, height);
    let primary = hash_whole(img);
    let mut all: Vec<ImageHash> = Vec::new();
    all.push(primary.clone());
    let ghost cut = regions@.map_values(|r: Region| region_hash(pixels, r));
    for i in 0..regions.len()
        invariant
            pixels == pixels_of(*img),
            cut == regions@.map_values(|r: Region| region_hash(pixels, r)),
            hash_bits(all@) == seq![primary@] + cut.take(i as int),
    {
        let region = regions[i];
        let part = images::crop(img, region.x, region.y, region.width, region.height);
        let hash = hash_whole(&part);
        let ghost before = hash_bits(all@);
        all.push(hash);
        assert(hash_bits(all@) == before.push(hash@));
        assert(cut.take(i + 1) == cut.take(i as int).push(cut[i as int]));
        assert(cut[i as int] == hash@);
    }
    assert(cut.take(regions@.len() as int) == cut);
    let v = ImageVariants { primary, all };
    assert(v@ =~= variants_of(pixels));
    Some(v)
}

/// Decodes and hashes an image whose format may also show in a file extension.
fn hash_encoded(bytes: &[u8], extension: &str) -> (r: Result<ImageVariants, ImageFault>)
    ensures
        match r {
            Ok(v) => hashed(bytes@, extension@) == Some(v@),
            Err(ImageFault::Decode(_)) => decoded_pixels(bytes@, extension@, MAX_DECODE_BYTES) is None,
            Err(ImageFault::Empty) => decoded_pixels(bytes@, extension@, MAX_DECODE_BYTES) matches Some(
                pixels,
            ) && !has_pixels(pixels),
            Err(ImageFault::Encode(_)) => false,
        },
        r is Ok && extension@.len() == 0 ==> forall|other: Seq<char>| #[trigger]
            hashed(bytes@, other) == hashed(bytes@, extension@),
{
    match images::decode(bytes, extension, MAX_DECODE_BYTES) {
        Ok(img) => match hash_image(&img) {
            Some(v) => Ok(v),
            None => Err(ImageFault::Empty),
        },
        Err(e) => Err(ImageFault::Decode(e)),
    }
}

/// A file name that stays in its directory: one plain path component.
pub open spec fn safe_filename(name: Seq<char>) -> bool {
    &&& name.len() > 0
    &&& name != "."@
    &&& name != ".."@
    &&& !name.contains('/')
    &&& !name.contains('\\')
    &&& !name.contains('\0')
}

/// Whether a reference may be stored under this name.
///
/// Names come from user input and are joined to the reference directory. A name
/// that is anything but one plain path component could leave it.
pub fn is_safe_filename(name: &str) -> (r: bool)
    ensures
        r == safe_filename(name@),
{
    !name.is_empty() && !text::same_text(name, ".") && !text::same_text(name, "..")
        && !text::has_char(name, '/') && !text::has_char(name, '\\') && !text::has_char(name, '\0')
}

/// A safe name is one path component, whichever slash separates components, and
/// that component is an ordinary one.
pub proof fn safe_filenames_are_one_component(name: Seq<char>)
    requires
        safe_filename(name),
    ensures
        text::split_on(name, '/') == seq![name],
        text::split_on(name, '\\') == seq![name],
        paths::file_name(name) == Some(name),
{
    text::split_without_separator(name, '/');
    text::split_without_separator(name, '\\');
    reveal_strlit(".");
    if name.len() > 0 {
        assert(name.contains(name.last()));
    }
    if name.len() > 1 {
        assert(name.contains(name[name.len() - 2]));
    }
}

/// A known scam image.
#[derive(Debug)]
struct Reference {
    name: String,
    variants: ImageVariants,
}

/// The best match of an image among the references.
#[derive(Debug)]
pub struct MatchResult {
    pub filename: String,
    pub distance: u32,
}

/// A match, by name and distance.
pub open spec fn match_view(m: Option<MatchResult>) -> Option<(Seq<char>, u32)> {
    match m {
        Some(m) => Some((m.filename@, m.distance)),
        None => None,
    }
}

/// The match is the reference closest to an image, over every variant of both. Of
/// several equally close ones it is the first by name.
pub open spec fn is_best_match(
    references: Map<Seq<char>, Variants>,
    hash: Variants,
    best: Option<(Seq<char>, u32)>,
) -> bool {
    match best {
        Some((filename, distance)) => {
            &&& references.contains_key(filename)
            &&& distance == least_distance(hash.all, references[filename].all)
            &&& forall|name: Seq<char>| #[trigger]
                references.contains_key(name) ==> {
                    let d = least_distance(hash.all, references[name].all);
                    distance < d || (distance == d && (name == filename || text_before(
                        filename,
                        name,
                    )))
                }
        },
        None => forall|name: Seq<char>| !references.contains_key(name),
    }
}

/// Why a reference could not be added.
#[derive(Debug)]
pub enum AddError {
    /// The name could leave the reference directory.
    InvalidFilename,
    /// The image could not be hashed.
    Image(ImageFault),
}

/// The hashes of the reference images: screenshots of compromised accounts that
/// were identified before.
#[derive(Debug)]
pub struct ReferenceStore {
    entries: Vec<Reference>,
}

spec fn pairs_of(entries: Seq<Reference>) -> Seq<(Seq<char>, Variants)> {
    entries.map_values(|e: Reference| (e.name@, e.variants@))
}

/// The names come in dictionary order, each once.
spec fn ordered(pairs: Seq<(Seq<char>, Variants)>) -> bool {
    forall|i: int, j: int| 0 <= i < j < pairs.len() ==> text_before(pairs[i].0, pairs[j].0)
}

spec fn holds_at(pairs: Seq<(Seq<char>, Variants)>, name: Seq<char>, i: int) -> bool {
    0 <= i < pairs.len() && pairs[i].0 == name
}

spec fn contents(pairs: Seq<(Seq<char>, Variants)>) -> Map<Seq<char>, Variants> {
    Map::new(
        |name: Seq<char>| exists|i: int| holds_at(pairs, name, i),
        |name: Seq<char>| pairs[choose|i: int| holds_at(pairs, name, i)].1,
    )
}

proof fn ordered_names_differ(pairs: Seq<(Seq<char>, Variants)>, i: int, j: int)
    requires
        ordered(pairs),
        0 <= i < pairs.len(),
        0 <= j < pairs.len(),
        pairs[i].0 == pairs[j].0,
    ensures
        i == j,
{
    text::text_before_itself(pairs[i].0);
}

proof fn contents_at(pairs: Seq<(Seq<char>, Variants)>, i: int)
    requires
        ordered(pairs),
        0 <= i < pairs.len(),
    ensures
        contents(pairs).contains_key(pairs[i].0),
        contents(pairs)[pairs[i].0] == pairs[i].1,
{
    let name = pairs[i].0;
    assert(holds_at(pairs, name, i));
    let k = choose|k: int| holds_at(pairs, name, k);
    ordered_names_differ(pairs, i, k);
}

proof fn contents_len(pairs: Seq<(Seq<char>, Variants)>)
    requires
        ordered(pairs),
    ensures
        contents(pairs).dom().finite(),
        contents(pairs).len() == pairs.len(),
        contents(pairs).dom() == pairs.map_values(|p: (Seq<char>, Variants)| p.0).to_set(),
{
    let names = pairs.map_values(|p: (Seq<char>, Variants)| p.0);
    assert forall|i: int, j: int| 0 <= i < names.len() && 0 <= j < names.len() && i != j implies names[i]
        != names[j] by {
        if names[i] == names[j] {
            ordered_names_differ(pairs, i, j);
        }
    }
    names.unique_seq_to_set();
    assert forall|name: Seq<char>| contents(pairs).dom().contains(name) <==> names.to_set().contains(
        name,
    ) by {
        if names.contains(name) {
            let i = choose|i: int| 0 <= i < names.len() && names[i] == name;
            assert(holds_at(pairs, name, i));
        }
        if contents(pairs).contains_key(name) {
            let i = choose|i: int| holds_at(pairs, name, i);
            assert(names[i] == name);
        }
    }
    assert(contents(pairs).dom() =~= names.to_set());
}

proof fn contents_of_insert(pairs: Seq<(Seq<char>, Variants)>, at: int, name: Seq<char>, v: Variants)
    requires
        ordered(pairs),
        0 <= at <= pairs.len(),
        forall|i: int| 0 <= i < at ==> text_before(#[trigger] pairs[i].0, name),
        forall|i: int| at <= i < pairs.len() ==> text_before(name, #[trigger] pairs[i].0),
    ensures
        ordered(pairs.insert(at, (name, v))),
        contents(pairs.insert(at, (name, v))) == contents(pairs).insert(name, v),
{
    let after = pairs.insert(at, (name, v));
    assert forall|i: int, j: int| 0 <= i < j < after.len() implies text_before(
        after[i].0,
        after[j].0,
    ) by {
        if i < at {
            if j > at {
                assert(after[j] == pairs[j - 1]);
            }
        } else if i > at {
            assert(after[i] == pairs[i - 1]);
            assert(after[j] == pairs[j - 1]);
        } else {
            assert(after[j] == pairs[j - 1]);
        }
    }
    let expected = contents(pairs).insert(name, v);
    assert forall|n: Seq<char>| contents(after).contains_key(n) <==> expected.contains_key(n) by {
        if contents(after).contains_key(n) {
            let i = choose|i: int| holds_at(after, n, i);
            if i < at {
                assert(holds_at(pairs, n, i));
            } else if i > at {
                assert(holds_at(pairs, n, i - 1));
            }
        }
        if contents(pairs).contains_key(n) {
            let i = choose|i: int| holds_at(pairs, n, i);
            if i < at {
                assert(holds_at(after, n, i));
            } else {
                assert(holds_at(after, n, i + 1));
            }
        }
        if n == name {
            assert(holds_at(after, n, at));
        }
    }
    assert forall|n: Seq<char>| contents(after).contains_key(n) implies contents(after)[n]
        == expected[n] by {
        let i = choose|i: int| holds_at(after, n, i);
        contents_at(after, i);
        if i == at {
        } else {
            let k = if i < at { i } else { i - 1 };
            assert(after[i] == pairs[k]);
            contents_at(pairs, k);
            if n == name {
                ordered_names_differ(after, i, at);
            }
        }
    }
    assert(contents(after) =~= expected);
}

proof fn contents_of_update(pairs: Seq<(Seq<char>, Variants)>, at: int, v: Variants)
    requires
        ordered(pairs),
        0 <= at < pairs.len(),
    ensures
        ordered(pairs.update(at, (pairs[at].0, v))),
        contents(pairs.update(at, (pairs[at].0, v))) == contents(pairs).insert(pairs[at].0, v),
{
    let name = pairs[at].0;
    let after = pairs.update(at, (name, v));
    assert(ordered(after));
    let expected = contents(pairs).insert(name, v);
    assert forall|n: Seq<char>| contents(after).contains_key(n) <==> expected.contains_key(n) by {
        if contents(after).contains_key(n) {
            let i = choose|i: int| holds_at(after, n, i);
            assert(holds_at(pairs, n, i));
        }
        if contents(pairs).contains_key(n) {
            let i = choose|i: int| holds_at(pairs, n, i);
            assert(holds_at(after, n, i));
        }
        if n == name {
            assert(holds_at(after, n, at));
        }
    }
    assert forall|n: Seq<char>| contents(after).contains_key(n) implies contents(after)[n]
        == expected[n] by {
        let i = choose|i: int| holds_at(after, n, i);
        contents_at(after, i);
        contents_at(pairs, i);
        if n == name {
            ordered_names_differ(pairs, i, at);
        }
    }
    assert(contents(after) =~= expected);
}

proof fn contents_of_remove(pairs: Seq<(Seq<char>, Variants)>, at: int)
    requires
        ordered(pairs),
        0 <= at < pairs.len(),
    ensures
        ordered(pairs.remove(at)),
        contents(pairs.remove(at)) == contents(pairs).remove(pairs[at].0),
{
    let name = pairs[at].0;
    let after = pairs.remove(at);
    assert forall|i: int, j: int| 0 <= i < j < after.len() implies text_before(
        after[i].0,
        after[j].0,
    ) by {
        let a = if i < at { i } else { i + 1 };
        let b = if j < at { j } else { j + 1 };
        assert(after[i] == pairs[a]);
        assert(after[j] == pairs[b]);
    }
    let expected = contents(pairs).remove(name);
    assert forall|n: Seq<char>| contents(after).contains_key(n) <==> expected.contains_key(n) by {
        if contents(after).contains_key(n) {
            let i = choose|i: int| holds_at(after, n, i);
            let k = if i < at { i } else { i + 1 };
            assert(holds_at(pairs, n, k));
            if n == name {
                ordered_names_differ(pairs, k, at);
            }
        }
        if expected.contains_key(n) {
            let i = choose|i: int| holds_at(pairs, n, i);
            assert(i != at);
            assert(holds_at(after, n, if i < at { i } else { i - 1 }));
        }
    }
    assert forall|n: Seq<char>| contents(after).contains_key(n) implies contents(after)[n]
        == expected[n] by {
        let i = choose|i: int| holds_at(after, n, i);
        let k = if i < at { i } else { i + 1 };
        assert(after[i] == pairs[k]);
        contents_at(after, i);
        contents_at(pairs, k);
        if n == name {
            ordered_names_differ(pairs, k, at);
        }
    }
    assert(contents(after) =~= expected);
}

/// A file of the reference directory: its name and its content.
#[derive(Debug)]
pub struct ReferenceFile {
    pub name: String,
    pub bytes: Vec<u8>,
}

/// The references that a list of files makes: the images among them, each under
/// its own name, the later of two with one name.
pub open spec fn loaded(files: Seq<ReferenceFile>) -> Map<Seq<char>, Variants>
    decreases files.len(),
{
    if files.len() == 0 {
        Map::empty()
    } else {
        let file = files.last();
        match hashed(file.bytes@, format_extension(file.name@)) {
            Some(v) => loaded(files.drop_last()).insert(file.name@, v),
            None => loaded(files.drop_last()),
        }
    }
}

impl View for ReferenceStore {
    type V = Map<Seq<char>, Variants>;

    /// The references by name.
    closed spec fn view(&self) -> Map<Seq<char>, Variants> {
        contents(pairs_of(self.entries@))
    }
}

impl ReferenceStore {
    /// Each name occurs once, and the names are kept in order.
    pub closed spec fn wf(&self) -> bool {
        ordered(pairs_of(self.entries@))
    }

    /// A store without references.
    pub fn new() -> (r: ReferenceStore)
        ensures
            r.wf(),
            r@ == Map::<Seq<char>, Variants>::empty(),
    {
        let r = ReferenceStore { entries: Vec::new() };
        assert(r@ =~= Map::<Seq<char>, Variants>::empty());
        r
    }

    /// Hashes an image and its crops. The content tells the format: what is hashed
    /// here is hashed the same under any file name.
    pub fn hash_bytes(&self, bytes: &[u8]) -> (r: Result<ImageVariants, ImageFault>)
        ensures
            match r {
                Ok(v) => hashed(bytes@, Seq::empty()) == Some(v@),
                Err(ImageFault::Decode(_)) => decoded_pixels(
                    bytes@,
                    Seq::empty(),
                    MAX_DECODE_BYTES,
                ) is None,
                Err(ImageFault::Empty) => decoded_pixels(
                    bytes@,
                    Seq::empty(),
                    MAX_DECODE_BYTES,
                ) matches Some(pixels) && !has_pixels(pixels),
                Err(ImageFault::Encode(_)) => false,
            },
            r is Ok ==> forall|extension: Seq<char>| #[trigger]
                hashed(bytes@, extension) == hashed(bytes@, Seq::empty()),
    {
        let none = String::new();
        assert(none@ =~= Seq::empty());
        hash_encoded(bytes, none.as_str())
    }

    /// Hashes an image file and its crops. The extension tells the format where
    /// the content does not.
    pub fn hash_file(&self, name: &str, bytes: &[u8]) -> (r: Result<ImageVariants, ImageFault>)
        ensures
            match r {
                Ok(v) => hashed(bytes@, format_extension(name@)) == Some(v@),
                Err(ImageFault::Decode(_)) => decoded_pixels(
                    bytes@,
                    format_extension(name@),
                    MAX_DECODE_BYTES,
                ) is None,
                Err(ImageFault::Empty) => decoded_pixels(
                    bytes@,
                    format_extension(name@),
                    MAX_DECODE_BYTES,
                ) matches Some(pixels) && !has_pixels(pixels),
                Err(ImageFault::Encode(_)) => false,
            },
    {
        match paths::extension(name) {
            Some(extension) => hash_encoded(bytes, extension.as_str()),
            None => {
                let none = String::new();
                hash_encoded(bytes, none.as_str())
            },
        }
    }

    /// The number of entries whose names come before `name`.
    fn position(&self, name: &str) -> (r: usize)
        requires
            self.wf(),
        ensures
            r <= self.entries@.len(),
            forall|i: int| 0 <= i < r ==> text_before(#[trigger] pairs_of(self.entries@)[i].0, name@),
            forall|i: int|
                r <= i < self.entries@.len() ==> #[trigger] pairs_of(self.entries@)[i].0 == name@
                    || text_before(name@, pairs_of(self.entries@)[i].0),
            forall|i: int|
                r < i < self.entries@.len() ==> text_before(
                    name@,
                    #[trigger] pairs_of(self.entries@)[i].0,
                ),
    {
        let ghost pairs = pairs_of(self.entries@);
        let mut at: usize = 0;
        while at < self.entries.len() && text::comes_before(self.entries[at].name.as_str(), name)
            invariant
                pairs == pairs_of(self.entries@),
                at <= self.entries.len(),
                forall|i: int| 0 <= i < at ==> text_before(#[trigger] pairs[i].0, name@),
            decreases self.entries.len() - at,
        {
            at += 1;
        }
        proof {
            if at < self.entries@.len() {
                let here = pairs[at as int].0;
                text::text_before_either(here, name@);
                assert(here == name@ || text_before(name@, here));
                assert forall|i: int| at < i < pairs.len() implies text_before(
                    name@,
                    #[trigger] pairs[i].0,
                ) by {
                    if here != name@ {
                        text::text_before_chain(name@, here, pairs[i].0);
                    }
                }
            }
        }
        at
    }

    /// Puts a reference under a name, in place of the one that had it.
    fn insert(&mut self, name: String, variants: ImageVariants)
        requires
            old(self).wf(),
        ensures
            final(self).wf(),
            final(self)@ == old(self)@.insert(name@, variants@),
    {
        let at = self.position(name.as_str());
        let ghost pairs = pairs_of(self.entries@);
        if at < self.entries.len() && text::same_text(
            self.entries[at].name.as_str(),
            name.as_str(),
        ) {
            proof {
                contents_of_update(pairs, at as int, variants@);
            }
            let entry = Reference { name, variants };
            self.entries[at] = entry;
            assert(pairs_of(self.entries@) =~= pairs.update(
                at as int,
                (pairs[at as int].0, variants@),
            ));
        } else {
            proof {
                contents_of_insert(pairs, at as int, name@, variants@);
            }
            let entry = Reference { name, variants };
            self.entries.insert(at, entry);
            assert(pairs_of(self.entries@) =~= pairs.insert(at as int, (entry.name@, variants@)));
        }
    }

    /// Replaces the references with those that the files of the reference
    /// directory hold, and tells how many there are. A file that is not an image
    /// is passed over.
    pub fn load_dir(&mut self, files: &[ReferenceFile]) -> (r: usize)
        ensures
            final(self).wf(),
            final(self)@ == loaded(files@),
            r == final(self)@.len(),
    {
        let mut fresh = ReferenceStore::new();
        for i in 0..files.len()
            invariant
                fresh.wf(),
                fresh@ == loaded(files@.take(i as int)),
        {
            assert(files@.take(i + 1).drop_last() == files@.take(i as int));
            let file = &files[i];
            match fresh.hash_file(file.name.as_str(), file.bytes.as_slice()) {
                Ok(v) => {
                    fresh.insert(file.name.clone(), v);
                },
                Err(_) => {},
            }
        }
        assert(files@.take(files@.len() as int) == files@);
        self.entries = fresh.entries;
        proof {
            contents_len(pairs_of(self.entries@));
        }
        self.entries.len()
    }

    /// The reference closest to an image, over every variant of both.
    pub fn best_match(&self, hash: &ImageVariants) -> (r: Option<MatchResult>)
        requires
            self.wf(),
        ensures
            is_best_match(self@, hash@, match_view(r)),
    {
        let ghost pairs = pairs_of(self.entries@);
        if self.entries.len() == 0 {
            assert forall|name: Seq<char>| !self@.contains_key(name) by {
                assert(forall|i: int| !holds_at(pairs, name, i));
            }
            return None;
        }
        let mut best: usize = 0;
        let mut distance: u32 = hash.min_dist(&self.entries[0].variants);
        for i in 1..self.entries.len()
            invariant
                pairs == pairs_of(self.entries@),
                0 <= best < i <= self.entries@.len(),
                distance == least_distance(hash@.all, pairs[best as int].1.all),
                forall|k: int|
                    0 <= k < best ==> distance < least_distance(
                        hash@.all,
                        (#[trigger] pairs[k]).1.all,
                    ),
                forall|k: int|
                    0 <= k < i ==> distance <= least_distance(
                        hash@.all,
                        (#[trigger] pairs[k]).1.all,
                    ),
        {
            let d = hash.min_dist(&self.entries[i].variants);
            assert(pairs[i as int].1 == self.entries@[i as int].variants@);
            if d < distance {
                distance = d;
                best = i;
            }
        }
        let m = MatchResult { filename: self.entries[best].name.clone(), distance };
        proof {
            contents_at(pairs, best as int);
            assert forall|name: Seq<char>| #[trigger] self@.contains_key(name) implies {
                let d = least_distance(hash@.all, self@[name].all);
                distance < d || (distance == d && (name == m.filename@ || text_before(
                    m.filename@,
                    name,
                )))
            } by {
                let k = choose|k: int| holds_at(pairs, name, k);
                contents_at(pairs, k);
            }
        }
        Some(m)
    }

    /// Adds a reference under a name, or replaces the one that had it. Nothing
    /// changes where the name is not safe or the image cannot be hashed.
    pub fn add_from_bytes(&mut self, filename: &str, bytes: &[u8]) -> (r: Result<(), AddError>)
        requires
            old(self).wf(),
        ensures
            final(self).wf(),
            match r {
                Ok(()) => safe_filename(filename@) && (hashed(
                    bytes@,
                    format_extension(filename@),
                ) matches Some(v) && final(self)@ == old(self)@.insert(filename@, v)),
                Err(AddError::InvalidFilename) => !safe_filename(filename@) && final(self)@ == old(
                    self,
                )@,
                Err(AddError::Image(_)) => safe_filename(filename@) && hashed(
                    bytes@,
                    format_extension(filename@),
                ) is None && final(self)@ == old(self)@,
            },
    {
        if !is_safe_filename(filename) {
            return Err(AddError::InvalidFilename);
        }
        match self.hash_file(filename, bytes) {
            Ok(v) => {
                self.insert(filename.to_owned(), v);
                Ok(())
            },
            Err(e) => Err(AddError::Image(e)),
        }
    }

    /// Removes a reference and tells whether there was one of that name. A name
    /// that is not safe names none.
    pub fn remove(&mut self, filename: &str) -> (r: bool)
        requires
            old(self).wf(),
        ensures
            final(self).wf(),
            r == (safe_filename(filename@) && old(self)@.contains_key(filename@)),
            final(self)@ == if safe_filename(filename@) {
                old(self)@.remove(filename@)
            } else {
                old(self)@
            },
    {
        if !is_safe_filename(filename) {
            return false;
        }
        let at = self.position(filename);
        let ghost pairs = pairs_of(self.entries@);
        if at < self.entries.len() && text::same_text(self.entries[at].name.as_str(), filename) {
            proof {
                contents_at(pairs, at as int);
                contents_of_remove(pairs, at as int);
            }
            self.entries.remove(at);
            assert(pairs_of(self.entries@) =~= pairs.remove(at as int));
            true
        } else {
            assert(!self@.contains_key(filename@)) by {
                if self@.contains_key(filename@) {
                    let i = choose|i: int| holds_at(pairs, filename@, i);
                    text::text_before_itself(filename@);
                    assert(pairs[i].0 == filename@);
                }
            }
            assert(self@ =~= old(self)@.remove(filename@));
            false
        }
    }

    /// How many references there are.
    pub fn len(&self) -> (r: usize)
        requires
            self.wf(),
        ensures
            r == self@.len(),
            self@.dom().finite(),
    {
        proof {
            contents_len(pairs_of(self.entries@));
        }
        self.entries.len()
    }

    /// The names of the references, in order.
    pub fn list(&self) -> (r: Vec<String>)
        requires
            self.wf(),
        ensures
            texts(r@).to_set() == self@.dom(),
            r@.len() == self@.len(),
            forall|i: int, j: int|
                0 <= i < j < r@.len() ==> text_before(#[trigger] r@[i]@, #[trigger] r@[j]@),
    {
        let ghost pairs = pairs_of(self.entries@);
        let mut names: Vec<String> = Vec::new();
        for i in 0..self.entries.len()
            invariant
                pairs == pairs_of(self.entries@),
                names@.len() == i,
                forall|k: int| 0 <= k < i ==> (#[trigger] names@[k])@ == pairs[k].0,
        {
            names.push(self.entries[i].name.clone());
        }
        proof {
            contents_len(pairs);
            assert(texts(names@) =~= pairs.map_values(|p: (Seq<char>, Variants)| p.0));
        }
        names
    }
}

/// A distance is the same both ways.
pub proof fn hamming_is_symmetric(a: Seq<u8>, b: Seq<u8>)
    ensures
        hamming(a, b) == hamming(b, a),
    decreases a.len(),
{
    if a.len() > 0 && b.len() > 0 {
        let x = a[0];
        let y = b[0];
        assert(x ^ y == y ^ x) by (bit_vector);
        hamming_is_symmetric(a.drop_first(), b.drop_first());
    }
}

/// A hash is at no distance from itself.
pub proof fn hamming_to_itself(a: Seq<u8>)
    ensures
        hamming(a, a) == 0,
    decreases a.len(),
{
    if a.len() > 0 {
        let x = a[0];
        assert(x ^ x == 0) by (bit_vector);
        hamming_to_itself(a.drop_first());
    }
}

proof fn no_bits_only_in_zero(b: nat)
    requires
        images::bits_set(b) == 0,
    ensures
        b == 0,
    decreases b,
{
    if b != 0 {
        no_bits_only_in_zero(b / 2);
    }
}

/// Two hashes of one length at no distance from each other are the same.
pub proof fn hamming_tells_hashes_apart(a: Seq<u8>, b: Seq<u8>)
    requires
        a.len() == b.len(),
        hamming(a, b) == 0,
    ensures
        a == b,
    decreases a.len(),
{
    if a.len() > 0 {
        let x = a[0];
        let y = b[0];
        no_bits_only_in_zero((x ^ y) as nat);
        assert(x ^ y == 0 ==> x == y) by (bit_vector);
        hamming_tells_hashes_apart(a.drop_first(), b.drop_first());
        assert(a =~= seq![a[0]] + a.drop_first());
        assert(b =~= seq![b[0]] + b.drop_first());
    } else {
        assert(a =~= b);
    }
}

proof fn nearest_is_least(a: Seq<u8>, others: Seq<Seq<u8>>)
    ensures
        forall|j: int| 0 <= j < others.len() ==> nearest(a, others) <= hamming(a, #[trigger] others[j]),
        nearest(a, others) == u32::MAX || exists|j: int|
            0 <= j < others.len() && nearest(a, others) == hamming(a, #[trigger] others[j]),
    decreases others.len(),
{
    if others.len() > 0 {
        let init = others.drop_last();
        nearest_is_least(a, init);
        assert forall|j: int| 0 <= j < others.len() implies nearest(a, others) <= hamming(
            a,
            #[trigger] others[j],
        ) by {
            if j < init.len() {
                assert(init[j] == others[j]);
            }
        }
        if nearest(a, others) == hamming(a, others.last()) {
            assert(others[others.len() - 1] == others.last());
        } else if nearest(a, others) != u32::MAX {
            let j = choose|j: int|
                0 <= j < init.len() && nearest(a, init) == hamming(a, #[trigger] init[j]);
            assert(others[j] == init[j]);
        }
    }
}

/// `d` is the distance of some pair of hashes of two lists.
pub open spec fn some_pair_at(ones: Seq<Seq<u8>>, others: Seq<Seq<u8>>, d: nat) -> bool {
    exists|i: int, j: int|
        0 <= i < ones.len() && 0 <= j < others.len() && hamming(
            #[trigger] ones[i],
            #[trigger] others[j],
        ) == d
}

/// The distance of two images is the least distance between a variant of one
/// and a variant of the other.
pub proof fn least_distance_is_least(ones: Seq<Seq<u8>>, others: Seq<Seq<u8>>)
    ensures
        forall|i: int, j: int|
            0 <= i < ones.len() && 0 <= j < others.len() ==> least_distance(ones, others)
                <= hamming(#[trigger] ones[i], #[trigger] others[j]),
        least_distance(ones, others) == u32::MAX || some_pair_at(
            ones,
            others,
            least_distance(ones, others),
        ),
    decreases ones.len(),
{
    if ones.len() > 0 {
        let init = ones.drop_last();
        least_distance_is_least(init, others);
        nearest_is_least(ones.last(), others);
        assert forall|i: int, j: int|
            0 <= i < ones.len() && 0 <= j < others.len() implies least_distance(ones, others)
            <= hamming(#[trigger] ones[i], #[trigger] others[j]) by {
            if i < init.len() {
                assert(init[i] == ones[i]);
            }
        }
        let d = least_distance(ones, others);
        if d != u32::MAX {
            if d == nearest(ones.last(), others) {
                let j = choose|j: int|
                    0 <= j < others.len() && nearest(ones.last(), others) == hamming(
                        ones.last(),
                        #[trigger] others[j],
                    );
                assert(hamming(ones[ones.len() - 1], others[j]) == d);
            } else {
                let (i, j) = choose|i: int, j: int|
                    0 <= i < init.len() && 0 <= j < others.len() && hamming(
                        #[trigger] init[i],
                        #[trigger] others[j],
                    ) == d;
                assert(hamming(ones[i], others[j]) == d);
            }
        }
    }
}

/// The distance of two images is the same both ways.
pub proof fn least_distance_is_symmetric(ones: Seq<Seq<u8>>, others: Seq<Seq<u8>>)
    ensures
        least_distance(ones, others) == least_distance(others, ones),
{
    least_distance_is_least(ones, others);
    least_distance_is_least(others, ones);
    let d = least_distance(ones, others);
    let e = least_distance(others, ones);
    distance_is_bounded(ones, others);
    distance_is_bounded(others, ones);
    if d != u32::MAX {
        let (i, j) = choose|i: int, j: int|
            0 <= i < ones.len() && 0 <= j < others.len() && hamming(
                #[trigger] ones[i],
                #[trigger] others[j],
            ) == d;
        hamming_is_symmetric(ones[i], others[j]);
        assert(hamming(others[j], ones[i]) == d);
    }
    if e != u32::MAX {
        let (j, i) = choose|j: int, i: int|
            0 <= j < others.len() && 0 <= i < ones.len() && hamming(
                #[trigger] others[j],
                #[trigger] ones[i],
            ) == e;
        hamming_is_symmetric(others[j], ones[i]);
        assert(hamming(ones[i], others[j]) == e);
    }
}

proof fn distance_is_bounded(ones: Seq<Seq<u8>>, others: Seq<Seq<u8>>)
    ensures
        least_distance(ones, others) <= u32::MAX,
    decreases ones.len(),
{
    if ones.len() > 0 {
        distance_is_bounded(ones.drop_last(), others);
    }
}

/// An image is at no distance from itself: a repost of a reference matches it.
pub proof fn image_matches_itself(v: Variants)
    requires
        v.all.len() > 0,
    ensures
        least_distance(v.all, v.all) == 0,
{
    least_distance_is_least(v.all, v.all);
    hamming_to_itself(v.all[0]);
}

/// A reference that was removed matches nothing any more.
pub proof fn removed_references_do_not_match(
    references: Map<Seq<char>, Variants>,
    filename: Seq<char>,
    hash: Variants,
    best: Option<(Seq<char>, u32)>,
)
    requires
        is_best_match(references.remove(filename), hash, best),
    ensures
        best matches Some((name, _)) ==> name != filename && references.contains_key(name),
{
}

/// An image is hashed by itself and by every one of its crops, each as a grid of 16 by
/// 16, and the hash of the image itself comes first.
pub proof fn images_are_hashed_with_all_their_crops(pixels: Seq<u8>)
    ensures
        ({
            let v = variants_of(pixels);
            let regions = crop_regions(pixels_size(pixels).0 as nat, pixels_size(pixels).1 as nat);
            &&& v.primary == gradient_hash(pixels, 16, 16)
            &&& v.all.len() == 1 + regions.len()
            &&& v.all[0] == v.primary
            &&& forall|i: int|
                0 <= i < regions.len() ==> v.all[1 + i] == gradient_hash(
                    cropped_pixels(
                        pixels,
                        (#[trigger] regions[i]).x,
                        regions[i].y,
                        regions[i].width,
                        regions[i].height,
                    ),
                    16,
                    16,
                )
        }),
{
}

/// What can be decoded within 128 MiB and has pixels is hashed, and nothing else is.
pub proof fn what_can_be_decoded_is_hashed(bytes: Seq<u8>, extension: Seq<char>)
    ensures
        match decoded_pixels(bytes, extension, 134217728) {
            Some(pixels) => if pixels_size(pixels).0 != 0 && pixels_size(pixels).1 != 0 {
                hashed(bytes, extension) == Some(variants_of(pixels))
            } else {
                hashed(bytes, extension) is None
            },
            None => hashed(bytes, extension) is None,
        },
{
}

/// A repost that keeps exactly what a crop of a reference keeps matches the reference at
/// no distance, and so does the reference against the repost.
pub proof fn cropped_reposts_match(reference: Seq<u8>, repost: Seq<u8>, i: int)
    requires
        ({
            let regions = crop_regions(
                pixels_size(reference).0 as nat,
                pixels_size(reference).1 as nat,
            );
            0 <= i < regions.len() && repost == cropped_pixels(
                reference,
                regions[i].x,
                regions[i].y,
                regions[i].width,
                regions[i].height,
            )
        }),
    ensures
        least_distance(variants_of(repost).all, variants_of(reference).all) == 0,
        least_distance(variants_of(reference).all, variants_of(repost).all) == 0,
{
    let ones = variants_of(repost).all;
    let others = variants_of(reference).all;
    images_are_hashed_with_all_their_crops(reference);
    images_are_hashed_with_all_their_crops(repost);
    assert(ones[0] == others[1 + i]);
    hamming_to_itself(ones[0]);
    least_distance_is_least(ones, others);
    assert(hamming(ones[0], others[1 + i]) == 0);
    least_distance_is_symmetric(ones, others);
}

/// The best match is at the least distance: no hash of any reference is closer to any
/// hash of the image, and some pair is at that distance, unless there is none to
/// compare. There is no match only where there are no references.
pub proof fn best_matches_are_nearest(
    references: Map<Seq<char>, Variants>,
    hash: Variants,
    best: Option<(Seq<char>, u32)>,
)
    requires
        is_best_match(references, hash, best),
    ensures
        best is None <==> references.dom() =~= Set::empty(),
        best matches Some((filename, distance)) ==> {
            &&& references.contains_key(filename)
            &&& forall|name: Seq<char>, i: int, j: int|
                #![trigger references[name].all[j], hash.all[i]]
                references.contains_key(name) && 0 <= i < hash.all.len() && 0 <= j
                    < references[name].all.len() ==> distance <= hamming(
                    hash.all[i],
                    references[name].all[j],
                )
            &&& distance == u32::MAX || exists|i: int, j: int|
                0 <= i < hash.all.len() && 0 <= j < references[filename].all.len() && hamming(
                    #[trigger] hash.all[i],
                    #[trigger] references[filename].all[j],
                ) == distance
        },
{
    if let Some((filename, distance)) = best {
        assert(references.dom().contains(filename));
        assert forall|name: Seq<char>, i: int, j: int|
            #![trigger references[name].all[j], hash.all[i]]
            references.contains_key(name) && 0 <= i < hash.all.len() && 0 <= j
                < references[name].all.len() implies distance <= hamming(
            hash.all[i],
            references[name].all[j],
        ) by {
            least_distance_is_least(hash.all, references[name].all);
        }
        least_distance_is_least(hash.all, references[filename].all);
    } else {
        assert(references.dom() =~= Set::empty());
    }
}

#[verifier::opaque]
spec fn file_hash(file: ReferenceFile) -> Option<Variants> {
    hashed(file.bytes@, format_extension(file.name@))
}

spec fn is_image_at(files: Seq<ReferenceFile>, name: Seq<char>, i: int) -> bool {
    0 <= i < files.len() && files[i].name@ == name && file_hash(files[i]) is Some
}

proof fn loaded_step(files: Seq<ReferenceFile>)
    requires
        files.len() > 0,
    ensures
        loaded(files) == match file_hash(files.last()) {
            Some(v) => loaded(files.drop_last()).insert(files.last().name@, v),
            None => loaded(files.drop_last()),
        },
{
    reveal(file_hash);
}

proof fn loaded_files(files: Seq<ReferenceFile>, name: Seq<char>, at: int)
    ensures
        loaded(files).contains_key(name) <==> exists|i: int| #[trigger] is_image_at(files, name, i),
        is_image_at(files, name, at) && (forall|k: int|
            at < k < files.len() ==> (#[trigger] files[k]).name@ != name) ==> loaded(files)[name]
            == file_hash(files[at])->0,
    decreases files.len(),
{
    if files.len() > 0 {
        let init = files.drop_last();
        let last = files.len() - 1;
        loaded_step(files);
        loaded_files(init, name, at);
        if loaded(init).contains_key(name) {
            let i = choose|i: int| #[trigger] is_image_at(init, name, i);
            assert(is_image_at(files, name, i));
        }
        if files.last().name@ == name && file_hash(files.last()) is Some {
            assert(is_image_at(files, name, last));
        }
        if exists|i: int| #[trigger] is_image_at(files, name, i) {
            let i = choose|i: int| #[trigger] is_image_at(files, name, i);
            if i < last {
                assert(is_image_at(init, name, i));
            }
        }
        if is_image_at(files, name, at) && (forall|k: int|
            at < k < files.len() ==> (#[trigger] files[k]).name@ != name) {
            if at < last {
                assert(files[last].name@ != name);
                assert(is_image_at(init, name, at));
                assert forall|k: int| at < k < init.len() implies (#[trigger] init[k]).name@
                    != name by {
                    assert(init[k] == files[k]);
                }
            }
        }
    }
}

/// Every image file of the directory is a reference under its own name, the last one of
/// several with one name.
pub proof fn every_image_file_is_loaded(files: Seq<ReferenceFile>, at: int, v: Variants)
    requires
        0 <= at < files.len(),
        hashed(files[at].bytes@, format_extension(files[at].name@)) == Some(v),
    ensures
        loaded(files).contains_key(files[at].name@),
        (forall|k: int| at < k < files.len() ==> (#[trigger] files[k]).name@ != files[at].name@)
            ==> loaded(files)[files[at].name@] == v,
{
    assert(file_hash(files[at]) == Some(v)) by {
        reveal(file_hash);
    }
    let name = files[at].name@;
    loaded_files(files, name, at);
    assert(is_image_at(files, name, at));
}

/// Nothing is a reference but what a file of the directory holds under its name.
pub proof fn only_image_files_are_loaded(files: Seq<ReferenceFile>, name: Seq<char>)
    requires
        loaded(files).contains_key(name),
    ensures
        exists|i: int|
            0 <= i < files.len() && (#[trigger] files[i]).name@ == name && hashed(
                files[i].bytes@,
                format_extension(name),
            ) is Some,
{
    loaded_files(files, name, 0);
    let i = choose|i: int| #[trigger] is_image_at(files, name, i);
    assert(hashed(files[i].bytes@, format_extension(name)) is Some) by {
        reveal(file_hash);
    }
    assert(files[i].name@ == name);
}

/// A name that could lead out of the directory is refused, and every other name is not:
/// one without slashes and without a null is safe unless it is empty or made of one or
/// two dots.
pub proof fn names_that_lead_away_are_refused(name: Seq<char>, a: Seq<char>, b: Seq<char>)
    ensures
        !safe_filename(a + seq!['/'] + b),
        !safe_filename(a + seq!['\\'] + b),
        !safe_filename(a + seq!['\0'] + b),
        !safe_filename(Seq::empty()),
        !safe_filename(seq!['.']),
        !safe_filename(seq!['.', '.']),
        (forall|i: int|
            0 <= i < name.len() ==> (#[trigger] name[i]) != '/' && name[i] != '\\' && name[i]
                != '\0') && name.len() > 0 && name != seq!['.'] && name != seq!['.', '.']
            ==> safe_filename(name),
{
    reveal_strlit(".");
    reveal_strlit("..");
    assert("."@ =~= seq!['.']);
    assert(".."@ =~= seq!['.', '.']);
    assert((a + seq!['/'] + b)[a.len() as int] == '/');
    assert((a + seq!['\\'] + b)[a.len() as int] == '\\');
    assert((a + seq!['\0'] + b)[a.len() as int] == '\0');
}

/// A distance is the sum of the distances of the parts, and two hashes that differ in
/// one bit of one byte are one apart.
pub proof fn distances_add_up(a: Seq<u8>, b: Seq<u8>, c: Seq<u8>, d: Seq<u8>, x: u8, bit: u8)
    requires
        a.len() == b.len(),
        bit < 8,
    ensures
        hamming(a + c, b + d) == hamming(a, b) + hamming(c, d),
        hamming(seq![x], seq![x ^ (1u8 << bit)]) == 1,
        hamming(seq![0u8], seq![0xffu8]) == 8,
    decreases a.len(),
{
    if a.len() == 0 {
        assert(a + c =~= c);
        assert(b + d =~= d);
    } else {
        distances_add_up(a.drop_first(), b.drop_first(), c, d, x, bit);
        assert((a + c).drop_first() =~= a.drop_first() + c);
        assert((b + d).drop_first() =~= b.drop_first() + d);
    }
    let y = x ^ (1u8 << bit);
    assert(x ^ y == 1u8 << bit) by (bit_vector)
        requires
            y == x ^ (1u8 << bit),
    ;
    assert(bit == 0 ==> 1u8 << bit == 1) by (bit_vector);
    assert(bit == 1 ==> 1u8 << bit == 2) by (bit_vector);
    assert(bit == 2 ==> 1u8 << bit == 4) by (bit_vector);
    assert(bit == 3 ==> 1u8 << bit == 8) by (bit_vector);
    assert(bit == 4 ==> 1u8 << bit == 16) by (bit_vector);
    assert(bit == 5 ==> 1u8 << bit == 32) by (bit_vector);
    assert(bit == 6 ==> 1u8 << bit == 64) by (bit_vector);
    assert(bit == 7 ==> 1u8 << bit == 128) by (bit_vector);
    assert(0u8 ^ 0xffu8 == 0xff) by (bit_vector);
    reveal_with_fuel(images::bits_set, 9);
    let one = seq![x];
    let other = seq![y];
    assert(hamming(one.drop_first(), other.drop_first()) == 0);
    assert(hamming(seq![0u8].drop_first(), seq![0xffu8].drop_first()) == 0);
}

/// The extension of a file name tells the format: what stands behind its last dot. A name
/// without a dot tells nothing.
pub proof fn extensions_tell_the_format(stem: Seq<char>, extension: Seq<char>)
    requires
        stem.len() > 0,
        !stem.contains('/'),
        extension.len() > 0,
        !extension.contains('/'),
        !extension.contains('.'),
    ensures
        format_extension(stem + seq!['.'] + extension) == extension,
        format_extension(extension).len() == 0,
{
    let name = stem + seq!['.'] + extension;
    assert(!name.contains('/')) by {
        if name.contains('/') {
            let k = choose|k: int| 0 <= k < name.len() && name[k] == '/';
            if k < stem.len() {
                assert(stem[k] == '/');
            } else if k > stem.len() {
                assert(extension[k - stem.len() - 1] == '/');
            }
        }
    }
    if extension == seq!['.'] || extension == seq!['.', '.'] {
        assert(extension.contains(extension[0]));
    }
    paths::file_names_stand_behind_the_last_slash(stem, name);
    paths::file_names_stand_behind_the_last_slash(stem, extension);
    paths::extensions_stand_behind_the_last_dot(stem, extension);
}

} // verus!
