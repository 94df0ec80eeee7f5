//! Which parts of an image are hashed besides the whole of it.
//!
//! Sizes are scaled as single-precision floating point does it, bit by bit: a
//! hash of a crop that is one pixel off is another hash.
use vstd::prelude::*;

verus! {

/// A rectangle of an image.
#[derive(Debug, Clone, Copy, PartialEq, Eq, Structural)]
pub struct Region {
    pub x: u32,
    pub y: u32,
    pub width: u32,
    pub height: u32,
}

/// The share of an extent that a crop keeps.
#[derive(Debug, Clone, Copy, PartialEq, Eq, Structural)]
pub enum Ratio {
    /// All of it.
    Whole,
    /// 0.85
    Slight,
    /// 0.7
    Mild,
    /// 0.55
    Strong,
    /// 0.5
    Half,
    /// 0.4
    Heavy,
    /// 0.33
    Third,
}

/// The ratio in single precision: numerator and denominator of the nearest
/// fraction with a 24-bit numerator and a power of two below.
pub open spec fn fraction(ratio: Ratio) -> (nat, nat) {
    match ratio {
        Ratio::Whole => (1, 1),
        Ratio::Slight => (7130317, 8388608),
        Ratio::Mild => (11744051, 16777216),
        Ratio::Strong => (9227469, 16777216),
        Ratio::Half => (1, 2),
        Ratio::Heavy => (13421773, 33554432),
        Ratio::Third => (11072963, 33554432),
    }
}

/// What a value of `p` is counted in so that 24 bits suffice: the least power of
/// two that leaves a quotient below 2^24.
pub open spec fn precision_unit(p: nat) -> nat
    decreases p,
{
    if p < 0x100_0000 {
        1
    } else {
        2 * precision_unit(p / 2)
    }
}

/// `p` rounded to 24 significant bits: to the nearest such value, and to the one
/// with an even last bit where two are equally near.
pub open spec fn single_precision(p: nat) -> nat {
    let unit = precision_unit(p);
    let quotient = p / unit;
    let rest = p % unit;
    if 2 * rest > unit || (2 * rest == unit && quotient % 2 == 1) {
        (quotient + 1) * unit
    } else {
        quotient * unit
    }
}

/// How much of `extent` a crop by `ratio` keeps: the single-precision product of
/// the two, cut to an integer, but at least 1 and at most all of it.
pub open spec fn kept(extent: nat, ratio: Ratio) -> nat {
    let product = single_precision(single_precision(extent) * fraction(ratio).0);
    let scaled = product / fraction(ratio).1;
    if scaled < 1 {
        1
    } else if scaled > extent {
        extent
    } else {
        scaled
    }
}

/// The crop of this size in the middle of an image.
pub open spec fn centered(width: nat, height: nat, kept_width: nat, kept_height: nat) -> Region {
    Region {
        x: ((width - kept_width) / 2) as u32,
        y: ((height - kept_height) / 2) as u32,
        width: kept_width as u32,
        height: kept_height as u32,
    }
}

/// The crops of this size in the four corners of an image.
pub open spec fn cornered(width: nat, height: nat, kept_width: nat, kept_height: nat) -> Seq<
    Region,
> {
    let right = (width - kept_width) as u32;
    let bottom = (height - kept_height) as u32;
    let kept_width = kept_width as u32;
    let kept_height = kept_height as u32;
    seq![
        Region { x: 0, y: 0, width: kept_width, height: kept_height },
        Region { x: right, y: 0, width: kept_width, height: kept_height },
        Region { x: 0, y: bottom, width: kept_width, height: kept_height },
        Region { x: right, y: bottom, width: kept_width, height: kept_height },
    ]
}

/// The crops of one pair of ratios: the one in the middle and, if asked for,
/// those in the corners.
pub open spec fn crops_of(
    width: nat,
    height: nat,
    width_ratio: Ratio,
    height_ratio: Ratio,
    corners: bool,
) -> Seq<Region> {
    let kept_width = kept(width, width_ratio);
    let kept_height = kept(height, height_ratio);
    seq![centered(width, height, kept_width, kept_height)] + if corners {
        cornered(width, height, kept_width, kept_height)
    } else {
        Seq::empty()
    }
}

/// The crops of an image: middle and corners at two mild ratios, and the middle
/// alone at stronger ones and as strips.
pub open spec fn crop_regions(width: nat, height: nat) -> Seq<Region> {
    crops_of(width, height, Ratio::Slight, Ratio::Slight, true) + crops_of(width, height, Ratio::Mild, Ratio::Mild, true)
        + crops_of(width, height, Ratio::Strong, Ratio::Strong, false) + crops_of(
        width,
        height,
        Ratio::Heavy,
        Ratio::Heavy,
        false,
    ) + crops_of(width, height, Ratio::Third, Ratio::Whole, false) + crops_of(width, height, Ratio::Whole, Ratio::Third, false)
        + crops_of(width, height, Ratio::Half, Ratio::Whole, false) + crops_of(width, height, Ratio::Whole, Ratio::Half, false)
}

/// The region lies inside an image of this size and is not empty.
pub open spec fn inside(r: Region, width: nat, height: nat) -> bool {
    &&& 0 < r.width
    &&& 0 < r.height
    &&& r.x + r.width <= width
    &&& r.y + r.height <= height
}

proof fn unit_is_small(p: nat)
    ensures
        precision_unit(p) > 0,
        p >= 0x100_0000 ==> precision_unit(p) * 0x80_0000 <= p,
    decreases p,
{
    if p >= 0x100_0000 {
        unit_is_small(p / 2);
    }
}

fn unit_of(p: u64) -> (r: u64)
    ensures
        r == precision_unit(p as nat),
        0 < r,
        p >= 0x100_0000 ==> r * 0x80_0000 <= p,
    decreases p,
{
    if p < 0x100_0000 {
        1
    } else {
        proof {
            unit_is_small((p / 2) as nat);
            unit_is_small(p as nat);
        }
        2 * unit_of(p / 2)
    }
}

/// Rounds to 24 significant bits.
fn round_to_single(p: u64) -> (r: u64)
    requires
        p <= 0x200_0000_0000_0000,
    ensures
        r == single_precision(p as nat),
        r <= 2 * p,
{
    let unit = unit_of(p);
    let quotient = p / unit;
    let rest = p % unit;
    assert(p == quotient * unit + rest && 0 <= rest < unit && quotient <= p) by (nonlinear_arith)
        requires
            unit > 0,
            quotient == p / unit,
            rest == p % unit,
    ;
    assert((quotient + 1) * unit == quotient * unit + unit) by (nonlinear_arith);
    if rest > unit - rest || (rest == unit - rest && quotient % 2 == 1) {
        assert(unit <= p);
        (quotient + 1) * unit
    } else {
        quotient * unit
    }
}

fn fraction_of(ratio: Ratio) -> (r: (u64, u64))
    ensures
        (r.0 as nat, r.1 as nat) == fraction(ratio),
        0 < r.0 <= 0x100_0000,
        0 < r.1,
{
    match ratio {
        Ratio::Whole => (1, 1),
        Ratio::Slight => (7130317, 8388608),
        Ratio::Mild => (11744051, 16777216),
        Ratio::Strong => (9227469, 16777216),
        Ratio::Half => (1, 2),
        Ratio::Heavy => (13421773, 33554432),
        Ratio::Third => (11072963, 33554432),
    }
}

/// How much of an extent a crop keeps.
pub fn kept_extent(extent: u32, ratio: Ratio) -> (r: u32)
    requires
        extent > 0,
    ensures
        r == kept(extent as nat, ratio),
        1 <= r <= extent,
{
    let (numerator, denominator) = fraction_of(ratio);
    let rounded: u64 = round_to_single(extent as u64);
    assert(rounded * numerator <= 0x2_0000_0000 * 0x100_0000) by (nonlinear_arith)
        requires
            rounded <= 0x2_0000_0000,
            numerator <= 0x100_0000,
    ;
    let product: u64 = round_to_single(rounded * numerator);
    let scaled: u64 = product / denominator;
    if scaled < 1 {
        1
    } else if scaled > extent as u64 {
        extent
    } else {
        scaled as u32
    }
}

/// Appends the crop in the middle of the image and, if asked for, those in its
/// corners.
fn push_crops(
    width: u32,
    height: u32,
    width_ratio: Ratio,
    height_ratio: Ratio,
    corners: bool,
    out: &mut Vec<Region>,
)
    requires
        width > 0,
        height > 0,
    ensures
        final(out)@ == old(out)@ + crops_of(
            width as nat,
            height as nat,
            width_ratio,
            height_ratio,
            corners,
        ),
{
    let kept_width = kept_extent(width, width_ratio);
    let kept_height = kept_extent(height, height_ratio);
    let right: u32 = width - kept_width;
    let bottom: u32 = height - kept_height;
    out.push(Region { x: right / 2, y: bottom / 2, width: kept_width, height: kept_height });
    if corners {
        out.push(Region { x: 0, y: 0, width: kept_width, height: kept_height });
        out.push(Region { x: right, y: 0, width: kept_width, height: kept_height });
        out.push(Region { x: 0, y: bottom, width: kept_width, height: kept_height });
        out.push(Region { x: right, y: bottom, width: kept_width, height: kept_height });
    }
    assert(out@ == old(out)@ + crops_of(
        width as nat,
        height as nat,
        width_ratio,
        height_ratio,
        corners,
    ));
}

/// The crops of an image of this size that are hashed besides the whole image.
pub fn crop_variants(width: u32, height: u32) -> (r: Vec<Region>)
    requires
        width > 0,
        height > 0,
    ensures
        r@ == crop_regions(width as nat, height as nat),
{
    let mut out: Vec<Region> = Vec::new();
    push_crops(width, height, Ratio::Slight, Ratio::Slight, true, &mut out);
    push_crops(width, height, Ratio::Mild, Ratio::Mild, true, &mut out);
    push_crops(width, height, Ratio::Strong, Ratio::Strong, false, &mut out);
    push_crops(width, height, Ratio::Heavy, Ratio::Heavy, false, &mut out);
    push_crops(width, height, Ratio::Third, Ratio::Whole, false, &mut out);
    push_crops(width, height, Ratio::Whole, Ratio::Third, false, &mut out);
    push_crops(width, height, Ratio::Half, Ratio::Whole, false, &mut out);
    push_crops(width, height, Ratio::Whole, Ratio::Half, false, &mut out);
    out
}

/// All of these regions lie inside an image of this size.
pub open spec fn all_inside(regions: Seq<Region>, width: nat, height: nat) -> bool {
    forall|i: int| 0 <= i < regions.len() ==> inside(#[trigger] regions[i], width, height)
}

proof fn crops_of_lie_inside(
    width: u32,
    height: u32,
    width_ratio: Ratio,
    height_ratio: Ratio,
    corners: bool,
)
    requires
        width > 0,
        height > 0,
    ensures
        ({
            let crops = crops_of(width as nat, height as nat, width_ratio, height_ratio, corners);
            crops.len() == (if corners { 5nat } else { 1nat }) && all_inside(
                crops,
                width as nat,
                height as nat,
            )
        }),
{
}

/// Every image has sixteen crops, and each lies inside it.
pub proof fn crops_lie_inside(width: u32, height: u32)
    requires
        width > 0,
        height > 0,
    ensures
        crop_regions(width as nat, height as nat).len() == 16,
        all_inside(crop_regions(width as nat, height as nat), width as nat, height as nat),
{
    let w = width as nat;
    let h = height as nat;
    crops_of_lie_inside(width, height, Ratio::Slight, Ratio::Slight, true);
    crops_of_lie_inside(width, height, Ratio::Mild, Ratio::Mild, true);
    crops_of_lie_inside(width, height, Ratio::Strong, Ratio::Strong, false);
    crops_of_lie_inside(width, height, Ratio::Heavy, Ratio::Heavy, false);
    crops_of_lie_inside(width, height, Ratio::Third, Ratio::Whole, false);
    crops_of_lie_inside(width, height, Ratio::Whole, Ratio::Third, false);
    crops_of_lie_inside(width, height, Ratio::Half, Ratio::Whole, false);
    crops_of_lie_inside(width, height, Ratio::Whole, Ratio::Half, false);
    let a = crops_of(w, h, Ratio::Slight, Ratio::Slight, true);
    let b = crops_of(w, h, Ratio::Mild, Ratio::Mild, true);
    let c = crops_of(w, h, Ratio::Strong, Ratio::Strong, false);
    let d = crops_of(w, h, Ratio::Heavy, Ratio::Heavy, false);
    let e = crops_of(w, h, Ratio::Third, Ratio::Whole, false);
    let f = crops_of(w, h, Ratio::Whole, Ratio::Third, false);
    let g = crops_of(w, h, Ratio::Half, Ratio::Whole, false);
    let k = crops_of(w, h, Ratio::Whole, Ratio::Half, false);
    both_inside(a, b, w, h);
    both_inside(a + b, c, w, h);
    both_inside(a + b + c, d, w, h);
    both_inside(a + b + c + d, e, w, h);
    both_inside(a + b + c + d + e, f, w, h);
    both_inside(a + b + c + d + e + f, g, w, h);
    both_inside(a + b + c + d + e + f + g, k, w, h);
}

proof fn both_inside(a: Seq<Region>, b: Seq<Region>, width: nat, height: nat)
    requires
        all_inside(a, width, height),
        all_inside(b, width, height),
    ensures
        all_inside(a + b, width, height),
{
    assert forall|i: int| 0 <= i < (a + b).len() implies inside(
        #[trigger] (a + b)[i],
        width,
        height,
    ) by {
        if i < a.len() {
            assert((a + b)[i] == a[i]);
        } else {
            assert((a + b)[i] == b[i - a.len()]);
        }
    }
}

/// The part is a share of an extent, in hundredths: off by no more than a pixel and a
/// millionth of the extent, never none, and never more than all.
pub open spec fn is_share(part: int, hundredths: int, extent: int) -> bool {
    &&& 1 <= part <= extent
    &&& 100 * part <= hundredths * extent + 100 + extent / 10000
    &&& hundredths * extent <= 100 * part + 100 + extent / 10000
}

/// The region keeps these shares of an image's width and height.
pub open spec fn keeps(
    r: Region,
    width: u32,
    height: u32,
    width_hundredths: int,
    height_hundredths: int,
) -> bool {
    &&& is_share(r.width as int, width_hundredths, width as int)
    &&& is_share(r.height as int, height_hundredths, height as int)
}

/// The region lies in the middle of an image: as far from the left as from the right,
/// and as far from the top as from the bottom, but for a pixel.
pub open spec fn in_the_middle(r: Region, width: u32, height: u32) -> bool {
    &&& 0 <= width - r.width - 2 * r.x <= 1
    &&& 0 <= height - r.height - 2 * r.y <= 1
}

proof fn rounding_is_slight(p: nat)
    ensures
        0x100_0000 * (single_precision(p) - p) <= p,
        0x100_0000 * (p - single_precision(p)) <= p,
        p < 0x100_0000 ==> single_precision(p) == p,
{
    unit_is_small(p);
    let unit = precision_unit(p);
    let quotient = p / unit;
    let rest = p % unit;
    assert(p == quotient * unit + rest && 0 <= rest < unit) by (nonlinear_arith)
        requires
            unit > 0,
            quotient == p / unit,
            rest == p % unit,
    ;
    assert((quotient + 1) * unit == quotient * unit + unit) by (nonlinear_arith);
}

spec fn hundredths(ratio: Ratio) -> int {
    match ratio {
        Ratio::Whole => 100,
        Ratio::Slight => 85,
        Ratio::Mild => 70,
        Ratio::Strong => 55,
        Ratio::Half => 50,
        Ratio::Heavy => 40,
        Ratio::Third => 33,
    }
}

proof fn kept_is_a_share(extent: u32, ratio: Ratio)
    requires
        extent > 0,
    ensures
        is_share(
            kept(extent as nat, ratio) as int,
            hundredths(ratio),
            extent as int,
        ),
        extent < 0x100_0000 && ratio is Whole ==> kept(extent as nat, ratio) == extent,
        1 < extent < 0x100_0000 && ratio is Half ==> kept(extent as nat, ratio) == extent / 2,
{
    let e = extent as nat;
    rounding_is_slight(e);
    let s = single_precision(e);
    match ratio {
        Ratio::Whole => {
            assert(s * 1 == s);
            rounding_is_slight(s);
            let q = single_precision(s);
            assert(q / 1 == q);
            assert(kept(e, ratio) == if q < 1 {
                1
            } else if q > e {
                e
            } else {
                q
            });
        },
        Ratio::Slight => {
            rounding_is_slight(s * 7130317);
        },
        Ratio::Mild => {
            rounding_is_slight(s * 11744051);
        },
        Ratio::Strong => {
            rounding_is_slight(s * 9227469);
        },
        Ratio::Half => {
            rounding_is_slight(s * 1);
        },
        Ratio::Heavy => {
            rounding_is_slight(s * 13421773);
        },
        Ratio::Third => {
            rounding_is_slight(s * 11072963);
        },
    }
}

proof fn crops_by_position(width: u32, height: u32)
    requires
        width > 0,
        height > 0,
    ensures
        ({
            let w = width as nat;
            let h = height as nat;
            let r = crop_regions(w, h);
            &&& r.len() == 16
            &&& r.subrange(0, 5) == crops_of(w, h, Ratio::Slight, Ratio::Slight, true)
            &&& r.subrange(5, 10) == crops_of(w, h, Ratio::Mild, Ratio::Mild, true)
            &&& r[10] == crops_of(w, h, Ratio::Strong, Ratio::Strong, false)[0]
            &&& r[11] == crops_of(w, h, Ratio::Heavy, Ratio::Heavy, false)[0]
            &&& r[12] == crops_of(w, h, Ratio::Third, Ratio::Whole, false)[0]
            &&& r[13] == crops_of(w, h, Ratio::Whole, Ratio::Third, false)[0]
            &&& r[14] == crops_of(w, h, Ratio::Half, Ratio::Whole, false)[0]
            &&& r[15] == crops_of(w, h, Ratio::Whole, Ratio::Half, false)[0]
        }),
{
    let w = width as nat;
    let h = height as nat;
    let r = crop_regions(w, h);
    assert(r.subrange(0, 5) =~= crops_of(w, h, Ratio::Slight, Ratio::Slight, true));
    assert(r.subrange(5, 10) =~= crops_of(w, h, Ratio::Mild, Ratio::Mild, true));
}

proof fn one_middle(
    width: u32,
    height: u32,
    width_ratio: Ratio,
    height_ratio: Ratio,
    corners: bool,
)
    requires
        width > 0,
        height > 0,
    ensures
        ({
            let r = crops_of(width as nat, height as nat, width_ratio, height_ratio, corners)[0];
            &&& keeps(r, width, height, hundredths(width_ratio), hundredths(height_ratio))
            &&& in_the_middle(r, width, height)
            &&& width < 0x100_0000 && width_ratio is Whole ==> r.width == width
            &&& height < 0x100_0000 && height_ratio is Whole ==> r.height == height
        }),
{
    kept_is_a_share(width, width_ratio);
    kept_is_a_share(height, height_ratio);
}

proof fn four_corners(width: u32, height: u32, ratio: Ratio)
    requires
        width > 0,
        height > 0,
    ensures
        ({
            let r = crops_of(width as nat, height as nat, ratio, ratio, true);
            forall|i: int|
                1 <= i <= 4 ==> {
                    &&& keeps(#[trigger] r[i], width, height, hundredths(ratio), hundredths(ratio))
                    &&& r[i].x == (if i == 1 || i == 3 { 0int } else { width - r[i].width })
                    &&& r[i].y == (if i <= 2 { 0int } else { height - r[i].height })
                }
        }),
{
    kept_is_a_share(width, ratio);
    kept_is_a_share(height, ratio);
}

/// What is cropped from an image of any size: the middle and the four corners at 85 and
/// at 70 hundredths of both extents, the middle at 55 and at 40 hundredths of both, and
/// as strips that keep 33 or 50 hundredths of the one extent and all of the other, the
/// upright strips and the flat ones alike.
pub proof fn crops_keep_the_middle_and_the_corners(width: u32, height: u32)
    requires
        width > 0,
        height > 0,
    ensures
        ({
            let r = crop_regions(width as nat, height as nat);
            &&& r.len() == 16
            &&& keeps(r[0], width, height, 85, 85) && in_the_middle(r[0], width, height)
            &&& keeps(r[5], width, height, 70, 70) && in_the_middle(r[5], width, height)
            &&& keeps(r[10], width, height, 55, 55) && in_the_middle(r[10], width, height)
            &&& keeps(r[11], width, height, 40, 40) && in_the_middle(r[11], width, height)
            &&& keeps(r[12], width, height, 33, 100) && in_the_middle(r[12], width, height)
            &&& keeps(r[13], width, height, 100, 33) && in_the_middle(r[13], width, height)
            &&& keeps(r[14], width, height, 50, 100) && in_the_middle(r[14], width, height)
            &&& keeps(r[15], width, height, 100, 50) && in_the_middle(r[15], width, height)
            &&& forall|i: int|
                1 <= i <= 4 ==> {
                    &&& keeps(#[trigger] r[i], width, height, 85, 85)
                    &&& r[i].x == (if i == 1 || i == 3 { 0int } else { width - r[i].width })
                    &&& r[i].y == (if i <= 2 { 0int } else { height - r[i].height })
                }
            &&& forall|i: int|
                6 <= i <= 9 ==> {
                    &&& keeps(#[trigger] r[i], width, height, 70, 70)
                    &&& r[i].x == (if i == 6 || i == 8 { 0int } else { width - r[i].width })
                    &&& r[i].y == (if i <= 7 { 0int } else { height - r[i].height })
                }
            &&& height < 0x100_0000 ==> r[12].height == height && r[14].height == height
            &&& width < 0x100_0000 ==> r[13].width == width && r[15].width == width
        }),
{
    let w = width as nat;
    let h = height as nat;
    let r = crop_regions(w, h);
    crops_by_position(width, height);
    one_middle(width, height, Ratio::Slight, Ratio::Slight, true);
    one_middle(width, height, Ratio::Mild, Ratio::Mild, true);
    one_middle(width, height, Ratio::Strong, Ratio::Strong, false);
    one_middle(width, height, Ratio::Heavy, Ratio::Heavy, false);
    one_middle(width, height, Ratio::Third, Ratio::Whole, false);
    one_middle(width, height, Ratio::Whole, Ratio::Third, false);
    one_middle(width, height, Ratio::Half, Ratio::Whole, false);
    one_middle(width, height, Ratio::Whole, Ratio::Half, false);
    let a = crops_of(w, h, Ratio::Slight, Ratio::Slight, true);
    let b = crops_of(w, h, Ratio::Mild, Ratio::Mild, true);
    four_corners(width, height, Ratio::Slight);
    four_corners(width, height, Ratio::Mild);
    assert forall|i: int| 0 <= i < 5 implies #[trigger] r[i] == a[i] by {
        assert(r.subrange(0, 5)[i] == r[i]);
    }
    assert forall|i: int| 5 <= i < 10 implies #[trigger] r[i] == b[i - 5] by {
        assert(r.subrange(5, 10)[i - 5] == r[i]);
    }
}

/// A region of an image turned on its side.
pub open spec fn flipped(r: Region) -> Region {
    Region { x: r.y, y: r.x, width: r.height, height: r.width }
}

proof fn flipped_crops(width: u32, height: u32, a: Ratio, b: Ratio, corners: bool)
    requires
        width > 0,
        height > 0,
    ensures
        ({
            let r = crops_of(width as nat, height as nat, a, b, corners);
            let t = crops_of(height as nat, width as nat, b, a, corners);
            &&& t[0] == flipped(r[0])
            &&& corners ==> t[1] == flipped(r[1]) && t[3] == flipped(r[2]) && t[2] == flipped(r[3])
                && t[4] == flipped(r[4])
        }),
{
}

/// An image turned on its side is cropped where the upright one is.
pub proof fn crops_do_not_prefer_a_direction(width: u32, height: u32, i: int)
    requires
        width > 0,
        height > 0,
        0 <= i < 16,
    ensures
        crop_regions(height as nat, width as nat).contains(
            flipped(crop_regions(width as nat, height as nat)[i]),
        ),
{
    let w = width as nat;
    let h = height as nat;
    let r = crop_regions(w, h);
    let t = crop_regions(h, w);
    crops_by_position(width, height);
    crops_by_position(height, width);
    assert forall|k: int| 0 <= k < 5 implies #[trigger] r[k] == r.subrange(0, 5)[k] by {}
    assert forall|k: int| 0 <= k < 5 implies #[trigger] t[k] == t.subrange(0, 5)[k] by {}
    assert forall|k: int| 5 <= k < 10 implies #[trigger] r[k] == r.subrange(5, 10)[k - 5] by {}
    assert forall|k: int| 5 <= k < 10 implies #[trigger] t[k] == t.subrange(5, 10)[k - 5] by {}
    flipped_crops(width, height, Ratio::Slight, Ratio::Slight, true);
    flipped_crops(width, height, Ratio::Mild, Ratio::Mild, true);
    flipped_crops(width, height, Ratio::Strong, Ratio::Strong, false);
    flipped_crops(width, height, Ratio::Heavy, Ratio::Heavy, false);
    flipped_crops(width, height, Ratio::Third, Ratio::Whole, false);
    flipped_crops(width, height, Ratio::Whole, Ratio::Third, false);
    flipped_crops(width, height, Ratio::Half, Ratio::Whole, false);
    flipped_crops(width, height, Ratio::Whole, Ratio::Half, false);
    flipped_one_by_one(r, t, i);
}

proof fn flipped_one_by_one(r: Seq<Region>, t: Seq<Region>, i: int)
    requires
        t.len() == 16,
        0 <= i < 16,
        t[0] == flipped(r[0]) && t[1] == flipped(r[1]) && t[3] == flipped(r[2]) && t[2]
            == flipped(r[3]) && t[4] == flipped(r[4]),
        t[5] == flipped(r[5]) && t[6] == flipped(r[6]) && t[8] == flipped(r[7]) && t[7]
            == flipped(r[8]) && t[9] == flipped(r[9]),
        t[10] == flipped(r[10]) && t[11] == flipped(r[11]),
        t[13] == flipped(r[12]) && t[12] == flipped(r[13]),
        t[15] == flipped(r[14]) && t[14] == flipped(r[15]),
    ensures
        t.contains(flipped(r[i])),
{
}

} // verus!
