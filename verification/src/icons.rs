//! The tray icon and the frames of its animation: a lamp that sweeps over it.
use vstd::prelude::*;

use crate::bytes::extend;

verus! {

// ---- Pictures ----

/// A picture: its pixels row by row, each as red, green, blue and opacity.
#[derive(Debug)]
pub struct Picture {
    pub width: u32,
    pub height: u32,
    pub pixels: Vec<u8>,
}

impl Picture {
    /// Whether the pixels fill the picture.
    pub open spec fn wf(&self) -> bool {
        self.pixels@.len() == 4 * (self.width * self.height)
    }
}

/// The pixel in column `x` of row `y`.
pub open spec fn px(p: Picture, x: int, y: int) -> Seq<u8> {
    p.pixels@.subrange(4 * (y * p.width + x), 4 * (y * p.width + x) + 4)
}

/// What `image::load_from_memory_with_format` makes of the bytes of an ICO file:
/// the width, the height and the RGBA pixels, or the text of its error.
pub uninterp spec fn ico_picture(bytes: Seq<u8>) -> Result<(u32, u32, Seq<u8>), Seq<char>>;

/// `image::load_from_memory_with_format` for an ICO file, and
/// `DynamicImage::to_rgba8` on its result: what they give depends on the bytes
/// alone, and the pixels fill the picture. How the file is decoded is not stated.
#[verifier::external_body]
fn decode_ico(bytes: &[u8]) -> (r: Result<Picture, String>)
    ensures
        match r {
            Ok(p) => p.wf() && ico_picture(bytes@) == Ok::<(u32, u32, Seq<u8>), Seq<char>>(
                (p.width, p.height, p.pixels@),
            ),
            Err(e) => ico_picture(bytes@) == Err::<(u32, u32, Seq<u8>), Seq<char>>(e@),
        },
{
    match image::load_from_memory_with_format(bytes, image::ImageFormat::Ico) {
        Ok(decoded) => {
            let rgba = decoded.to_rgba8();
            let (width, height) = rgba.dimensions();
            Ok(Picture { width, height, pixels: rgba.into_raw() })
        },
        Err(e) => Err(e.to_string()),
    }
}

/// `image::imageops::crop_imm` and `SubImage::to_image`: the pixels of a part that
/// lies within the picture, each as it was.
#[verifier::external_body]
fn crop(p: &Picture, x: u32, y: u32, width: u32, height: u32) -> (r: Picture)
    requires
        p.wf(),
        x + width <= p.width,
        y + height <= p.height,
    ensures
        r.wf(),
        r.width == width,
        r.height == height,
        forall|i: int, j: int|
            0 <= i < width && 0 <= j < height ==> #[trigger] px(r, i, j) == px(*p, x + i, y + j),
{
    let whole = image::RgbaImage::from_raw(p.width, p.height, p.pixels.clone()).unwrap();
    let part = image::imageops::crop_imm(&whole, x, y, width, height).to_image();
    Picture { width, height, pixels: part.into_raw() }
}

/// Whether `image::imageops::resize` with the Lanczos filter can give the pixels
/// `scaled` for a picture of the size `w` by `h`, out of the given picture. More
/// than one result can be possible.
pub uninterp spec fn resized(
    width: u32,
    height: u32,
    pixels: Seq<u8>,
    w: u32,
    h: u32,
    scaled: Seq<u8>,
) -> bool;

/// `image::imageops::resize` with the Lanczos filter: a picture of the size that is
/// asked for, made out of this one; if the picture has that size already, a copy of
/// it. Otherwise the pixels come from floating-point sines, whose precision Rust
/// leaves open, so their values are not stated.
#[verifier::external_body]
fn scale(p: &Picture, width: u32, height: u32) -> (r: Picture)
    requires
        p.wf(),
        0 < width <= 4096,
        0 < height <= 4096,
    ensures
        r.wf(),
        r.width == width,
        r.height == height,
        resized(p.width, p.height, p.pixels@, width, height, r.pixels@),
        p.width == width && p.height == height ==> r.pixels@ == p.pixels@,
{
    let whole = image::RgbaImage::from_raw(p.width, p.height, p.pixels.clone()).unwrap();
    let filter = image::imageops::FilterType::Lanczos3;
    let scaled = image::imageops::resize(&whole, width, height, filter);
    Picture { width, height, pixels: scaled.into_raw() }
}

/// What `image::Pixel::blend` makes of an RGBA pixel under another one.
pub uninterp spec fn blended(under: Seq<u8>, over: Seq<u8>) -> Seq<u8>;

/// `image::imageops::overlay` with a picture that lies within the other one: each
/// pixel under it becomes the blend of the two, and the others stay. An opaque
/// pixel hides the one under it, and a transparent one leaves it as it is; how
/// others are mixed is not stated, only that it depends on the two pixels alone.
#[verifier::external_body]
fn overlay(bottom: &mut Picture, top: &Picture, x: u32, y: u32)
    requires
        old(bottom).wf(),
        top.wf(),
        x + top.width <= old(bottom).width,
        y + top.height <= old(bottom).height,
    ensures
        final(bottom).wf(),
        final(bottom).width == old(bottom).width,
        final(bottom).height == old(bottom).height,
        forall|i: int, j: int|
            0 <= i < old(bottom).width && 0 <= j < old(bottom).height ==> {
                let under = px(*old(bottom), i, j);
                let over = px(*top, i - x, j - y);
                if x <= i < x + top.width && y <= j < y + top.height {
                    &&& #[trigger] px(*final(bottom), i, j) == blended(under, over)
                    &&& over[3] == 255 ==> px(*final(bottom), i, j) == over
                    &&& over[3] == 0 ==> px(*final(bottom), i, j) == under
                } else {
                    px(*final(bottom), i, j) == under
                }
            },
{
    let pixels = std::mem::take(&mut bottom.pixels);
    let mut below = image::RgbaImage::from_raw(bottom.width, bottom.height, pixels).unwrap();
    let above = image::RgbaImage::from_raw(top.width, top.height, top.pixels.clone()).unwrap();
    image::imageops::overlay(&mut below, &above, i64::from(x), i64::from(y));
    bottom.pixels = below.into_raw();
}

// ---- The icon ----

/// The side of the tray icon.
pub const ICON_SIDE: u32 = 32;

/// The side of the square that is cut out of a picture: 760 of every 984 pixels of
/// its shorter side, to the nearest pixel.
pub open spec fn crop_side(side: int) -> int {
    (2 * 760 * side + 984) / 1968
}

/// The side of the square that is cut out of a picture.
pub fn crop_size(side: u32) -> (r: u32)
    ensures
        r == crop_side(side as int),
        r <= side,
{
    ((1520 * side as u64 + 984) / 1968) as u32
}

/// The side that is cut out is the nearest to the exact share, and there is never a
/// tie; it is no longer than the side that it is cut out of.
pub proof fn law_crop_is_nearest(side: int)
    requires
        side >= 0,
    ensures
        -984 < 2 * (984 * crop_side(side) - 760 * side) < 984,
        0 <= crop_side(side) <= side,
{
    let n = 2 * 760 * side + 984;
    let q = crop_side(side);
    vstd::arithmetic::div_mod::lemma_fundamental_div_mod(n, 1968);
    let m = 123 * q - 95 * side;
    assert(n == 1520 * side + 984);
    assert(n == 1968 * q + n % 1968);
    assert(16 * m == 1968 * q - 1520 * side) by (nonlinear_arith)
        requires
            m == 123 * q - 95 * side,
    ;
    assert(16 * m == 984 - n % 1968);
    assert(16 * m != 984);
}

/// The middle of a picture: a square, with as much left over on either side, but
/// for one pixel.
pub open spec fn is_middle(p: Picture, r: Picture) -> bool {
    let side = if p.width < p.height {
        p.width as int
    } else {
        p.height as int
    };
    let crop = crop_side(side);
    let x = (p.width - crop) / 2;
    let y = (p.height - crop) / 2;
    &&& r.wf()
    &&& r.width == crop
    &&& r.height == crop
    &&& forall|i: int, j: int|
        0 <= i < crop && 0 <= j < crop ==> #[trigger] px(r, i, j) == px(p, x + i, y + j)
}

/// Cuts the middle out of a picture.
pub fn crop_middle(p: &Picture) -> (r: Picture)
    requires
        p.wf(),
    ensures
        is_middle(*p, r),
{
    let side: u32 = if p.width < p.height {
        p.width
    } else {
        p.height
    };
    let size: u32 = crop_size(side);
    let x: u32 = (p.width - size) / 2;
    let y: u32 = (p.height - size) / 2;
    crop(p, x, y, size, size)
}

// ---- The lamp ----

/// How many frames the animation has.
pub const FRAME_COUNT: usize = 16;

/// How far the lamp is on its way, in quarters: to the right and back, twice in all
/// frames.
pub open spec fn sweep(frame: int) -> int {
    let step = frame % 8;
    if step <= 4 {
        step
    } else {
        8 - step
    }
}

/// The middle of the lamp, in half pixels: from one pixel off the left edge to one
/// pixel off the right edge.
pub open spec fn lamp_middle(frame: int) -> int {
    2 + 15 * sweep(frame)
}

/// How far the middle of a column is from the middle of the lamp, in half pixels.
pub open spec fn lamp_distance(frame: int, x: int) -> int {
    let d = 2 * x + 1 - lamp_middle(frame);
    if d < 0 {
        -d
    } else {
        d
    }
}

/// How opaque the white over a column is: the lamp itself, up to one pixel from its
/// middle, is opaque; from there the light fades evenly, over six pixels, from 180
/// to nothing.
pub open spec fn light(frame: int, x: int) -> int {
    let d = lamp_distance(frame, x);
    if d <= 2 {
        255
    } else if d < 14 {
        15 * (14 - d)
    } else {
        0
    }
}

/// How opaque the white over a column is.
pub fn lamp_alpha(frame: usize, x: u32) -> (r: u8)
    requires
        x < ICON_SIDE,
    ensures
        r == light(frame as int, x as int),
{
    let step: u32 = (frame % 8) as u32;
    let sweep: u32 = if step <= 4 {
        step
    } else {
        8 - step
    };
    let middle: u32 = 2 + 15 * sweep;
    let column: u32 = 2 * x + 1;
    let d: u32 = if column < middle {
        middle - column
    } else {
        column - middle
    };
    if d >= 14 {
        0
    } else if d <= 2 {
        255
    } else {
        let dark: u8 = 15 * d as u8;
        210 - dark
    }
}

/// White of an opacity.
pub open spec fn white(alpha: u8) -> Seq<u8> {
    seq![255u8, 255u8, 255u8, alpha]
}

fn white_column(alpha: u8) -> (r: Picture)
    ensures
        r.wf(),
        r.width == 1,
        r.height == ICON_SIDE,
        forall|j: int| 0 <= j < ICON_SIDE ==> #[trigger] px(r, 0, j) == white(alpha),
{
    let mut pixels: Vec<u8> = Vec::new();
    let mut j: u32 = 0;
    while j < ICON_SIDE
        invariant
            j <= ICON_SIDE,
            pixels@.len() == 4 * j,
            forall|k: int|
                0 <= k < 4 * j ==> #[trigger] pixels@[k] == (if k % 4 == 3 {
                    alpha
                } else {
                    255u8
                }),
        decreases ICON_SIDE - j,
    {
        pixels.push(255);
        pixels.push(255);
        pixels.push(255);
        pixels.push(alpha);
        j += 1;
    }
    let r = Picture { width: 1, height: ICON_SIDE, pixels };
    proof {
        assert forall|j: int| 0 <= j < ICON_SIDE implies #[trigger] px(r, 0, j) == white(
            alpha,
        ) by {
            assert(j * r.width == j) by (nonlinear_arith)
                requires
                    r.width == 1,
            ;
            assert(px(r, 0, j) =~= white(alpha));
        }
    }
    r
}

/// A pixel under the light.
pub open spec fn lit(pixel: Seq<u8>, alpha: int) -> Seq<u8> {
    if alpha > 0 {
        blended(pixel, white(alpha as u8))
    } else {
        pixel
    }
}

/// Whether a picture is a frame of the animation: the icon, with each column under
/// its light; under the lamp itself it is white.
pub open spec fn is_frame(icon: Picture, f: Picture, frame: int) -> bool {
    &&& f.wf()
    &&& f.width == ICON_SIDE
    &&& f.height == ICON_SIDE
    &&& forall|i: int, j: int|
        0 <= i < ICON_SIDE && 0 <= j < ICON_SIDE ==> {
            &&& #[trigger] px(f, i, j) == lit(px(icon, i, j), light(frame, i))
            &&& light(frame, i) == 255 ==> px(f, i, j) == white(255)
        }
}

/// Draws a frame of the animation.
pub fn draw_frame(icon: &Picture, frame: usize) -> (r: Picture)
    requires
        icon.wf(),
        icon.width == ICON_SIDE,
        icon.height == ICON_SIDE,
    ensures
        is_frame(*icon, r, frame as int),
{
    let mut pixels: Vec<u8> = Vec::new();
    extend(&mut pixels, icon.pixels.as_slice());
    proof {
        assert(pixels@ =~= icon.pixels@);
    }
    let mut r = Picture { width: ICON_SIDE, height: ICON_SIDE, pixels };
    let mut x: u32 = 0;
    while x < ICON_SIDE
        invariant
            x <= ICON_SIDE,
            r.wf(),
            r.width == ICON_SIDE,
            r.height == ICON_SIDE,
            forall|i: int, j: int|
                0 <= i < ICON_SIDE && 0 <= j < ICON_SIDE ==> {
                    &&& i < x ==> #[trigger] px(r, i, j) == lit(
                        px(*icon, i, j),
                        light(frame as int, i),
                    )
                    &&& i < x && light(frame as int, i) == 255 ==> px(r, i, j) == white(255)
                    &&& i >= x ==> px(r, i, j) == px(*icon, i, j)
                },
        decreases ICON_SIDE - x,
    {
        let alpha: u8 = lamp_alpha(frame, x);
        if alpha > 0 {
            let column = white_column(alpha);
            let ghost before = r;
            overlay(&mut r, &column, x, 0);
            proof {
                assert forall|i: int, j: int|
                    0 <= i < ICON_SIDE && 0 <= j < ICON_SIDE implies {
                    &&& i < x + 1 ==> #[trigger] px(r, i, j) == lit(
                        px(*icon, i, j),
                        light(frame as int, i),
                    )
                    &&& i < x + 1 && light(frame as int, i) == 255 ==> px(r, i, j) == white(255)
                    &&& i >= x + 1 ==> px(r, i, j) == px(*icon, i, j)
                } by {
                    if i == x {
                        assert(px(column, 0, j) == white(alpha));
                        assert(px(before, i, j) == px(*icon, i, j));
                    } else {
                        assert(px(r, i, j) == px(before, i, j));
                    }
                }
            }
        }
        x += 1;
    }
    r
}

/// The tray icon and the frames of its animation.
#[derive(Debug)]
pub struct TrayIcons {
    pub default: Picture,
    pub frames: Vec<Picture>,
}

/// Draws all frames of the animation.
pub fn draw_frames(icon: &Picture) -> (r: Vec<Picture>)
    requires
        icon.wf(),
        icon.width == ICON_SIDE,
        icon.height == ICON_SIDE,
    ensures
        r@.len() == FRAME_COUNT,
        forall|k: int| 0 <= k < FRAME_COUNT ==> is_frame(*icon, #[trigger] r@[k], k),
{
    let mut frames: Vec<Picture> = Vec::new();
    let mut i: usize = 0;
    while i < FRAME_COUNT
        invariant
            i <= FRAME_COUNT,
            icon.wf(),
            icon.width == ICON_SIDE,
            icon.height == ICON_SIDE,
            frames@.len() == i,
            forall|k: int| 0 <= k < i ==> is_frame(*icon, #[trigger] frames@[k], k),
        decreases FRAME_COUNT - i,
    {
        frames.push(draw_frame(icon, i));
        i += 1;
    }
    frames
}

/// Makes the tray icon and its animation out of an ICO file: its middle, scaled to
/// the size of the tray icon. Of the scaled pixels no more is stated than that they
/// come of scaling that middle, unless it has that size already.
pub fn load_tray_icons(ico: &[u8]) -> (r: Result<TrayIcons, String>)
    ensures
        match r {
            Ok(icons) => {
                &&& ico_picture(ico@) is Ok
                &&& icons.default.wf()
                &&& icons.default.width == ICON_SIDE
                &&& icons.default.height == ICON_SIDE
                &&& icons.frames@.len() == FRAME_COUNT
                &&& forall|k: int|
                    0 <= k < FRAME_COUNT ==> is_frame(icons.default, #[trigger] icons.frames@[k], k)
                &&& exists|whole: Picture, middle: Picture|
                    {
                        &&& ico_picture(ico@) == Ok::<(u32, u32, Seq<u8>), Seq<char>>(
                            (whole.width, whole.height, whole.pixels@),
                        )
                        &&& #[trigger] is_middle(whole, middle)
                        &&& resized(
                            middle.width,
                            middle.height,
                            middle.pixels@,
                            ICON_SIDE,
                            ICON_SIDE,
                            icons.default.pixels@,
                        )
                        &&& middle.width == ICON_SIDE ==> icons.default.pixels@ == middle.pixels@
                    }
            },
            Err(e) => ico_picture(ico@) == Err::<(u32, u32, Seq<u8>), Seq<char>>(e@),
        },
{
    match decode_ico(ico) {
        Ok(whole) => {
            let middle = crop_middle(&whole);
            let default = scale(&middle, ICON_SIDE, ICON_SIDE);
            let frames = draw_frames(&default);
            proof {
                assert(is_middle(whole, middle));
            }
            Ok(TrayIcons { default, frames })
        },
        Err(e) => Err(e),
    }
}

// ---- What the lamp does ----

/// The lamp goes from the left edge to the right edge and back, twice in all
/// frames.
pub proof fn law_lamp_sweeps(frame: int)
    requires
        0 <= frame,
    ensures
        lamp_middle(frame + 8) == lamp_middle(frame),
        lamp_middle(0) == 2 * 1,
        lamp_middle(4) == 2 * 31,
        2 * 1 <= lamp_middle(frame) <= 2 * 31,
        0 <= frame <= 8 ==> lamp_middle(8 - frame) == lamp_middle(frame),
        0 <= frame < 4 ==> lamp_middle(frame) < lamp_middle(frame + 1),
{
}

/// The light fades with the distance from the lamp, and ends seven pixels from its
/// middle; columns as far from it on either side are lit alike.
pub proof fn law_light_fades(frame: int, x: int, y: int)
    ensures
        0 <= light(frame, x) <= 255,
        lamp_distance(frame, x) <= lamp_distance(frame, y) ==> light(frame, x) >= light(frame, y),
        lamp_distance(frame, x) == lamp_distance(frame, y) ==> light(frame, x) == light(frame, y),
        light(frame, x) == 255 <==> lamp_distance(frame, x) <= 2 * 1,
        light(frame, x) == 0 <==> lamp_distance(frame, x) >= 2 * 7,
        light(frame, x) != 255 ==> light(frame, x) < 180,
{
}

/// The lamp moves by 15 half pixels from one frame to the next, to the right for four
/// frames and then to the left for four.
pub proof fn law_lamp_moves_evenly(frame: int)
    requires
        0 <= frame,
    ensures
        frame % 8 < 4 ==> lamp_middle(frame + 1) == lamp_middle(frame) + 15,
        frame % 8 >= 4 ==> lamp_middle(frame + 1) == lamp_middle(frame) - 15,
{
}

/// The distance of a column from the lamp is that of its middle, and beyond the lamp
/// the light falls by 15 with each half pixel: from 180, two half pixels from the
/// middle of the lamp, to nothing at 14.
pub proof fn law_light_falls_evenly(frame: int, x: int)
    ensures
        2 * x + 1 >= lamp_middle(frame) ==> lamp_distance(frame, x) == 2 * x + 1 - lamp_middle(
            frame,
        ),
        2 * x + 1 <= lamp_middle(frame) ==> lamp_distance(frame, x) == lamp_middle(frame) - (2 * x
            + 1),
        2 < lamp_distance(frame, x) < 14 ==> 12 * light(frame, x) == 180 * (14 - lamp_distance(
            frame,
            x,
        )),
{
}

/// The part that is cut out lies in the middle of the picture: what is left over on
/// the left and on the right, above and below, differs by a pixel at most; it is a
/// square, and its pixels are those of the picture.
pub proof fn law_middle_is_centred(p: Picture, r: Picture, i: int, j: int)
    requires
        is_middle(p, r),
        0 <= i < r.width,
        0 <= j < r.height,
    ensures
        r.width == r.height,
        r.width <= p.width && r.height <= p.height,
        p.width <= p.height ==> -984 < 2 * (984 * r.width - 760 * p.width) < 984,
        p.height <= p.width ==> -984 < 2 * (984 * r.width - 760 * p.height) < 984,
        exists|x: int, y: int|
            {
                &&& #[trigger] px(p, x + i, y + j) == px(r, i, j)
                &&& 0 <= x && 0 <= p.width - r.width - 2 * x <= 1
                &&& 0 <= y && 0 <= p.height - r.height - 2 * y <= 1
            },
{
    law_crop_is_nearest(p.width as int);
    law_crop_is_nearest(p.height as int);
    let crop = r.width as int;
    let x = (p.width - crop) / 2;
    let y = (p.height - crop) / 2;
    assert(px(p, x + i, y + j) == px(r, i, j));
}

/// A column that no light falls on is that of the icon; under the lamp itself it is
/// white, and elsewhere it is the icon under a white of the light's opacity.
pub proof fn law_frame_is_lit(icon: Picture, f: Picture, frame: int, i: int, j: int)
    requires
        is_frame(icon, f, frame),
        0 <= i < 32,
        0 <= j < 32,
    ensures
        lamp_distance(frame, i) >= 14 ==> px(f, i, j) == px(icon, i, j),
        lamp_distance(frame, i) <= 2 ==> px(f, i, j) == seq![255u8, 255u8, 255u8, 255u8],
        2 < lamp_distance(frame, i) < 14 ==> px(f, i, j) == blended(
            px(icon, i, j),
            seq![255u8, 255u8, 255u8, light(frame, i) as u8],
        ),
{
    assert(px(f, i, j) == lit(px(icon, i, j), light(frame, i)));
}

} // verus!
