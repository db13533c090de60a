//! Turning one region of a captured screen into an image the OCR engine reads well.
use vstd::prelude::*;

use image::Pixel;

verus! {

/// What a region of the screen holds, which decides the characters OCR may report.
#[derive(Clone, Copy, Debug, PartialEq, Eq)]
pub enum FieldKind {
    Text,
    NumericId,
}

/// A rectangle of the screen that holds one text field.
#[derive(Clone, Copy, Debug, PartialEq, Eq)]
pub struct CropRegion {
    pub x: u32,
    pub y: u32,
    pub width: u32,
    pub height: u32,
    pub kind: FieldKind,
}

/// A captured screen: rows top to bottom, three bytes (red, green, blue) per pixel.
pub struct RgbFrame {
    pub width: u32,
    pub height: u32,
    pub pixels: Vec<u8>,
}

/// A single-channel image: rows top to bottom, one byte per pixel.
pub struct GrayImage {
    pub width: u32,
    pub height: u32,
    pub pixels: Vec<u8>,
}

impl RgbFrame {
    pub open spec fn wf(&self) -> bool {
        self.pixels@.len() == 3 * (self.width as int) * (self.height as int)
    }
}

impl GrayImage {
    pub open spec fn wf(&self) -> bool {
        self.pixels@.len() == (self.width as int) * (self.height as int)
    }
}

/// The region lies inside the frame, and its padded canvas fits in memory.
pub open spec fn region_fits(f: &RgbFrame, r: CropRegion) -> bool {
    &&& r.x + r.width <= f.width
    &&& r.y + r.height <= f.height
    &&& (r.width + 14) * (r.height + 14) <= usize::MAX
    &&& r.width + 14 <= u32::MAX
    &&& r.height + 14 <= u32::MAX
}

/// Rec. 709 luminance of a pixel, in integer arithmetic.
pub open spec fn luma_spec(r: u8, g: u8, b: u8) -> u8 {
    ((2126 * r + 7152 * g + 722 * b) / 10000) as u8
}

/// Relies on image's `Pixel::to_luma` for `Rgb<u8>`: the weighted sum
/// `(2126 r + 7152 g + 722 b) / 10000` (its `rgb_to_luma`).
#[verifier::external_body]
fn luma(r: u8, g: u8, b: u8) -> (l: u8)
    ensures
        l == luma_spec(r, g, b),
{
    image::Rgb([r, g, b]).to_luma().0[0]
}

/// The contrast boost: three times the luminance, saturating at white.
pub open spec fn boost_spec(p: u8) -> u8 {
    if 3 * p > 255 {
        255
    } else {
        (3 * p) as u8
    }
}

/// Triples a luminance value, saturating at 255.
pub fn contrast_boost(p: u8) -> (r: u8)
    ensures
        r == boost_spec(p),
{
    if p > 85 {
        255
    } else {
        p * 3
    }
}

/// The boost is monotonic, and saturates from 85 on.
pub proof fn lemma_boost_monotonic(a: u8, b: u8)
    requires
        a <= b,
    ensures
        boost_spec(a) <= boost_spec(b),
        b >= 85 ==> boost_spec(b) == 255,
{
}

/// The luminance of the frame's pixel at column `x`, row `y`.
pub open spec fn frame_luma(f: &RgbFrame, x: int, y: int) -> u8 {
    let k = 3 * (y * f.width + x);
    luma_spec(f.pixels@[k], f.pixels@[k + 1], f.pixels@[k + 2])
}

/// The padded canvas at column `x`, row `y`: the boosted luminance of the region
/// inside a seven-pixel white border.
pub open spec fn canvas_px(f: &RgbFrame, r: CropRegion, x: int, y: int) -> u8 {
    if 7 <= x < r.width + 7 && 7 <= y < r.height + 7 {
        boost_spec(frame_luma(f, r.x + x - 7, r.y + y - 7))
    } else {
        255
    }
}

/// The pixels of the padded canvas, row by row.
pub open spec fn canvas(f: &RgbFrame, r: CropRegion) -> Seq<u8> {
    let w = r.width + 14;
    let h = r.height + 14;
    Seq::new((w * h) as nat, |k: int| canvas_px(f, r, k % w, k / w))
}

proof fn lemma_row_major(x: int, y: int, w: int)
    requires
        0 <= x < w,
        0 <= y,
    ensures
        (y * w + x) % w == x,
        (y * w + x) / w == y,
{
    vstd::arithmetic::div_mod::lemma_fundamental_div_mod_converse(y * w + x, w, y, x);
}

proof fn lemma_index_bound(x: int, y: int, w: int, h: int)
    requires
        0 <= x < w,
        0 <= y < h,
    ensures
        y * w + x < w * h,
        0 <= y * w,
        3 * (y * w + x) + 2 < 3 * w * h,
{
    assert(3 * w * h == 3 * (w * h)) by (nonlinear_arith);
    assert(y * w + x < w * h) by (nonlinear_arith)
        requires
            0 <= x < w,
            0 <= y < h,
    ;
    assert(0 <= y * w) by (nonlinear_arith)
        requires
            0 <= x < w,
            0 <= y,
    ;
}

/// Crops the region, converts it to luminance, boosts its contrast and pads it with
/// a seven-pixel white border on every side.
pub fn preprocess(f: &RgbFrame, r: CropRegion) -> (g: GrayImage)
    requires
        f.wf(),
        region_fits(f, r),
    ensures
        g.width == r.width + 14,
        g.height == r.height + 14,
        g.wf(),
        g.pixels@ == canvas(f, r),
{
    let w: u32 = r.width + 14;
    let h: u32 = r.height + 14;
    let n: usize = f.pixels.len();
    let mut out: Vec<u8> = Vec::new();
    let mut y: u32 = 0;
    while y < h
        invariant
            f.wf(),
            n == f.pixels.len(),
            region_fits(f, r),
            w == r.width + 14,
            h == r.height + 14,
            y <= h,
            out@ =~= Seq::new((y * w) as nat, |k: int| canvas_px(f, r, k % (w as int), k / (w as int))),
        decreases h - y,
    {
        let mut x: u32 = 0;
        while x < w
            invariant
                f.wf(),
                n == f.pixels.len(),
                region_fits(f, r),
                w == r.width + 14,
                h == r.height + 14,
                y < h,
                x <= w,
                out@ =~= Seq::new(
                    (y * w + x) as nat,
                    |k: int| canvas_px(f, r, k % (w as int), k / (w as int)),
                ),
            decreases w - x,
        {
            let p: u8 = if 7 <= x && x < r.width + 7 && 7 <= y && y < r.height + 7 {
                let fx: u32 = r.x + (x - 7);
                let fy: u32 = r.y + (y - 7);
                proof {
                    lemma_index_bound(fx as int, fy as int, f.width as int, f.height as int);
                    assert(3 * ((fy as int) * (f.width as int) + (fx as int)) + 2 < n);
                }
                let k: usize = 3 * ((fy as usize) * (f.width as usize) + (fx as usize));
                contrast_boost(luma(f.pixels[k], f.pixels[k + 1], f.pixels[k + 2]))
            } else {
                255
            };
            proof {
                lemma_row_major(x as int, y as int, w as int);
            }
            out.push(p);
            x += 1;
        }
        assert((y + 1) * w == y * w + w) by (nonlinear_arith);
        y += 1;
    }
    assert(h * w == w * h) by (nonlinear_arith);
    GrayImage { width: w, height: h, pixels: out }
}

/// The PNG encoding of an 8-bit grayscale image of these dimensions and pixels.
pub uninterp spec fn png_of(width: u32, height: u32, pixels: Seq<u8>) -> Seq<u8>;

/// Relies on image's PNG encoder (`DynamicImage::write_to` with
/// `ImageOutputFormat::Png`) over an 8-bit grayscale `ImageBuffer::from_raw`:
/// the encoding depends on the dimensions and the pixels alone. `from_raw` accepts a
/// buffer of `width * height` bytes, the png encoder refuses only a zero width or
/// height, and writing into a `Vec` cannot fail.
#[verifier::external_body]
fn encode_png(width: u32, height: u32, pixels: &Vec<u8>) -> (r: Option<Vec<u8>>)
    ensures
        r matches Some(b) ==> b@ == png_of(width, height, pixels@),
        pixels@.len() == (width as int) * (height as int) && width > 0 && height > 0 ==> r is Some,
{
    let buffer = image::GrayImage::from_raw(width, height, pixels.clone())?;
    let mut cursor = std::io::Cursor::new(Vec::new());
    image::DynamicImage::ImageLuma8(buffer).write_to(&mut cursor, image::ImageOutputFormat::Png).ok()?;
    Some(cursor.into_inner())
}

/// The region, prepared as in `preprocess`, as a lossless PNG for the OCR engine.
pub fn region_png(f: &RgbFrame, r: CropRegion) -> (out: Vec<u8>)
    requires
        f.wf(),
        region_fits(f, r),
    ensures
        out@ == png_of((r.width + 14) as u32, (r.height + 14) as u32, canvas(f, r)),
{
    let g = preprocess(f, r);
    match encode_png(g.width, g.height, &g.pixels) {
        Some(b) => b,
        None => {
            proof {
                assert(false);
            }
            Vec::new()
        },
    }
}

} // verus!
