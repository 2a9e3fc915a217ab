use vstd::prelude::*;
use crate::geometry::Rect;
use image::ImageEncoder;

verus! {

/// The byte at which the upper half of the intensity range starts: a pixel
/// brighter than this becomes white, any other black.
pub const BINARIZE_THRESHOLD: u8 = 128;

/// A raster of four-channel (red, green, blue, alpha) pixels, row by row.
#[derive(Clone, Debug)]
pub struct FrameBuffer {
    pub width: u32,
    pub height: u32,
    pub pixels: Vec<u8>,
}

/// Where the bytes of pixel `(x, y)` start in a raster `width` pixels wide
/// with `channels` bytes per pixel.
pub open spec fn pixel_offset(width: int, channels: int, x: int, y: int) -> int {
    (y * width + x) * channels
}

impl FrameBuffer {
    /// The pixel data holds four bytes for each of `width * height` pixels.
    pub open spec fn wf(&self) -> bool {
        self.pixels@.len() == 4 * self.width * self.height
    }

    /// Whether `c` holds exactly the pixels of the `w` by `h` block of `self`
    /// whose top left pixel is `(x, y)`.
    pub open spec fn is_block(&self, c: &FrameBuffer, x: int, y: int, w: int, h: int) -> bool {
        &&& c.width == w
        &&& c.height == h
        &&& c.wf()
        &&& forall|r: int, k: int|
            0 <= r < h && 0 <= k < 4 * w ==> #[trigger] c.pixels@[r * (4 * w) + k]
                == self.pixels@[pixel_offset(self.width as int, 4, x, y + r) + k]
    }

    pub fn new(width: u32, height: u32, pixels: Vec<u8>) -> (r: Option<FrameBuffer>)
        ensures
            r is Some <==> pixels@.len() == 4 * width * height,
            r matches Some(f) ==> f.width == width && f.height == height && f.pixels@
                == pixels@,
    {
        let w = width as u64;
        let h = height as u64;
        assert(w * h <= 0xffff_ffff_ffff_ffff) by (nonlinear_arith)
            requires
                w <= 0xffff_ffff,
                h <= 0xffff_ffff,
        ;
        let n = w * h;
        assert(4 * width * height == 4 * n) by (nonlinear_arith)
            requires
                n == w * h,
                w == width,
                h == height,
        ;
        let len = pixels.len();
        if n > (usize::MAX / 4) as u64 {
            return None;
        }
        if len != 4 * (n as usize) {
            return None;
        }
        Some(FrameBuffer { width, height, pixels })
    }

    /// The `w` by `h` block of pixels whose top left pixel is `(x, y)`.
    pub fn block(&self, x: u32, y: u32, w: u32, h: u32) -> (c: FrameBuffer)
        requires
            self.wf(),
            x + w <= self.width,
            y + h <= self.height,
        ensures
            self.is_block(&c, x as int, y as int, w as int, h as int),
    {
        let big_w = self.width as usize;
        let total_len0 = self.pixels.len();
        if h == 0 {
            let c = FrameBuffer { width: w, height: h, pixels: Vec::new() };
            assert(4 * w * h == 0) by (nonlinear_arith)
                requires
                    h == 0,
            ;
            return c;
        }
        assert(4 * w <= total_len0) by (nonlinear_arith)
            requires
                w <= self.width,
                h >= 1,
                h <= self.height,
                total_len0 == 4 * self.width * self.height,
        {
            assert(self.width <= self.width * self.height);
        }
        let rowlen = 4 * (w as usize);
        let total_len = self.pixels.len();
        let ghost total = self.pixels@.len();
        let mut out: Vec<u8> = Vec::new();
        let mut r: usize = 0;
        while r < h as usize
            invariant
                self.wf(),
                total == self.pixels@.len(),
                total == total_len,
                big_w == self.width,
                rowlen == 4 * w,
                x + w <= self.width,
                y + h <= self.height,
                r <= h,
                out@.len() == r * rowlen,
                forall|rr: int, k: int|
                    0 <= rr < r && 0 <= k < rowlen ==> #[trigger] out@[rr * rowlen + k]
                        == self.pixels@[pixel_offset(self.width as int, 4, x as int, y + rr) + k],
            decreases h - r,
        {
            let row = y as usize + r;
            assert(pixel_offset(big_w as int, 4, x as int, row as int) + rowlen <= total)
                by (nonlinear_arith)
                requires
                    row < self.height,
                    x + w <= big_w,
                    rowlen == 4 * w,
                    total == 4 * big_w * self.height,
            {
                assert(row * big_w + x + w <= (row + 1) * big_w);
                assert((row + 1) * big_w <= self.height * big_w);
            }
            assert(row * big_w + x <= total) by (nonlinear_arith)
                requires
                    (row * big_w + x) * 4 <= total,
                    row * big_w + x >= 0,
            ;
            let base = (row * big_w + x as usize) * 4;
            let mut k: usize = 0;
            while k < rowlen
                invariant
                    self.wf(),
                    total == self.pixels@.len(),
                    total == total_len,
                    base + rowlen <= total,
                    base == pixel_offset(self.width as int, 4, x as int, y + r),
                    rowlen == 4 * w,
                    r < h,
                    k <= rowlen,
                    out@.len() == r * rowlen + k,
                    forall|rr: int, kk: int|
                        0 <= rr < r && 0 <= kk < rowlen ==> #[trigger] out@[rr * rowlen + kk]
                            == self.pixels@[pixel_offset(self.width as int, 4, x as int, y + rr)
                            + kk],
                    forall|kk: int| 0 <= kk < k ==> out@[r * rowlen + kk] == #[trigger] self.pixels@[base + kk],
                decreases rowlen - k,
            {
                let ghost prev = out@;
                out.push(self.pixels[base + k]);
                proof {
                    assert forall|rr: int, kk: int|
                        0 <= rr < r && 0 <= kk < rowlen implies #[trigger] out@[rr * rowlen + kk]
                        == self.pixels@[pixel_offset(self.width as int, 4, x as int, y + rr)
                        + kk] by {
                        assert(rr * rowlen + kk < r * rowlen) by (nonlinear_arith)
                            requires
                                rr < r,
                                kk < rowlen,
                                0 <= rr,
                                0 <= kk,
                        ;
                        assert(out@[rr * rowlen + kk] == prev[rr * rowlen + kk]);
                    }
                }
                k = k + 1;
            }
            proof {
                assert forall|rr: int, kk: int|
                    0 <= rr < r + 1 && 0 <= kk < rowlen implies #[trigger] out@[rr * rowlen + kk]
                    == self.pixels@[pixel_offset(self.width as int, 4, x as int, y + rr)
                    + kk] by {
                    if rr == r {
                        assert(out@[r * rowlen + kk] == self.pixels@[base + kk]);
                    }
                }
                assert(out@.len() == (r + 1) * rowlen) by (nonlinear_arith)
                    requires
                        out@.len() == r * rowlen + rowlen,
                ;
            }
            r = r + 1;
        }
        assert(out@.len() == 4 * w * h) by (nonlinear_arith)
            requires
                out@.len() == h * rowlen,
                rowlen == 4 * w,
        ;
        FrameBuffer { width: w, height: h, pixels: out }
    }
}

/// Why a crop could not be encoded.
#[derive(Clone, Copy, Debug, PartialEq, Eq, Structural)]
pub enum EncodeError {
    Png,
}

/// The PNG file that the image crate's encoder writes for a raster of
/// four-channel pixels.
pub uninterp spec fn png_rgba(width: u32, height: u32, pixels: Seq<u8>) -> Seq<u8>;

/// The sizes that the PNG encoder takes: a positive width and height.
pub open spec fn png_size_ok(width: u32, height: u32) -> bool {
    0 < width && 0 < height
}

#[verifier::external_type_specification]
#[verifier::external_body]
pub struct ExImageError(image::ImageError);

/// Relies on image's `PngEncoder::write_image` with 8-bit RGBA pixels: it
/// asserts that the buffer holds four bytes per pixel, and on success has
/// written the PNG encoding of the pixels, which depends on them alone. The
/// png encoder underneath refuses only a zero width or height; writing into a
/// `Vec` cannot fail.
#[verifier::external_body]
fn write_png_rgba(width: u32, height: u32, pixels: &Vec<u8>) -> (r: Result<Vec<u8>, image::ImageError>)
    requires
        pixels@.len() == 4 * width * height,
    ensures
        r matches Ok(b) ==> b@ == png_rgba(width, height, pixels@),
        png_size_ok(width, height) ==> r is Ok,
{
    let mut out: Vec<u8> = Vec::new();
    let res = image::codecs::png::PngEncoder::new(&mut out).write_image(
        pixels,
        width,
        height,
        image::ExtendedColorType::Rgba8,
    );
    res.map(|_| out)
}

pub open spec fn clamp_low(v: int) -> int {
    if v < 0 {
        0
    } else {
        v
    }
}

pub open spec fn min_int(a: int, b: int) -> int {
    if a <= b {
        a
    } else {
        b
    }
}

/// The block `(x, y, width, height)` of a `fw` by `fh` frame that a
/// selection covers: the selection is normalized, its top left corner is
/// moved to non-negative coordinates, and the block is then cut to the frame.
pub open spec fn crop_box(fw: int, fh: int, sel: Rect) -> (int, int, int, int) {
    let n = sel.spec_normalized();
    let x = min_int(clamp_low(n.min.x as int), fw);
    let y = min_int(clamp_low(n.min.y as int), fh);
    (x, y, min_int(n.spec_width(), fw - x), min_int(n.spec_height(), fh - y))
}

impl FrameBuffer {
    /// The block of the frame that `sel` covers, as `(x, y, width, height)`.
    pub fn crop_bounds(&self, sel: &Rect) -> (r: (u32, u32, u32, u32))
        ensures
            (r.0 as int, r.1 as int, r.2 as int, r.3 as int) == crop_box(
                self.width as int,
                self.height as int,
                *sel,
            ),
    {
        let n = sel.normalized();
        let x0: u32 = if n.min.x < 0 {
            0
        } else {
            n.min.x as u32
        };
        let y0: u32 = if n.min.y < 0 {
            0
        } else {
            n.min.y as u32
        };
        let x = if x0 <= self.width {
            x0
        } else {
            self.width
        };
        let y = if y0 <= self.height {
            y0
        } else {
            self.height
        };
        let sw = n.width();
        let sh = n.height();
        let w = if sw <= (self.width - x) as i64 {
            sw as u32
        } else {
            self.width - x
        };
        let h = if sh <= (self.height - y) as i64 {
            sh as u32
        } else {
            self.height - y
        };
        (x, y, w, h)
    }

    /// The pixels that a selection covers, or `None` when that block is
    /// empty.
    pub fn extract(&self, sel: &Rect) -> (r: Option<FrameBuffer>)
        requires
            self.wf(),
        ensures
            ({
                let (x, y, w, h) = crop_box(self.width as int, self.height as int, *sel);
                &&& r is Some <==> w > 0 && h > 0
                &&& r matches Some(c) ==> self.is_block(&c, x, y, w, h)
            }),
    {
        let (x, y, w, h) = self.crop_bounds(sel);
        if w == 0 || h == 0 {
            return None;
        }
        Some(self.block(x, y, w, h))
    }

    /// The frame as a PNG file.
    pub fn encode_png(&self) -> (r: Result<Vec<u8>, EncodeError>)
        requires
            self.wf(),
        ensures
            r matches Ok(b) ==> b@ == png_rgba(self.width, self.height, self.pixels@),
            png_size_ok(self.width, self.height) ==> r is Ok,
    {
        match write_png_rgba(self.width, self.height, &self.pixels) {
            Ok(b) => Ok(b),
            Err(_) => Err(EncodeError::Png),
        }
    }
}

/// A raster of one-byte intensity pixels, row by row.
#[derive(Clone, Debug)]
pub struct GrayImage {
    pub width: u32,
    pub height: u32,
    pub pixels: Vec<u8>,
}

impl GrayImage {
    pub open spec fn wf(&self) -> bool {
        self.pixels@.len() == self.width * self.height
    }

    pub fn new(width: u32, height: u32, pixels: Vec<u8>) -> (r: Option<GrayImage>)
        ensures
            r is Some <==> pixels@.len() == width * height,
            r matches Some(g) ==> g.width == width && g.height == height && g.pixels@ == pixels@,
    {
        let w = width as u64;
        let h = height as u64;
        assert(w * h <= 0xffff_ffff_ffff_ffff) by (nonlinear_arith)
            requires
                w <= 0xffff_ffff,
                h <= 0xffff_ffff,
        ;
        let n = w * h;
        let len = pixels.len();
        if n > usize::MAX as u64 || len != n as usize {
            return None;
        }
        Some(GrayImage { width, height, pixels })
    }
}

/// Relies on image's `DynamicImage::to_luma8` on an RGBA image: one
/// intensity byte per pixel, same dimensions. The cast computes with
/// floating-point colour coefficients, so only the size is stated.
#[verifier::external_body]
fn rgba_to_luma(width: u32, height: u32, pixels: &Vec<u8>) -> (r: Vec<u8>)
    requires
        pixels@.len() == 4 * width * height,
    ensures
        r@.len() == width * height,
{
    match image::RgbaImage::from_raw(width, height, pixels.clone()) {
        Some(img) => image::DynamicImage::ImageRgba8(img).to_luma8().into_raw(),
        None => Vec::new(),
    }
}

impl FrameBuffer {
    /// The frame as one intensity byte per pixel, the first step before the
    /// OCR engine.
    pub fn to_gray(&self) -> (r: GrayImage)
        requires
            self.wf(),
        ensures
            r.width == self.width,
            r.height == self.height,
            r.wf(),
    {
        GrayImage { width: self.width, height: self.height, pixels: rgba_to_luma(self.width, self.height, &self.pixels) }
    }
}

pub open spec fn bilevel(v: u8) -> u8 {
    if v > BINARIZE_THRESHOLD {
        255
    } else {
        0
    }
}

/// Each pixel brighter than the threshold made white, every other one black.
pub fn binarize(pixels: &Vec<u8>) -> (r: Vec<u8>)
    ensures
        r@.len() == pixels@.len(),
        forall|i: int| 0 <= i < r@.len() ==> #[trigger] r@[i] == bilevel(pixels@[i]),
{
    let mut out: Vec<u8> = Vec::new();
    let mut i: usize = 0;
    while i < pixels.len()
        invariant
            i <= pixels.len(),
            out@.len() == i,
            forall|j: int| 0 <= j < i ==> #[trigger] out@[j] == bilevel(pixels@[j]),
        decreases pixels.len() - i,
    {
        let v = if pixels[i] > BINARIZE_THRESHOLD {
            255u8
        } else {
            0u8
        };
        out.push(v);
        i = i + 1;
    }
    out
}

/// Relies on image's `imageops::resize` with the Lanczos filter: its result
/// always has the requested dimensions, one byte per pixel here. It panics
/// when the new buffer's length would not fit in `usize`.
#[verifier::external_body]
fn resize_lanczos(width: u32, height: u32, pixels: &Vec<u8>, new_width: u32, new_height: u32) -> (r:
    Vec<u8>)
    requires
        pixels@.len() == width * height,
        new_width * new_height <= usize::MAX,
    ensures
        r@.len() == new_width * new_height,
{
    let img = image::GrayImage::from_raw(width, height, pixels.clone()).unwrap_or_default();
    image::imageops::resize(&img, new_width, new_height, image::imageops::FilterType::Lanczos3)
        .into_raw()
}

/// The last two steps before the OCR engine: the image is made bilevel at
/// the intensity midpoint, then scaled up to twice its width and height.
pub fn prepare_for_engine(img: &GrayImage) -> (r: GrayImage)
    requires
        img.wf(),
        2 * img.width <= u32::MAX,
        2 * img.height <= u32::MAX,
        4 * img.width * img.height <= usize::MAX,
    ensures
        r.width == 2 * img.width,
        r.height == 2 * img.height,
        r.wf(),
{
    let bw = binarize(&img.pixels);
    let w = img.width * 2;
    let h = img.height * 2;
    assert(w * h == 4 * img.width * img.height) by (nonlinear_arith)
        requires
            w == 2 * img.width,
            h == 2 * img.height,
    ;
    let pixels = resize_lanczos(img.width, img.height, &bw, w, h);
    GrayImage { width: w, height: h, pixels }
}

} // verus!
