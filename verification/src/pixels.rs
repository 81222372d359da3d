//! Pixel work: reading captured frames, assembling images, and cropping.
//!
//! Images are `image::ImageBuffer`s of 8-bit RGBA pixels, held in
//! [`RgbaImage`]. Their content is spoken of through `image_samples` (the
//! bytes, row after row, four per pixel) and `image_dims` (width and height).

use vstd::prelude::*;

use image::{ImageBuffer, Rgba};

use crate::error::AppError;
use crate::geometry::{other_message_is, sat_sub};
use crate::hyprland::MonitorInfo;

verus! {

/// An RGBA image with 8 bits per channel (an `image::RgbaImage`).
#[verifier::external_body]
pub struct RgbaImage {
    buf: ImageBuffer<Rgba<u8>, Vec<u8>>,
}

/// The bytes an RGBA image holds: row after row, four per pixel.
pub uninterp spec fn image_samples(img: RgbaImage) -> Seq<u8>;

/// The width and height an RGBA image was made with.
pub uninterp spec fn image_dims(img: RgbaImage) -> (u32, u32);

/// The byte for channel `k` of the pixel at column `x`, row `y` of an image
/// `w` pixels wide whose bytes are `s`.
pub open spec fn sample_at(s: Seq<u8>, w: int, x: int, y: int, k: int) -> u8 {
    s[(y * w + x) * 4 + k]
}

/// `v`, or `limit` where `v` is larger.
pub open spec fn clamp_to(v: int, limit: int) -> int {
    if v <= limit {
        v
    } else {
        limit
    }
}

/// Along one axis of an image of extent `size`, the extent of a crop asked
/// to start at `start` with extent `len`, as `imageops::crop_imm` clamps it.
pub open spec fn crop_extent(size: int, start: int, len: int) -> int {
    clamp_to(len, size - clamp_to(start, size))
}

/// The number of bytes of a `w` × `h` RGBA image.
pub open spec fn image_len(w: int, h: int) -> int {
    4 * w * h
}

/// `img` is a well-formed `w` × `h` image: exactly four bytes per pixel.
pub open spec fn image_is(img: RgbaImage, w: int, h: int) -> bool {
    &&& image_dims(img).0 == w
    &&& image_dims(img).1 == h
    &&& image_samples(img).len() == image_len(w, h)
}

/// `ImageBuffer::new`: a `w` × `h` image whose bytes are all zero.
#[verifier::external_body]
fn alloc_image(w: u32, h: u32) -> (img: RgbaImage)
    requires
        image_len(w as int, h as int) <= usize::MAX,
    ensures
        image_dims(img) == (w, h),
        image_samples(img).len() == image_len(w as int, h as int),
        forall|i: int| 0 <= i < image_samples(img).len() ==> #[trigger] image_samples(img)[i] == 0,
{
    RgbaImage { buf: ImageBuffer::new(w, h) }
}


impl RgbaImage {
    /// `ImageBuffer::width`.
    #[verifier::external_body]
    fn buf_width(&self) -> (w: u32)
        ensures
            w == image_dims(*self).0,
    {
        self.buf.width()
    }

    /// `ImageBuffer::height`.
    #[verifier::external_body]
    fn buf_height(&self) -> (h: u32)
        ensures
            h == image_dims(*self).1,
    {
        self.buf.height()
    }

    /// `ImageBuffer::put_pixel`: sets the four bytes of pixel `(x, y)` and
    /// leaves every other pixel as it was.
    #[verifier::external_body]
    fn put_pixel(&mut self, x: u32, y: u32, px: [u8; 4])
        requires
            x < image_dims(*old(self)).0,
            y < image_dims(*old(self)).1,
            image_samples(*old(self)).len() >= image_len(
                image_dims(*old(self)).0 as int,
                image_dims(*old(self)).1 as int,
            ),
        ensures
            image_dims(*final(self)) == image_dims(*old(self)),
            image_samples(*final(self)).len() == image_samples(*old(self)).len(),
            forall|xx: int, yy: int, k: int|
                0 <= xx < image_dims(*old(self)).0 && 0 <= yy < image_dims(*old(self)).1 && 0 <= k
                    < 4 ==> #[trigger] sample_at(
                    image_samples(*final(self)),
                    image_dims(*old(self)).0 as int,
                    xx,
                    yy,
                    k,
                ) == if xx == x && yy == y {
                    px@[k]
                } else {
                    sample_at(image_samples(*old(self)), image_dims(*old(self)).0 as int, xx, yy, k)
                },
    {
        self.buf.put_pixel(x, y, Rgba(px));
    }

    /// `ImageBuffer::from_raw`: the `w` × `h` image whose bytes are `data`,
    /// where `data` holds at least `4 * w * h` bytes.
    #[verifier::external_body]
    fn buf_from_raw(w: u32, h: u32, data: Vec<u8>) -> (r: Option<RgbaImage>)
        ensures
            r is Some <==> image_len(w as int, h as int) <= data@.len(),
            r matches Some(img) ==> image_dims(img) == (w, h) && image_samples(img) == data@,
    {
        ImageBuffer::from_raw(w, h, data).map(|buf| RgbaImage { buf })
    }

    /// `ImageBuffer::into_raw`: the bytes of the image.
    #[verifier::external_body]
    fn buf_into_raw(self) -> (r: Vec<u8>)
        ensures
            r@ == image_samples(self),
    {
        self.buf.into_raw()
    }

    /// `imageops::crop_imm(..).to_image()`: a copy of the `w` × `h` part of
    /// the image whose top left corner is `(x, y)`. The corner is first
    /// moved inside the image and the size then shrunk to fit, as `crop_imm` does.
    #[verifier::external_body]
    fn buf_crop(&self, x: u32, y: u32, w: u32, h: u32) -> (r: RgbaImage)
        requires
            image_samples(*self).len() >= image_len(
                image_dims(*self).0 as int,
                image_dims(*self).1 as int,
            ),
        ensures
            image_dims(r).0 == crop_extent(image_dims(*self).0 as int, x as int, w as int),
            image_dims(r).1 == crop_extent(image_dims(*self).1 as int, y as int, h as int),
            image_samples(r).len() == image_len(
                crop_extent(image_dims(*self).0 as int, x as int, w as int),
                crop_extent(image_dims(*self).1 as int, y as int, h as int),
            ),
            forall|xx: int, yy: int, k: int|
                0 <= xx < crop_extent(image_dims(*self).0 as int, x as int, w as int) && 0 <= yy
                    < crop_extent(image_dims(*self).1 as int, y as int, h as int) && 0 <= k < 4
                    ==> #[trigger] sample_at(
                    image_samples(r),
                    crop_extent(image_dims(*self).0 as int, x as int, w as int),
                    xx,
                    yy,
                    k,
                ) == sample_at(
                    image_samples(*self),
                    image_dims(*self).0 as int,
                    clamp_to(x as int, image_dims(*self).0 as int) + xx,
                    clamp_to(y as int, image_dims(*self).1 as int) + yy,
                    k,
                ),
    {
        RgbaImage { buf: image::imageops::crop_imm(&self.buf, x, y, w, h).to_image() }
    }
}

/// A `w` × `h` image whose bytes are all zero.
pub fn new_image(w: u32, h: u32) -> (img: RgbaImage)
    requires
        image_len(w as int, h as int) <= usize::MAX,
    ensures
        image_is(img, w as int, h as int),
        forall|i: int| 0 <= i < image_samples(img).len() ==> #[trigger] image_samples(img)[i] == 0,
{
    alloc_image(w, h)
}

impl RgbaImage {
    /// The width in pixels.
    pub fn width(&self) -> (w: u32)
        ensures
            w == image_dims(*self).0,
    {
        self.buf_width()
    }

    /// The height in pixels.
    pub fn height(&self) -> (h: u32)
        ensures
            h == image_dims(*self).1,
    {
        self.buf_height()
    }

    /// The `w` × `h` image whose bytes, row after row and four per pixel,
    /// begin `data`; none where `data` is too short.
    pub fn from_parts(w: u32, h: u32, data: Vec<u8>) -> (r: Option<RgbaImage>)
        ensures
            r is Some <==> image_len(w as int, h as int) <= data@.len(),
            r matches Some(img) ==> image_dims(img) == (w, h) && image_samples(img) == data@,
    {
        RgbaImage::buf_from_raw(w, h, data)
    }

    /// The width, the height and the bytes of the image.
    pub fn into_parts(self) -> (r: (u32, u32, Vec<u8>))
        ensures
            (r.0, r.1) == image_dims(self),
            r.2@ == image_samples(self),
    {
        let w = self.buf_width();
        let h = self.buf_height();
        (w, h, self.buf_into_raw())
    }

    /// A copy of the `w` × `h` part of the image whose top left corner is
    /// `(x, y)`, the corner moved inside the image and the size shrunk to fit.
    pub fn crop(&self, x: u32, y: u32, w: u32, h: u32) -> (r: RgbaImage)
        requires
            image_samples(*self).len() >= image_len(
                image_dims(*self).0 as int,
                image_dims(*self).1 as int,
            ),
        ensures
            image_is(
                r,
                crop_extent(image_dims(*self).0 as int, x as int, w as int),
                crop_extent(image_dims(*self).1 as int, y as int, h as int),
            ),
            forall|xx: int, yy: int, k: int|
                0 <= xx < crop_extent(image_dims(*self).0 as int, x as int, w as int) && 0 <= yy
                    < crop_extent(image_dims(*self).1 as int, y as int, h as int) && 0 <= k < 4
                    ==> #[trigger] sample_at(
                    image_samples(r),
                    crop_extent(image_dims(*self).0 as int, x as int, w as int),
                    xx,
                    yy,
                    k,
                ) == sample_at(
                    image_samples(*self),
                    image_dims(*self).0 as int,
                    clamp_to(x as int, image_dims(*self).0 as int) + xx,
                    clamp_to(y as int, image_dims(*self).1 as int) + yy,
                    k,
                ),
    {
        self.buf_crop(x, y, w, h)
    }
}

// ── Screen copy frames ────────────────────────────────────────────────────────

/// The layout of a shared-memory frame from the compositor.
#[derive(Debug, Clone, Copy, PartialEq, Eq, Structural)]
pub enum ShmFormat {
    /// Bytes `[B, G, R, A]`.
    Argb8888,
    /// Bytes `[B, G, R, x]`.
    Xrgb8888,
    /// Bytes `[R, G, B, A]`.
    Abgr8888,
    /// Bytes `[R, G, B, x]`.
    Xbgr8888,
    /// Any other layout; read as `Argb8888`.
    Other,
}

/// The opaque RGBA pixel stored at `offset` of `data` in layout `format`.
/// Alpha is always 255: the frame is a screen image.
pub open spec fn shm_pixel(data: Seq<u8>, offset: int, format: ShmFormat) -> Seq<u8> {
    match format {
        ShmFormat::Abgr8888 | ShmFormat::Xbgr8888 => seq![
            data[offset],
            data[offset + 1],
            data[offset + 2],
            255u8,
        ],
        _ => seq![data[offset + 2], data[offset + 1], data[offset], 255u8],
    }
}

/// Convert the pixel at byte `offset` in `data` to RGBA based on the shm format.
///
/// Wayland shm format memory layout (little-endian):
/// - ARGB8888 / XRGB8888: bytes = [Blue, Green, Red, Alpha/X]
/// - ABGR8888 / XBGR8888: bytes = [Red, Green, Blue, Alpha/X]
///
/// Other formats are read as ARGB8888, the most common wlroots layout.
pub fn read_pixel_rgba(data: &[u8], offset: usize, format: ShmFormat) -> (p: [u8; 4])
    requires
        offset + 2 < data@.len(),
    ensures
        p@ == shm_pixel(data@, offset as int, format),
{
    let b0 = data[offset];
    let b1 = data[offset + 1];
    let b2 = data[offset + 2];
    let p = match format {
        ShmFormat::Abgr8888 | ShmFormat::Xbgr8888 => [b0, b1, b2, 255],
        _ => [b2, b1, b0, 255],
    };
    assert(p@ == shm_pixel(data@, offset as int, format));
    p
}


/// The RGBA pixel a frame with rows `stride` bytes apart shows at `(x, y)`.
pub open spec fn frame_pixel(data: Seq<u8>, stride: int, format: ShmFormat, x: int, y: int) -> Seq<
    u8,
> {
    shm_pixel(data, y * stride + x * 4, format)
}

/// How a compositor pixel reads: ARGB8888 and XRGB8888 (and any other
/// layout) hold blue, green, red at the pixel's first three bytes, ABGR8888
/// and XBGR8888 hold red, green, blue; the pixel is opaque either way. The
/// pixel at `(x, y)` starts `y` rows of `stride` bytes and `x` pixels of 4
/// bytes into the frame.
pub proof fn lemma_shm_layouts(data: Seq<u8>, stride: int, format: ShmFormat, x: int, y: int)
    ensures
        ({
            let o = y * stride + 4 * x;
            let p = frame_pixel(data, stride, format, x, y);
            &&& p.len() == 4
            &&& p[3] == 255
            &&& (format == ShmFormat::Abgr8888 || format == ShmFormat::Xbgr8888) ==> p[0] == data[o]
                && p[1] == data[o + 1] && p[2] == data[o + 2]
            &&& !(format == ShmFormat::Abgr8888 || format == ShmFormat::Xbgr8888) ==> p[0] == data[o
                + 2] && p[1] == data[o + 1] && p[2] == data[o]
        }),
{
    assert(y * stride + x * 4 == y * stride + 4 * x);
}

/// Every pixel of a `width` × `height` frame with rows `stride` bytes apart
/// can be read from `len` bytes, and its offset fits in a `u32`.
pub open spec fn frame_fits(width: int, height: int, stride: int, len: int) -> bool {
    width == 0 || height == 0 || ((height - 1) * stride + (width - 1) * 4 <= u32::MAX && (height
        - 1) * stride + (width - 1) * 4 + 2 < len)
}

/// Whether a `width` × `height` frame with rows `stride` bytes apart can be
/// read whole from `len` bytes.
pub fn frame_fits_check(width: u32, height: u32, stride: u32, len: usize) -> (b: bool)
    ensures
        b == frame_fits(width as int, height as int, stride as int, len as int),
{
    if width == 0 || height == 0 {
        return true;
    }
    let rows = (height - 1) as u128;
    let s128 = stride as u128;
    assert(rows * s128 <= 0xffff_ffff * 0xffff_ffff) by (nonlinear_arith)
        requires
            rows <= 0xffff_ffff,
            s128 <= 0xffff_ffff,
    ;
    let last = rows * s128 + (width - 1) as u128 * 4;
    last <= 0xffff_ffff && last + 2 < len as u128
}

proof fn lemma_offset_bound(x: int, y: int, width: int, height: int, stride: int)
    requires
        0 <= x < width,
        0 <= y < height,
        0 <= stride,
    ensures
        0 <= y * stride <= (height - 1) * stride,
        0 <= x * 4 <= (width - 1) * 4,
        y * stride + x * 4 <= (height - 1) * stride + (width - 1) * 4,
{
    assert(0 <= y * stride <= (height - 1) * stride) by (nonlinear_arith)
        requires
            0 <= y <= height - 1,
            0 <= stride,
    ;
}

/// Copy a captured frame into a new image of the same size, pixel by pixel.
#[verifier::spinoff_prover]
pub fn frame_to_image(width: u32, height: u32, stride: u32, format: ShmFormat, data: &[u8]) -> (img:
    RgbaImage)
    requires
        image_len(width as int, height as int) <= usize::MAX,
        frame_fits(width as int, height as int, stride as int, data@.len() as int),
    ensures
        image_is(img, width as int, height as int),
        forall|x: int, y: int, k: int|
            0 <= x < width && 0 <= y < height && 0 <= k < 4 ==> #[trigger] sample_at(
                image_samples(img),
                width as int,
                x,
                y,
                k,
            ) == frame_pixel(data@, stride as int, format, x, y)[k],
{
    let mut img = new_image(width, height);
    let mut y: u32 = 0;
    while y < height
        invariant
            y <= height,
            image_is(img, width as int, height as int),
            image_len(width as int, height as int) <= usize::MAX,
            frame_fits(width as int, height as int, stride as int, data@.len() as int),
            forall|xx: int, yy: int, k: int|
                0 <= xx < width && 0 <= yy < y && 0 <= k < 4 ==> #[trigger] sample_at(
                    image_samples(img),
                    width as int,
                    xx,
                    yy,
                    k,
                ) == frame_pixel(data@, stride as int, format, xx, yy)[k],
        decreases height - y,
    {
        let mut x: u32 = 0;
        while x < width
            invariant
                x <= width,
                y < height,
                image_is(img, width as int, height as int),
                frame_fits(width as int, height as int, stride as int, data@.len() as int),
                forall|xx: int, yy: int, k: int|
                    0 <= xx < width && 0 <= yy < height && 0 <= k < 4 && (yy < y || (yy == y && xx
                        < x)) ==> #[trigger] sample_at(image_samples(img), width as int, xx, yy, k)
                        == frame_pixel(data@, stride as int, format, xx, yy)[k],
            decreases width - x,
        {
            proof {
                lemma_offset_bound(x as int, y as int, width as int, height as int, stride as int);
            }
            let offset = (y * stride + x * 4) as usize;
            let p = read_pixel_rgba(data, offset, format);
            img.put_pixel(x, y, p);
            x = x + 1;
        }
        y = y + 1;
    }
    img
}


// ── Monitor layout ────────────────────────────────────────────────────────────

/// The smaller of `a` and `b`.
pub open spec fn min2(a: int, b: int) -> int {
    if a <= b {
        a
    } else {
        b
    }
}

/// The larger of `a` and `b`.
pub open spec fn max2(a: int, b: int) -> int {
    if a >= b {
        a
    } else {
        b
    }
}

/// The leftmost `x` of the monitors; 0 where there are none.
pub open spec fn left_edge(ms: Seq<MonitorInfo>) -> int
    decreases ms.len(),
{
    if ms.len() == 0 {
        0
    } else if ms.len() == 1 {
        ms[0].rect.x as int
    } else {
        min2(left_edge(ms.drop_last()), ms.last().rect.x as int)
    }
}

/// The topmost `y` of the monitors; 0 where there are none.
pub open spec fn top_edge(ms: Seq<MonitorInfo>) -> int
    decreases ms.len(),
{
    if ms.len() == 0 {
        0
    } else if ms.len() == 1 {
        ms[0].rect.y as int
    } else {
        min2(top_edge(ms.drop_last()), ms.last().rect.y as int)
    }
}

/// The rightmost `x + w` of the monitors; 0 where there are none.
pub open spec fn right_edge(ms: Seq<MonitorInfo>) -> int
    decreases ms.len(),
{
    if ms.len() == 0 {
        0
    } else if ms.len() == 1 {
        ms[0].rect.x + ms[0].rect.w
    } else {
        max2(right_edge(ms.drop_last()), ms.last().rect.x + ms.last().rect.w)
    }
}

/// The lowest `y + h` of the monitors; 0 where there are none.
pub open spec fn bottom_edge(ms: Seq<MonitorInfo>) -> int
    decreases ms.len(),
{
    if ms.len() == 0 {
        0
    } else if ms.len() == 1 {
        ms[0].rect.y + ms[0].rect.h
    } else {
        max2(bottom_edge(ms.drop_last()), ms.last().rect.y + ms.last().rect.h)
    }
}

/// Every monitor's right and bottom edges fit in an `i32`.
pub open spec fn edges_fit(ms: Seq<MonitorInfo>) -> bool {
    forall|j: int|
        0 <= j < ms.len() ==> i32::MIN <= #[trigger] ms[j].rect.x + ms[j].rect.w <= i32::MAX
            && i32::MIN <= ms[j].rect.y + ms[j].rect.h <= i32::MAX
}

/// The edges bound every monitor, and each is attained by one.
pub proof fn lemma_edges(ms: Seq<MonitorInfo>)
    requires
        ms.len() > 0,
    ensures
        forall|j: int|
            0 <= j < ms.len() ==> left_edge(ms) <= #[trigger] ms[j].rect.x && top_edge(ms)
                <= ms[j].rect.y && ms[j].rect.x + ms[j].rect.w <= right_edge(ms) && ms[j].rect.y
                + ms[j].rect.h <= bottom_edge(ms),
        exists|j: int| 0 <= j < ms.len() && left_edge(ms) == #[trigger] ms[j].rect.x,
        exists|j: int| 0 <= j < ms.len() && top_edge(ms) == #[trigger] ms[j].rect.y,
        exists|j: int| 0 <= j < ms.len() && right_edge(ms) == #[trigger] ms[j].rect.x + ms[j].rect.w,
        exists|j: int| 0 <= j < ms.len() && bottom_edge(ms) == #[trigger] ms[j].rect.y + ms[j].rect.h,
    decreases ms.len(),
{
    if ms.len() > 1 {
        let t = ms.drop_last();
        lemma_edges(t);
        assert forall|j: int| 0 <= j < t.len() implies t[j] == ms[j] by {}
        let n = ms.len() - 1;
        let a = choose|j: int| 0 <= j < t.len() && left_edge(t) == #[trigger] t[j].rect.x;
        let b = choose|j: int| 0 <= j < t.len() && top_edge(t) == #[trigger] t[j].rect.y;
        let c = choose|j: int| 0 <= j < t.len() && right_edge(t) == #[trigger] t[j].rect.x + t[j].rect.w;
        let d = choose|j: int| 0 <= j < t.len() && bottom_edge(t) == #[trigger] t[j].rect.y + t[j].rect.h;
        if left_edge(t) <= ms[n].rect.x {
            assert(left_edge(ms) == ms[a].rect.x);
        } else {
            assert(left_edge(ms) == ms[n].rect.x);
        }
        if top_edge(t) <= ms[n].rect.y {
            assert(top_edge(ms) == ms[b].rect.y);
        } else {
            assert(top_edge(ms) == ms[n].rect.y);
        }
        if right_edge(t) >= ms[n].rect.x + ms[n].rect.w {
            assert(right_edge(ms) == ms[c].rect.x + ms[c].rect.w);
        } else {
            assert(right_edge(ms) == ms[n].rect.x + ms[n].rect.w);
        }
        if bottom_edge(t) >= ms[n].rect.y + ms[n].rect.h {
            assert(bottom_edge(ms) == ms[d].rect.y + ms[d].rect.h);
        } else {
            assert(bottom_edge(ms) == ms[n].rect.y + ms[n].rect.h);
        }
    } else {
        assert(left_edge(ms) == ms[0].rect.x);
        assert(top_edge(ms) == ms[0].rect.y);
        assert(right_edge(ms) == ms[0].rect.x + ms[0].rect.w);
        assert(bottom_edge(ms) == ms[0].rect.y + ms[0].rect.h);
    }
}

/// The smallest `x` and `y` of the monitors, `(0, 0)` where there are none:
/// the logical point that the composite of all monitors puts at pixel `(0, 0)`.
pub fn monitors_origin(monitors: &[MonitorInfo]) -> (r: (i32, i32))
    ensures
        r.0 == left_edge(monitors@),
        r.1 == top_edge(monitors@),
{
    if monitors.len() == 0 {
        return (0, 0);
    }
    let mut mx = monitors[0].rect.x;
    let mut my = monitors[0].rect.y;
    let mut i: usize = 1;
    while i < monitors.len()
        invariant
            1 <= i <= monitors@.len(),
            mx == left_edge(monitors@.take(i as int)),
            my == top_edge(monitors@.take(i as int)),
        decreases monitors@.len() - i,
    {
        proof {
            let t = monitors@.take(i + 1);
            assert(t.drop_last() == monitors@.take(i as int));
        }
        if monitors[i].rect.x < mx {
            mx = monitors[i].rect.x;
        }
        if monitors[i].rect.y < my {
            my = monitors[i].rect.y;
        }
        i = i + 1;
    }
    assert(monitors@.take(monitors@.len() as int) == monitors@);
    (mx, my)
}

/// The bounding box of the monitors: left, top, right and bottom edges.
/// There must be at least one monitor.
pub fn monitors_bounds(monitors: &[MonitorInfo]) -> (r: (i32, i32, i32, i32))
    requires
        monitors@.len() > 0,
        edges_fit(monitors@),
    ensures
        r.0 == left_edge(monitors@),
        r.1 == top_edge(monitors@),
        r.2 == right_edge(monitors@),
        r.3 == bottom_edge(monitors@),
{
    let (mx, my) = monitors_origin(monitors);
    assert(edges_fit(monitors@) ==> monitors@[0].rect.x + monitors@[0].rect.w <= i32::MAX);
    let mut rx = monitors[0].rect.x + monitors[0].rect.w;
    let mut ry = monitors[0].rect.y + monitors[0].rect.h;
    let mut i: usize = 1;
    while i < monitors.len()
        invariant
            1 <= i <= monitors@.len(),
            edges_fit(monitors@),
            rx == right_edge(monitors@.take(i as int)),
            ry == bottom_edge(monitors@.take(i as int)),
        decreases monitors@.len() - i,
    {
        proof {
            let t = monitors@.take(i + 1);
            assert(t.drop_last() == monitors@.take(i as int));
        }
        let m = &monitors[i];
        assert(i32::MIN <= monitors@[i as int].rect.x + monitors@[i as int].rect.w <= i32::MAX);
        let r = m.rect.x + m.rect.w;
        let b = m.rect.y + m.rect.h;
        if r > rx {
            rx = r;
        }
        if b > ry {
            ry = b;
        }
        i = i + 1;
    }
    assert(monitors@.take(monitors@.len() as int) == monitors@);
    (mx, my, rx, ry)
}


// ── Compositing all monitors ──────────────────────────────────────────────────

/// A frame captured from one monitor, as the compositor delivered it.
pub struct CapturedFrame {
    /// The name of the output it shows.
    pub name: String,
    pub width: u32,
    pub height: u32,
    /// Bytes from the start of one row to the start of the next.
    pub stride: u32,
    pub format: ShmFormat,
    pub data: Vec<u8>,
}

/// The index of the first monitor named `name`.
pub open spec fn find_monitor(ms: Seq<MonitorInfo>, name: Seq<char>) -> Option<int>
    decreases ms.len(),
{
    if ms.len() == 0 {
        None
    } else if ms[0].name@ == name {
        Some(0)
    } else {
        match find_monitor(ms.drop_first(), name) {
            Some(i) => Some(i + 1),
            None => None,
        }
    }
}

/// `find_monitor` finds the first monitor with the name, and none exactly
/// when no monitor has it.
pub proof fn lemma_find_monitor(ms: Seq<MonitorInfo>, name: Seq<char>)
    ensures
        find_monitor(ms, name) is None <==> forall|k: int| 0 <= k < ms.len() ==> #[trigger] ms[k].name@ != name,
        find_monitor(ms, name) matches Some(i) ==> 0 <= i < ms.len() && ms[i].name@ == name
            && forall|k: int| 0 <= k < i ==> #[trigger] ms[k].name@ != name,
    decreases ms.len(),
{
    if ms.len() > 0 {
        let t = ms.drop_first();
        lemma_find_monitor(t, name);
        assert forall|k: int| 0 <= k < t.len() implies t[k] == ms[k + 1] by {}
        if ms[0].name@ != name {
            if find_monitor(t, name) is None {
                assert forall|k: int| 0 <= k < ms.len() implies #[trigger] ms[k].name@ != name by {
                    if k > 0 {
                        assert(ms[k] == t[k - 1]);
                    }
                }
            } else {
                assert forall|k: int| 0 <= k < find_monitor(ms, name)->0 implies #[trigger] ms[k].name@
                    != name by {
                    if k > 0 {
                        assert(ms[k] == t[k - 1]);
                    }
                }
            }
        }
    }
}

/// The index of the first monitor named `name`, if there is one.
pub fn find_monitor_index(monitors: &[MonitorInfo], name: &String) -> (r: Option<usize>)
    ensures
        match r {
            Some(i) => find_monitor(monitors@, name@) == Some(i as int) && i < monitors@.len(),
            None => find_monitor(monitors@, name@) is None,
        },
{
    proof {
        lemma_find_monitor(monitors@, name@);
    }
    let mut i: usize = 0;
    while i < monitors.len()
        invariant
            i <= monitors@.len(),
            forall|k: int| 0 <= k < i ==> #[trigger] monitors@[k].name@ != name@,
        decreases monitors@.len() - i,
    {
        if monitors[i].name == *name {
            proof {
                lemma_find_monitor(monitors@, name@);
                let f = find_monitor(monitors@, name@);
                if f is None {
                    assert(monitors@[i as int].name@ != name@);
                } else {
                    let w = f->0;
                    if w < i {
                        assert(monitors@[w].name@ != name@);
                    } else if w > i {
                        assert(monitors@[i as int].name@ != name@);
                    }
                }
            }
            return Some(i);
        }
        i = i + 1;
    }
    None
}

/// The index of the first frame whose output is not among the monitors.
pub open spec fn first_unmatched(ms: Seq<MonitorInfo>, fs: Seq<CapturedFrame>) -> Option<int>
    decreases fs.len(),
{
    if fs.len() == 0 {
        None
    } else if find_monitor(ms, fs[0].name@) is None {
        Some(0)
    } else {
        match first_unmatched(ms, fs.drop_first()) {
            Some(i) => Some(i + 1),
            None => None,
        }
    }
}

/// A frame is reported as having no monitor exactly when none has its
/// output's name: the one reported is the first such frame, and none is
/// reported only when every frame has a monitor.
pub proof fn lemma_first_unmatched(ms: Seq<MonitorInfo>, fs: Seq<CapturedFrame>)
    ensures
        first_unmatched(ms, fs) is None <==> forall|k: int| 0 <= k < fs.len() ==> #[trigger] find_monitor(ms, fs[k].name@) is Some,
        first_unmatched(ms, fs) matches Some(i) ==> 0 <= i < fs.len() && find_monitor(ms, fs[i].name@) is None
            && forall|k: int| 0 <= k < i ==> #[trigger] find_monitor(ms, fs[k].name@) is Some,
    decreases fs.len(),
{
    if fs.len() > 0 {
        let t = fs.drop_first();
        lemma_first_unmatched(ms, t);
        assert forall|k: int| 0 <= k < t.len() implies t[k] == fs[k + 1] by {}
        if find_monitor(ms, fs[0].name@) is Some {
            if first_unmatched(ms, t) is None {
                assert forall|k: int| 0 <= k < fs.len() implies #[trigger] find_monitor(ms, fs[k].name@) is Some by {
                    if k > 0 {
                        assert(fs[k] == t[k - 1]);
                    }
                }
            } else {
                assert forall|k: int| 0 <= k < first_unmatched(ms, fs)->0 implies #[trigger] find_monitor(ms, fs[k].name@) is Some by {
                    if k > 0 {
                        assert(fs[k] == t[k - 1]);
                    }
                }
            }
        }
    }
}

/// The frame row or column that logical row or column `l` of a monitor
/// `logical` pixels across shows, for a frame `physical` pixels across:
/// nearest neighbour, never past the last one.
pub open spec fn scaled_index(l: int, physical: int, logical: int) -> int {
    min2(l * physical / logical, sat_sub(physical, 1))
}

/// The byte offset of the last pixel of frame `f` that monitor `m` shows:
/// that of its last logical row and column.
pub open spec fn last_read(f: CapturedFrame, m: MonitorInfo) -> int {
    scaled_index(m.rect.h - 1, f.height as int, m.rect.h as int) * f.stride + scaled_index(
        m.rect.w - 1,
        f.width as int,
        m.rect.w as int,
    ) * 4
}

/// A frame can be drawn for monitor `m`: the monitor's size is not negative,
/// the scaling products fit in a `u32`, and every pixel that is read lies
/// inside the frame's bytes at an offset that fits in a `u32`.
pub open spec fn frame_drawable(f: CapturedFrame, m: MonitorInfo) -> bool {
    &&& m.rect.w >= 0
    &&& m.rect.h >= 0
    &&& m.rect.w == 0 || (m.rect.w - 1) * f.width <= u32::MAX
    &&& m.rect.h == 0 || (m.rect.h - 1) * f.height <= u32::MAX
    &&& m.rect.w == 0 || m.rect.h == 0 || (last_read(f, m) <= u32::MAX && last_read(f, m) + 2
        < f.data@.len())
}

/// Row or column `l` of a monitor `logical` pixels across shows frame row or
/// column `⌊l · physical / logical⌋`: the largest `q` with `q · logical ≤ l · physical`.
pub proof fn lemma_scaled_index_is_floor(l: int, physical: int, logical: int)
    requires
        0 <= l < logical,
        0 <= physical,
    ensures
        scaled_index(l, physical, logical) * logical <= l * physical < (scaled_index(
            l,
            physical,
            logical,
        ) + 1) * logical,
        scaled_index(l, physical, logical) == l * physical / logical,
{
    let q = l * physical / logical;
    vstd::arithmetic::div_mod::lemma_fundamental_div_mod(l * physical, logical);
    let r = (l * physical) % logical;
    assert(0 <= r < logical) by {
        vstd::arithmetic::div_mod::lemma_mod_bound(l * physical, logical);
    }
    assert(l * physical == logical * q + r);
    if physical > 0 {
        assert(l * physical < logical * physical) by (nonlinear_arith)
            requires
                0 <= l < logical,
                0 < physical,
        ;
        assert(q < physical) by (nonlinear_arith)
            requires
                l * physical == logical * q + r,
                0 <= r,
                l * physical < logical * physical,
                0 < logical,
        ;
    } else {
        assert(l * physical == 0) by (nonlinear_arith)
            requires
                physical == 0,
        ;
        assert(q == 0);
    }
    assert(q * logical <= l * physical < (q + 1) * logical) by (nonlinear_arith)
        requires
            l * physical == logical * q + r,
            0 <= r < logical,
    ;
}

/// On a monitor captured at `k` times its logical size, logical row or
/// column `l` shows frame row or column `k · l`.
pub proof fn lemma_integer_scale(l: int, k: int, logical: int)
    requires
        0 <= l < logical,
        1 <= k,
    ensures
        scaled_index(l, k * logical, logical) == k * l,
{
    assert(0 <= k * logical) by (nonlinear_arith)
        requires
            1 <= k,
            0 < logical,
    ;
    lemma_scaled_index_is_floor(l, k * logical, logical);
    let q = scaled_index(l, k * logical, logical);
    assert(l * (k * logical) == (k * l) * logical) by (nonlinear_arith);
    assert(q == k * l) by (nonlinear_arith)
        requires
            q * logical <= (k * l) * logical < (q + 1) * logical,
            0 < logical,
    ;
}

/// Scaling keeps the order of rows and columns.
proof fn lemma_scaled_index_mono(a: int, b: int, physical: int, logical: int)
    requires
        0 <= a <= b,
        0 <= physical,
        0 < logical,
    ensures
        0 <= scaled_index(a, physical, logical) <= scaled_index(b, physical, logical),
{
    assert(0 <= a * physical <= b * physical) by (nonlinear_arith)
        requires
            0 <= a <= b,
            0 <= physical,
    ;
    vstd::arithmetic::div_mod::lemma_div_is_ordered(a * physical, b * physical, logical);
    vstd::arithmetic::div_mod::lemma_div_is_ordered(0, a * physical, logical);
}

/// What the composite shows at pixel `(x, y)`, channel `k`, after drawing the
/// frames `fs` in order into an image whose origin is the logical point
/// `(ox, oy)`: the last frame whose monitor covers the pixel, scaled to the
/// monitor's logical size; zero where none does.
pub open spec fn composite_value(
    ms: Seq<MonitorInfo>,
    fs: Seq<CapturedFrame>,
    ox: int,
    oy: int,
    x: int,
    y: int,
    k: int,
) -> u8
    decreases fs.len(),
{
    if fs.len() == 0 {
        0
    } else {
        let f = fs.last();
        let m = ms[find_monitor(ms, f.name@)->0];
        let mx = m.rect.x - ox;
        let my = m.rect.y - oy;
        if mx <= x < mx + m.rect.w && my <= y < my + m.rect.h {
            frame_pixel(
                f.data@,
                f.stride as int,
                f.format,
                scaled_index(x - mx, f.width as int, m.rect.w as int),
                scaled_index(y - my, f.height as int, m.rect.h as int),
            )[k]
        } else {
            composite_value(ms, fs.drop_last(), ox, oy, x, y, k)
        }
    }
}

/// The width or height of the composite: the extent between two edges, or
/// 0 where it would be negative.
pub open spec fn extent(low: int, high: int) -> int {
    if high - low >= 0 {
        high - low
    } else {
        0
    }
}

/// The composite can be made: there is a monitor, the edges and their
/// distances fit in an `i32`, the image fits in memory, and every frame up to
/// the first one without a monitor can be drawn for its monitor.
pub open spec fn composite_ready(ms: Seq<MonitorInfo>, fs: Seq<CapturedFrame>) -> bool {
    &&& ms.len() > 0
    &&& edges_fit(ms)
    &&& i32::MIN <= right_edge(ms) - left_edge(ms) <= i32::MAX
    &&& i32::MIN <= bottom_edge(ms) - top_edge(ms) <= i32::MAX
    &&& image_len(
        extent(left_edge(ms), right_edge(ms)),
        extent(top_edge(ms), bottom_edge(ms)),
    ) <= usize::MAX
    &&& forall|i: int|
        0 <= i < fs.len() && (forall|j: int| 0 <= j < i ==> #[trigger] find_monitor(ms, fs[j].name@) is Some)
            ==> match #[trigger] find_monitor(ms, fs[i].name@) {
            Some(j) => frame_drawable(fs[i], ms[j]),
            None => true,
        }
}

/// Whether every monitor's right and bottom edges fit in an `i32`.
pub fn edges_fit_check(monitors: &[MonitorInfo]) -> (b: bool)
    ensures
        b == edges_fit(monitors@),
{
    let mut i: usize = 0;
    while i < monitors.len()
        invariant
            i <= monitors@.len(),
            forall|j: int|
                0 <= j < i ==> i32::MIN <= #[trigger] monitors@[j].rect.x + monitors@[j].rect.w
                    <= i32::MAX && i32::MIN <= monitors@[j].rect.y + monitors@[j].rect.h <= i32::MAX,
        decreases monitors@.len() - i,
    {
        let r = &monitors[i].rect;
        let right = r.x as i64 + r.w as i64;
        let bottom = r.y as i64 + r.h as i64;
        if right < i32::MIN as i64 || right > i32::MAX as i64 || bottom < i32::MIN as i64 || bottom
            > i32::MAX as i64 {
            assert(!(i32::MIN <= monitors@[i as int].rect.x + monitors@[i as int].rect.w <= i32::MAX
                && i32::MIN <= monitors@[i as int].rect.y + monitors@[i as int].rect.h
                <= i32::MAX));
            return false;
        }
        i = i + 1;
    }
    true
}

/// Whether frame `f` can be drawn for monitor `m`.
pub fn frame_drawable_check(f: &CapturedFrame, m: &MonitorInfo) -> (b: bool)
    ensures
        b == frame_drawable(*f, *m),
{
    let w = m.rect.w;
    let h = m.rect.h;
    if w < 0 || h < 0 {
        return false;
    }
    if w > 0 {
        let a = (w - 1) as u64;
        assert(a * f.width <= 0x7fff_ffff * 0xffff_ffff) by (nonlinear_arith)
            requires
                a <= 0x7fff_ffff,
                f.width <= 0xffff_ffff,
        ;
        if a * f.width as u64 > 0xffff_ffff {
            return false;
        }
    }
    if h > 0 {
        let a = (h - 1) as u64;
        assert(a * f.height <= 0x7fff_ffff * 0xffff_ffff) by (nonlinear_arith)
            requires
                a <= 0x7fff_ffff,
                f.height <= 0xffff_ffff,
        ;
        if a * f.height as u64 > 0xffff_ffff {
            return false;
        }
    }
    if w == 0 || h == 0 {
        return true;
    }
    let row = last_scaled(h as u32, f.height);
    let col = last_scaled(w as u32, f.width);
    assert(row * f.stride <= 0xffff_ffff * 0xffff_ffff) by (nonlinear_arith)
        requires
            row <= 0xffff_ffff,
            f.stride <= 0xffff_ffff,
    ;
    let last = row as u128 * f.stride as u128 + col as u128 * 4;
    last <= 0xffff_ffff && last + 2 < f.data.len() as u128
}

/// The frame row or column that the last of `logical` rows or columns shows.
fn last_scaled(logical: u32, physical: u32) -> (r: u32)
    requires
        logical > 0,
        (logical - 1) * physical <= u32::MAX,
    ensures
        r == scaled_index(logical - 1, physical as int, logical as int),
        r * logical <= (logical - 1) * physical < (r + 1) * logical,
{
    proof {
        lemma_scaled_index_is_floor(logical - 1, physical as int, logical as int);
    }
    let q = (logical - 1) * physical / logical;
    let cap = if physical >= 1 {
        physical - 1
    } else {
        0
    };
    if q <= cap {
        q
    } else {
        cap
    }
}

/// Whether `composite_frames` can work on these monitors and frames.
#[verifier::spinoff_prover]
pub fn composite_ready_check(monitors: &[MonitorInfo], frames: &[CapturedFrame]) -> (b: bool)
    ensures
        b == composite_ready(monitors@, frames@),
{
    let ghost ms = monitors@;
    let ghost fs = frames@;
    if monitors.len() == 0 {
        return false;
    }
    if !edges_fit_check(monitors) {
        return false;
    }
    let (l, t, r, bt) = monitors_bounds(monitors);
    let dx = r as i64 - l as i64;
    let dy = bt as i64 - t as i64;
    if dx < i32::MIN as i64 || dx > i32::MAX as i64 || dy < i32::MIN as i64 || dy > i32::MAX as i64 {
        return false;
    }
    let ew: u128 = if dx >= 0 {
        dx as u128
    } else {
        0
    };
    let eh: u128 = if dy >= 0 {
        dy as u128
    } else {
        0
    };
    assert(ew * eh <= 0x7fff_ffff * 0x7fff_ffff) by (nonlinear_arith)
        requires
            ew <= 0x7fff_ffff,
            eh <= 0x7fff_ffff,
    ;
    assert(4 * ew * eh == 4 * (ew * eh)) by (nonlinear_arith);
    if 4 * ew * eh > usize::MAX as u128 {
        return false;
    }
    assert(image_len(extent(left_edge(ms), right_edge(ms)), extent(top_edge(ms), bottom_edge(ms)))
        == 4 * ew * eh);
    let mut i: usize = 0;
    while i < frames.len()
        invariant
            i <= fs.len(),
            ms == monitors@,
            fs == frames@,
            ms.len() > 0,
            edges_fit(ms),
            i32::MIN <= right_edge(ms) - left_edge(ms) <= i32::MAX,
            i32::MIN <= bottom_edge(ms) - top_edge(ms) <= i32::MAX,
            image_len(extent(left_edge(ms), right_edge(ms)), extent(top_edge(ms), bottom_edge(ms)))
                <= usize::MAX,
            forall|q: int| 0 <= q < i ==> #[trigger] find_monitor(ms, fs[q].name@) is Some,
            forall|q: int|
                0 <= q < i ==> match #[trigger] find_monitor(ms, fs[q].name@) {
                    Some(j) => frame_drawable(fs[q], ms[j]),
                    None => true,
                },
        decreases fs.len() - i,
    {
        match find_monitor_index(monitors, &frames[i].name) {
            None => {
                assert forall|k: int|
                    0 <= k < fs.len() && (forall|j: int|
                        0 <= j < k ==> #[trigger] find_monitor(ms, fs[j].name@) is Some) implies match #[trigger] find_monitor(
                    ms,
                    fs[k].name@,
                ) {
                    Some(j) => frame_drawable(fs[k], ms[j]),
                    None => true,
                } by {
                    if k > i {
                        assert(find_monitor(ms, fs[i as int].name@) is Some);
                    }
                }
                return true;
            },
            Some(j) => {
                if !frame_drawable_check(&frames[i], &monitors[j]) {
                    assert(forall|q: int| 0 <= q < i ==> #[trigger] find_monitor(ms, fs[q].name@) is Some);
                    return false;
                }
            },
        }
        i = i + 1;
    }
    true
}

fn scaled_indices(logical: u32, physical: u32) -> (v: Vec<u32>)
    requires
        logical == 0 || (logical - 1) * physical <= u32::MAX,
    ensures
        v@.len() == logical,
        forall|l: int| 0 <= l < logical ==> #[trigger] v@[l] == scaled_index(l, physical as int, logical as int),
        forall|l: int| 0 <= l < logical ==> #[trigger] v@[l] * logical <= l * physical < (v@[l] + 1)
            * logical,
{
    proof {
        assert forall|l: int| 0 <= l < logical implies #[trigger] scaled_index(l, physical as int, logical as int)
            * logical <= l * physical < (scaled_index(l, physical as int, logical as int) + 1)
            * logical by {
            lemma_scaled_index_is_floor(l, physical as int, logical as int);
        }
    }
    let mut v: Vec<u32> = Vec::new();
    let mut l: u32 = 0;
    while l < logical
        invariant
            l <= logical,
            logical == 0 || (logical - 1) * physical <= u32::MAX,
            v@.len() == l,
            forall|q: int| 0 <= q < l ==> #[trigger] v@[q] == scaled_index(q, physical as int, logical as int),
        decreases logical - l,
    {
        assert(l * physical <= (logical - 1) * physical) by (nonlinear_arith)
            requires
                l <= logical - 1,
        ;
        let last = if physical >= 1 {
            physical - 1
        } else {
            0
        };
        let q = l * physical / logical;
        v.push(if q <= last {
            q
        } else {
            last
        });
        l = l + 1;
    }
    v
}

/// Draw every captured frame into one image in logical pixel space.
///
/// The output dimensions and pixel coordinates match what Hyprland reports
/// for the monitors, with the smallest monitor coordinates at pixel `(0, 0)`.
/// Each frame is scaled to its monitor's logical size (nearest neighbour, so
/// HiDPI monitors are downsampled). A frame whose output is not among the
/// monitors is an error.
#[verifier::spinoff_prover]
pub fn composite_frames(monitors: &[MonitorInfo], frames: &[CapturedFrame]) -> (r: Result<
    RgbaImage,
    AppError,
>)
    requires
        composite_ready(monitors@, frames@),
    ensures
        match first_unmatched(monitors@, frames@) {
            Some(i) => r is Err && other_message_is(
                r->Err_0,
                "Monitor info missing for '"@ + frames@[i].name@ + "'"@,
            ),
            None => r is Ok && image_is(
                r->Ok_0,
                extent(left_edge(monitors@), right_edge(monitors@)),
                extent(top_edge(monitors@), bottom_edge(monitors@)),
            ) && forall|x: int, y: int, k: int|
                0 <= x < extent(left_edge(monitors@), right_edge(monitors@)) && 0 <= y < extent(
                    top_edge(monitors@),
                    bottom_edge(monitors@),
                ) && 0 <= k < 4 ==> #[trigger] sample_at(
                    image_samples(r->Ok_0),
                    extent(left_edge(monitors@), right_edge(monitors@)),
                    x,
                    y,
                    k,
                ) == composite_value(
                    monitors@,
                    frames@,
                    left_edge(monitors@),
                    top_edge(monitors@),
                    x,
                    y,
                    k,
                ),
        },
{
    let ghost ms = monitors@;
    let ghost fs = frames@;
    proof {
        lemma_edges(ms);
        lemma_first_unmatched(ms, fs);
    }
    let (min_x, min_y, max_x, max_y) = monitors_bounds(monitors);
    let dx = max_x - min_x;
    let dy = max_y - min_y;
    let total_w: u32 = if dx >= 0 {
        dx as u32
    } else {
        0
    };
    let total_h: u32 = if dy >= 0 {
        dy as u32
    } else {
        0
    };
    let ghost tw = total_w as int;
    let ghost th = total_h as int;
    let mut img = new_image(total_w, total_h);
    assert forall|x: int, y: int, k: int|
        0 <= x < tw && 0 <= y < th && 0 <= k < 4 implies #[trigger] sample_at(
            image_samples(img),
            tw,
            x,
            y,
            k,
        ) == composite_value(ms, fs.take(0), min_x as int, min_y as int, x, y, k) by {
        assert(0 <= (y * tw + x) * 4 + k < 4 * tw * th) by (nonlinear_arith)
            requires
                0 <= x < tw,
                0 <= y < th,
                0 <= k < 4,
        ;
    }
    assert(forall|j: int| 0 <= j < ms.len() ==> left_edge(ms) <= #[trigger] ms[j].rect.x && top_edge(
        ms,
    ) <= ms[j].rect.y && ms[j].rect.x + ms[j].rect.w <= right_edge(ms) && ms[j].rect.y + ms[j].rect.h
        <= bottom_edge(ms)) by {
        lemma_edges(ms);
    }
    let mut i: usize = 0;
    while i < frames.len()
        invariant
            i <= fs.len(),
            ms == monitors@,
            fs == frames@,
            composite_ready(ms, fs),
            forall|j: int| 0 <= j < ms.len() ==> left_edge(ms) <= #[trigger] ms[j].rect.x
                && top_edge(ms) <= ms[j].rect.y && ms[j].rect.x + ms[j].rect.w <= right_edge(ms)
                && ms[j].rect.y + ms[j].rect.h <= bottom_edge(ms),
            min_x == left_edge(ms),
            min_y == top_edge(ms),
            tw == extent(left_edge(ms), right_edge(ms)),
            th == extent(top_edge(ms), bottom_edge(ms)),
            total_w == tw,
            total_h == th,
            forall|j: int| 0 <= j < i ==> #[trigger] find_monitor(ms, fs[j].name@) is Some,
            image_is(img, tw, th),
            forall|x: int, y: int, k: int|
                0 <= x < tw && 0 <= y < th && 0 <= k < 4 ==> #[trigger] sample_at(
                    image_samples(img),
                    tw,
                    x,
                    y,
                    k,
                ) == composite_value(ms, fs.take(i as int), min_x as int, min_y as int, x, y, k),
        decreases fs.len() - i,
    {
        let f = &frames[i];
        let j = match find_monitor_index(monitors, &f.name) {
            Some(j) => j,
            None => {
                proof {
                    lemma_first_unmatched(ms, fs);
                    let u = first_unmatched(ms, fs);
                    if u is None {
                        assert(find_monitor(ms, fs[i as int].name@) is Some);
                    } else {
                        let w = u->0;
                        if w < i {
                            assert(find_monitor(ms, fs[w].name@) is Some);
                        } else if w > i {
                            assert(find_monitor(ms, fs[i as int].name@) is Some);
                        }
                    }
                }
                let mut m = String::from_str("Monitor info missing for '");
                m.append(f.name.as_str());
                m.append("'");
                return Err(AppError::Other(m));
            },
        };
        let m = &monitors[j];
        assert(frame_drawable(fs[i as int], ms[j as int]));
        let ox = (m.rect.x - min_x) as u32;
        let oy = (m.rect.y - min_y) as u32;
        let log_w = m.rect.w as u32;
        let log_h = m.rect.h as u32;
        let phys_xs = scaled_indices(log_w, f.width);
        let phys_ys = scaled_indices(log_h, f.height);
        let ghost before = image_samples(img);
        let ghost fi = fs[i as int];
        let ghost mi = ms[j as int];
        proof {
            let t = fs.take(i + 1);
            assert(t.drop_last() == fs.take(i as int));
            assert(t.last() == fi);
        }
        let mut ly: u32 = 0;
        while ly < log_h
            invariant
                ly <= log_h,
                ms == monitors@,
                fs == frames@,
                fi == fs[i as int],
                mi == ms[j as int],
                *f == fi,
                *m == mi,
                log_w == mi.rect.w,
                log_h == mi.rect.h,
                ox == mi.rect.x - min_x,
                oy == mi.rect.y - min_y,
                ox + log_w <= tw,
                oy + log_h <= th,
                frame_drawable(fi, mi),
                phys_xs@.len() == log_w,
                phys_ys@.len() == log_h,
                forall|l: int| 0 <= l < log_w ==> #[trigger] phys_xs@[l] == scaled_index(l, fi.width as int, log_w as int),
                forall|l: int| 0 <= l < log_h ==> #[trigger] phys_ys@[l] == scaled_index(l, fi.height as int, log_h as int),
                image_is(img, tw, th),
                forall|x: int, y: int, k: int|
                    0 <= x < tw && 0 <= y < th && 0 <= k < 4 ==> #[trigger] sample_at(
                        image_samples(img),
                        tw,
                        x,
                        y,
                        k,
                    ) == if ox <= x < ox + log_w && oy <= y < oy + ly {
                        frame_pixel(fi.data@, fi.stride as int, fi.format, phys_xs@[x - ox] as int, phys_ys@[y - oy] as int)[k]
                    } else {
                        sample_at(before, tw, x, y, k)
                    },
            decreases log_h - ly,
        {
            let py = phys_ys[ly as usize];
            let mut lx: u32 = 0;
            while lx < log_w
                invariant
                    lx <= log_w,
                    ly < log_h,
                    fi == fs[i as int],
                    *f == fi,
                    py == phys_ys@[ly as int],
                    log_w == mi.rect.w,
                    log_h == mi.rect.h,
                    ox + log_w <= tw,
                    oy + log_h <= th,
                    frame_drawable(fi, mi),
                    phys_xs@.len() == log_w,
                    phys_ys@.len() == log_h,
                    forall|l: int| 0 <= l < log_w ==> #[trigger] phys_xs@[l] == scaled_index(l, fi.width as int, log_w as int),
                    forall|l: int| 0 <= l < log_h ==> #[trigger] phys_ys@[l] == scaled_index(l, fi.height as int, log_h as int),
                    image_is(img, tw, th),
                    forall|x: int, y: int, k: int|
                        0 <= x < tw && 0 <= y < th && 0 <= k < 4 ==> #[trigger] sample_at(
                            image_samples(img),
                            tw,
                            x,
                            y,
                            k,
                        ) == if ox <= x < ox + log_w && oy <= y < oy + log_h && (y < oy + ly || (y == oy + ly && x < ox + lx)) {
                            frame_pixel(fi.data@, fi.stride as int, fi.format, phys_xs@[x - ox] as int, phys_ys@[y - oy] as int)[k]
                        } else {
                            sample_at(before, tw, x, y, k)
                        },
                decreases log_w - lx,
            {
                let px = phys_xs[lx as usize];
                proof {
                    let sx = scaled_index(log_w - 1, fi.width as int, log_w as int);
                    let sy = scaled_index(log_h - 1, fi.height as int, log_h as int);
                    lemma_scaled_index_mono(lx as int, log_w - 1, fi.width as int, log_w as int);
                    lemma_scaled_index_mono(ly as int, log_h - 1, fi.height as int, log_h as int);
                    assert(px <= sx);
                    assert(py <= sy);
                    assert(py * fi.stride <= sy * fi.stride) by (nonlinear_arith)
                        requires
                            py <= sy,
                    ;
                }
                let offset = (py * f.stride + px * 4) as usize;
                let p = read_pixel_rgba(f.data.as_slice(), offset, f.format);
                img.put_pixel(ox + lx, oy + ly, p);
                lx = lx + 1;
            }
            ly = ly + 1;
        }
        proof {
            assert forall|x: int, y: int, k: int|
                0 <= x < tw && 0 <= y < th && 0 <= k < 4 implies #[trigger] sample_at(
                    image_samples(img),
                    tw,
                    x,
                    y,
                    k,
                ) == composite_value(ms, fs.take(i + 1), min_x as int, min_y as int, x, y, k) by {
                let t = fs.take(i + 1);
                assert(t.last() == fi);
                assert(t.drop_last() == fs.take(i as int));
            }
        }
        i = i + 1;
    }
    proof {
        assert(fs.take(fs.len() as int) == fs);
        lemma_first_unmatched(ms, fs);
    }
    Ok(img)
}


// ── Portal frames ─────────────────────────────────────────────────────────────

/// The layout of a raw video frame from the desktop portal.
#[derive(Debug, Clone, Copy, PartialEq, Eq, Structural)]
pub enum VideoFormat {
    /// Bytes `[B, G, R, A]`.
    Bgra,
    /// Bytes `[B, G, R, x]`.
    Bgrx,
    /// Bytes `[R, G, B, A]`.
    Rgba,
    /// Bytes `[R, G, B, x]`.
    Rgbx,
    /// Any other layout; such frames cannot be read.
    Other,
}

/// The RGBA pixel at byte `b` of a video frame in layout `fmt`; the padding
/// byte of the `x` layouts reads as opaque.
pub open spec fn video_pixel(src: Seq<u8>, b: int, fmt: VideoFormat) -> Seq<u8> {
    match fmt {
        VideoFormat::Bgra => seq![src[b + 2], src[b + 1], src[b], src[b + 3]],
        VideoFormat::Bgrx => seq![src[b + 2], src[b + 1], src[b], 255u8],
        VideoFormat::Rgba => seq![src[b], src[b + 1], src[b + 2], src[b + 3]],
        _ => seq![src[b], src[b + 1], src[b + 2], 255u8],
    }
}

/// A `w` × `h` video frame with rows `stride` bytes apart lies within `len`
/// bytes: the last row ends inside.
pub open spec fn video_rows_fit(w: int, h: int, stride: int, len: int) -> bool {
    (h - 1) * stride + w * 4 <= len
}

/// Turn a raw video frame into an RGBA image. There is no image for an empty
/// frame, for a layout that cannot be read, or when a row would run past the
/// end of `data`.
#[verifier::spinoff_prover]
pub fn decode_frame(data: &[u8], w: u32, h: u32, stride: u32, fmt: VideoFormat) -> (r: Option<
    RgbaImage,
>)
    requires
        w == 0 || h == 0 || image_len(w as int, h as int) <= usize::MAX,
    ensures
        r is None <==> (w == 0 || h == 0 || fmt == VideoFormat::Other || !video_rows_fit(
            w as int,
            h as int,
            stride as int,
            data@.len() as int,
        )),
        r matches Some(img) ==> image_is(img, w as int, h as int) && forall|x: int, y: int, k: int|
            0 <= x < w && 0 <= y < h && 0 <= k < 4 ==> #[trigger] sample_at(
                image_samples(img),
                w as int,
                x,
                y,
                k,
            ) == video_pixel(data@, y * stride + x * 4, fmt)[k],
{
    if w == 0 || h == 0 {
        return None;
    }
    let mut img = new_image(w, h);
    let mut row: usize = 0;
    while row < h as usize
        invariant
            row <= h,
            w > 0 && h > 0,
            image_is(img, w as int, h as int),
            row > 0 ==> (row - 1) * stride + w * 4 <= data@.len(),
            row > 0 ==> fmt != VideoFormat::Other,
            forall|x: int, y: int, k: int|
                0 <= x < w && 0 <= y < row && 0 <= k < 4 ==> #[trigger] sample_at(
                    image_samples(img),
                    w as int,
                    x,
                    y,
                    k,
                ) == video_pixel(data@, y * stride + x * 4, fmt)[k],
        decreases h - row,
    {
        let r128 = row as u128;
        let s128 = stride as u128;
        proof {
            assert(r128 * s128 <= 0xffff_ffff * 0xffff_ffff) by (nonlinear_arith)
                requires
                    r128 <= 0xffff_ffff,
                    s128 <= 0xffff_ffff,
            ;
        }
        let end128 = r128 * s128 + w as u128 * 4;
        if end128 > data.len() as u128 {
            proof {
                assert((h - 1) * stride >= row * stride) by (nonlinear_arith)
                    requires
                        row <= h - 1,
                ;
            }
            return None;
        }
        let row_end = end128 as usize;
        let row_start = row_end - w as usize * 4;
        let mut col: usize = 0;
        while col < w as usize
            invariant
                col <= w,
                row < h,
                w > 0 && h > 0,
                row_start == row * stride,
                row_end == row_start + w * 4,
                row_end <= data@.len(),
                image_is(img, w as int, h as int),
                col > 0 ==> fmt != VideoFormat::Other,
                forall|x: int, y: int, k: int|
                    0 <= x < w && 0 <= y < h && 0 <= k < 4 && (y < row || (y == row && x < col))
                        ==> #[trigger] sample_at(image_samples(img), w as int, x, y, k)
                        == video_pixel(data@, y * stride + x * 4, fmt)[k],
            decreases w - col,
        {
            let base = row_start + col * 4;
            let pixel: [u8; 4] = match fmt {
                VideoFormat::Bgra => [data[base + 2], data[base + 1], data[base], data[base + 3]],
                VideoFormat::Bgrx => [data[base + 2], data[base + 1], data[base], 255],
                VideoFormat::Rgba => [data[base], data[base + 1], data[base + 2], data[base + 3]],
                VideoFormat::Rgbx => [data[base], data[base + 1], data[base + 2], 255],
                VideoFormat::Other => {
                    return None;
                },
            };
            assert(pixel@ == video_pixel(data@, row * stride + col * 4, fmt));
            img.put_pixel(col as u32, row as u32, pixel);
            col = col + 1;
        }
        row = row + 1;
    }
    proof {
        assert(video_rows_fit(w as int, h as int, stride as int, data@.len() as int));
    }
    Some(img)
}

/// Whether a `w` × `h` image fits in memory: its bytes can be counted in a `usize`.
pub fn image_fits(w: u32, h: u32) -> (b: bool)
    ensures
        b == (image_len(w as int, h as int) <= usize::MAX),
{
    let w128 = w as u128;
    let h128 = h as u128;
    assert(w128 * h128 <= 0xffff_ffff * 0xffff_ffff) by (nonlinear_arith)
        requires
            w128 <= 0xffff_ffff,
            h128 <= 0xffff_ffff,
    ;
    let wh = w128 * h128;
    assert(image_len(w as int, h as int) == 4 * wh) by (nonlinear_arith)
        requires
            wh == w * h,
    ;
    4 * wh <= usize::MAX as u128
}

/// The bytes of a buffer chunk that starts at `offset` and holds `size`
/// bytes, cut short where the buffer `buf` ends.
pub open spec fn chunk_bytes(buf: Seq<u8>, offset: int, size: int) -> Seq<u8> {
    buf.subrange(min2(offset, buf.len() as int), min2(offset + size, buf.len() as int))
}

/// Decode the frame held in the chunk of `buf` that starts at `offset` and
/// holds `size` bytes; the chunk is cut short where the buffer ends.
pub fn decode_chunk(
    buf: &[u8],
    offset: usize,
    size: usize,
    w: u32,
    h: u32,
    stride: u32,
    fmt: VideoFormat,
) -> (r: Option<RgbaImage>)
    requires
        offset + size <= usize::MAX,
        w == 0 || h == 0 || image_len(w as int, h as int) <= usize::MAX,
    ensures
        ({
            let data = chunk_bytes(buf@, offset as int, size as int);
            &&& r is None <==> (w == 0 || h == 0 || fmt == VideoFormat::Other || !video_rows_fit(
                w as int,
                h as int,
                stride as int,
                data.len() as int,
            ))
            &&& r matches Some(img) ==> image_is(img, w as int, h as int) && forall|
                x: int,
                y: int,
                k: int,
            |
                0 <= x < w && 0 <= y < h && 0 <= k < 4 ==> #[trigger] sample_at(
                    image_samples(img),
                    w as int,
                    x,
                    y,
                    k,
                ) == video_pixel(data, y * stride + x * 4, fmt)[k]
        }),
{
    let end_all = offset + size;
    let end = if end_all <= buf.len() {
        end_all
    } else {
        buf.len()
    };
    let start = if offset <= buf.len() {
        offset
    } else {
        buf.len()
    };
    let frame = &buf[start..end];
    decode_frame(frame, w, h, stride, fmt)
}

/// How a portal pixel at byte `b` reads: BGRA and BGRx hold blue, green,
/// red first, RGBA and RGBx red, green, blue; alpha is the fourth byte for
/// BGRA and RGBA and opaque for the `x` layouts.
pub proof fn lemma_video_layouts(src: Seq<u8>, b: int, fmt: VideoFormat)
    requires
        fmt != VideoFormat::Other,
    ensures
        ({
            let p = video_pixel(src, b, fmt);
            &&& p.len() == 4
            &&& (fmt == VideoFormat::Bgra || fmt == VideoFormat::Bgrx) ==> p[0] == src[b + 2] && p[1]
                == src[b + 1] && p[2] == src[b]
            &&& (fmt == VideoFormat::Rgba || fmt == VideoFormat::Rgbx) ==> p[0] == src[b] && p[1]
                == src[b + 1] && p[2] == src[b + 2]
            &&& (fmt == VideoFormat::Bgra || fmt == VideoFormat::Rgba) ==> p[3] == src[b + 3]
            &&& (fmt == VideoFormat::Bgrx || fmt == VideoFormat::Rgbx) ==> p[3] == 255
        }),
{
}

} // verus!
