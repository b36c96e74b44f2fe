//! Still pictures: backgrounds and covers.
use vstd::prelude::*;

verus! {

/// A picture of red, green, blue and alpha, one byte each, row by row.
#[derive(Debug)]
pub struct Picture {
    pub width: u32,
    pub height: u32,
    pub rgba: Vec<u8>,
}

/// The mathematical value of a `Picture`.
pub ghost struct PictureValue {
    pub width: u32,
    pub height: u32,
    pub rgba: Seq<u8>,
}

impl View for Picture {
    type V = PictureValue;

    open spec fn view(&self) -> PictureValue {
        PictureValue { width: self.width, height: self.height, rgba: self.rgba@ }
    }
}

impl PictureValue {
    /// Whether the picture has four bytes for each pixel.
    pub open spec fn wf(self) -> bool {
        self.rgba.len() == 4 * self.width * self.height
    }
}

/// The picture that some bytes encode, if they encode one: its width, its height, and its pixels.
pub uninterp spec fn decoded(bytes: Seq<u8>) -> Option<(u32, u32, Seq<u8>)>;

/// How the picture that some bytes encode holds its colours, if they encode one: the bits of a
/// pixel, and how many channels share them.
pub uninterp spec fn colour_layout(bytes: Seq<u8>) -> Option<(u16, u8)>;

/// A picture that has been decoded, and how it held its colours before they became bytes.
#[derive(Debug)]
pub struct DecodedPicture {
    pub picture: Picture,
    pub pixel_bits: u16,
    pub channels: u8,
}

/// Decodes a picture.
///
/// Trusted: `image::load_from_memory`, and `to_rgba8` and `color` on what it gives. What comes out
/// depends on the bytes alone, and has four bytes for each pixel.
#[verifier::external_body]
pub(crate) fn decode_picture(bytes: &[u8]) -> (decoding: Option<DecodedPicture>)
    ensures
        match decoding {
            Some(d) => {
                &&& d.picture@.wf()
                &&& decoded(bytes@) == Some((d.picture.width, d.picture.height, d.picture.rgba@))
                &&& colour_layout(bytes@) == Some((d.pixel_bits, d.channels))
            },
            None => decoded(bytes@) is None && colour_layout(bytes@) is None,
        },
{
    let image = image::load_from_memory(bytes).ok()?;
    let (pixel_bits, channels) = (image.color().bits_per_pixel(), image.color().channel_count());
    let image = image.to_rgba8();
    let (width, height) = image.dimensions();
    let picture = Picture { width, height, rgba: image.into_raw() };
    Some(DecodedPicture { picture, pixel_bits, channels })
}

/// Decodes a picture, whatever its colours were.
pub fn load_picture(bytes: &[u8]) -> (picture: Option<Picture>)
    ensures
        match picture {
            Some(p) => p@.wf() && decoded(bytes@) == Some((p.width, p.height, p.rgba@)),
            None => decoded(bytes@) is None,
        },
{
    match decode_picture(bytes) {
        Some(decoding) => Some(decoding.picture),
        None => None,
    }
}

/// Decodes the picture that is shown where there is no other one.
pub fn load_background(bytes: &[u8]) -> (loaded: Option<Picture>)
    ensures
        match loaded {
            Some(p) => p@.wf() && decoded(bytes@) == Some((p.width, p.height, p.rgba@)),
            None => decoded(bytes@) is None,
        },
{
    load_picture(bytes)
}

/// A picture that has been made to fit into a rectangle.
pub uninterp spec fn resized(
    width: u32,
    height: u32,
    rgba: Seq<u8>,
    new_width: u32,
    new_height: u32,
) -> (u32, u32, Seq<u8>);

/// The larger one of a number and one.
pub open spec fn at_least_one(n: u32) -> int {
    if n == 0 {
        1
    } else {
        n as int
    }
}

/// The most pixels that one side of a picture has once it fits into a rectangle: those of the
/// rectangle, or those that keep the proportions, whichever are fewer. Both sides of the picture
/// and of the rectangle are given, the one in question first.
pub open spec fn most_pixels(side: u32, other: u32, new_side: u32, new_other: u32) -> int {
    let kept = side as int * new_other as int / other as int + 1;
    if other != 0 && kept < at_least_one(new_side) {
        kept
    } else {
        at_least_one(new_side)
    }
}

/// The most pixels of a side that places in halves of a pixel can be told apart in, by 32 bit
/// numbers of floating point.
pub const MOST_PLACES: u32 = 0x80_0000;

/// The most pixels of a side that places in quarters of a pixel can be told apart in, by 32 bit
/// numbers of floating point.
pub const MOST_FINE_PLACES: u32 = 0x40_0000;

/// Whether each pixel of a side of up to `new_pixels` lies close enough to a pixel of a side of
/// `pixels`, in 32 bit numbers of floating point: either side may be of any length if the other one
/// is not too long.
pub open spec fn places_fit(pixels: u32, new_pixels: int) -> bool {
    new_pixels <= MOST_PLACES || pixels <= MOST_FINE_PLACES
}

/// Whether a picture can be made to fit: the places of its pixels can be reckoned, and the memory
/// of the machine can hold what it takes, with so many bytes for a pixel of the result.
pub open spec fn resize_fits(
    width: u32,
    height: u32,
    new_width: u32,
    new_height: u32,
    pixel_bytes: int,
) -> bool {
    let columns = most_pixels(width, height, new_width, new_height);
    let rows = most_pixels(height, width, new_height, new_width);
    &&& places_fit(width, columns)
    &&& places_fit(height, rows)
    &&& 8 * width <= isize::MAX
    &&& 8 * height <= isize::MAX
    &&& 16 * width * rows <= isize::MAX
    &&& pixel_bytes * columns * rows <= isize::MAX
}

/// Makes a picture fit into a rectangle, and keeps its proportions.
///
/// Trusted: `image::DynamicImage::resize` with the filter `Triangle`. What comes out depends on the
/// picture and the rectangle alone. A picture that has the size of the rectangle stays as it is,
/// also where that size has no pixels. Any other one becomes no larger than the rectangle, but no
/// side becomes shorter than one pixel. It reckons places in 32 bit numbers of floating point:
/// where a side of the result has at most 2^23 pixels, or one of the picture at most 2^22, each
/// pixel of the result finds a pixel of the picture; where both are longer, it gives up on some
/// sizes. The buffers it makes must fit into memory: one of sixteen bytes a pixel, as wide as the
/// picture and as high as the result, one of four bytes a pixel for the result, and a row of
/// weights of four bytes each, which may grow to twice the length of a side.
#[verifier::external_body]
fn resize_picture(picture: &Picture, new_width: u32, new_height: u32) -> (small: Option<Picture>)
    requires
        picture@.wf(),
        (picture.width, picture.height) == (new_width, new_height) || resize_fits(
            picture.width,
            picture.height,
            new_width,
            new_height,
            4,
        ),
    ensures
        small is Some,
        small.unwrap()@.wf(),
        (small.unwrap().width, small.unwrap().height, small.unwrap().rgba@) == resized(
            picture.width,
            picture.height,
            picture.rgba@,
            new_width,
            new_height,
        ),
        (picture.width, picture.height) == (new_width, new_height) ==> small.unwrap()@ == picture@,
        (picture.width, picture.height) != (new_width, new_height) ==> 1 <= small.unwrap().width
            <= at_least_one(new_width) && 1 <= small.unwrap().height <= at_least_one(new_height),
{
    let rgba = image::RgbaImage::from_raw(picture.width, picture.height, picture.rgba.clone())?;
    let image = image::DynamicImage::ImageRgba8(rgba);
    let filter = image::imageops::FilterType::Triangle;
    let small = image.resize(new_width, new_height, filter).to_rgba8();
    let (width, height) = small.dimensions();
    Some(Picture { width, height, rgba: small.into_raw() })
}

/// A picture that some bytes encode, made to fit into a rectangle before its colours became bytes.
pub uninterp spec fn resized_deep(bytes: Seq<u8>, new_width: u32, new_height: u32) -> (
    u32,
    u32,
    Seq<u8>,
);

/// Makes a picture that some bytes encode fit into a rectangle of another size, and only then turns
/// its colours into bytes.
///
/// Trusted: `image::load_from_memory`, then `image::DynamicImage::resize` with the filter
/// `Triangle`, then `to_rgba8`. What comes out depends on the bytes and the rectangle alone, and
/// has four bytes for each pixel; there is something where the bytes encode a picture. The places
/// must be such that they can be reckoned, and the buffers must fit into memory, as for
/// `resize_picture`; the result has up to sixteen bytes a pixel at first.
#[verifier::external_body]
pub(crate) fn resize_deep(bytes: &[u8], new_width: u32, new_height: u32) -> (small: Option<Picture>)
    requires
        match decoded(bytes@) {
            Some((width, height, _)) => resize_fits(width, height, new_width, new_height, 16),
            None => true,
        },
    ensures
        match small {
            Some(p) => {
                &&& decoded(bytes@) is Some
                &&& p@.wf()
                &&& (p.width, p.height, p.rgba@) == resized_deep(bytes@, new_width, new_height)
            },
            None => decoded(bytes@) is None,
        },
{
    let image = image::load_from_memory(bytes).ok()?;
    let filter = image::imageops::FilterType::Triangle;
    let small = image.resize(new_width, new_height, filter).to_rgba8();
    let (width, height) = small.dimensions();
    Some(Picture { width, height, rgba: small.into_raw() })
}

/// A picture as it is shown for a video of some size; zero means that there is no video.
pub open spec fn fitted(picture: PictureValue, rect: (u32, u32)) -> PictureValue {
    if rect.0 != 0 {
        let (width, height, rgba) = resized(
            picture.width,
            picture.height,
            picture.rgba,
            rect.0,
            rect.1,
        );
        PictureValue { width, height, rgba }
    } else {
        picture
    }
}

/// Whether `fit_picture` may be called on a picture of some size.
pub open spec fn can_fit(width: u32, height: u32, rect: (u32, u32)) -> bool {
    rect.0 != 0 && (width, height) != rect ==> resize_fits(width, height, rect.0, rect.1, 4)
}

/// Counts the most pixels that one side of a picture has once it fits into a rectangle.
fn count_pixels(side: u32, other: u32, new_side: u32, new_other: u32) -> (pixels: u64)
    ensures
        pixels == most_pixels(side, other, new_side, new_other),
        1 <= pixels <= u32::MAX,
{
    let most: u64 = if new_side == 0 {
        1
    } else {
        new_side as u64
    };
    if other == 0 {
        return most;
    }
    let (s, o, n) = (side as u64, other as u64, new_other as u64);
    assert(0 <= s * n <= 0xffff_ffff * 0xffff_ffff) by (nonlinear_arith)
        requires
            0 <= s <= 0xffff_ffff,
            0 <= n <= 0xffff_ffff,
    ;
    assert(0 <= s * n / (o as int) <= s * n) by (nonlinear_arith)
        requires
            0 <= s * n,
            o > 0,
    ;
    let kept: u64 = s * n / o + 1;
    if kept < most {
        kept
    } else {
        most
    }
}

/// Decides whether a picture can be made to fit, with so many bytes for a pixel of the result.
pub fn can_resize(width: u32, height: u32, rect: (u32, u32), pixel_bytes: u8) -> (fits: bool)
    ensures
        fits == resize_fits(width, height, rect.0, rect.1, pixel_bytes as int),
{
    let columns = count_pixels(width, height, rect.0, rect.1);
    let rows = count_pixels(height, width, rect.1, rect.0);
    let places = (columns <= MOST_PLACES as u64 || width <= MOST_FINE_PLACES) && (rows
        <= MOST_PLACES as u64 || height <= MOST_FINE_PLACES);
    let (w, h, c, r, b) = (
        width as u128,
        height as u128,
        columns as u128,
        rows as u128,
        pixel_bytes as u128,
    );
    assert(0 <= 16 * w * r <= 16 * 0xffff_ffff * 0xffff_ffff && 0 <= b * c <= 255 * 0xffff_ffff)
        by (nonlinear_arith)
        requires
            0 <= w <= 0xffff_ffff,
            0 <= r <= 0xffff_ffff,
            0 <= c <= 0xffff_ffff,
            0 <= b <= 255,
    ;
    assert(0 <= b * c * r <= 255 * 0xffff_ffff * 0xffff_ffff) by (nonlinear_arith)
        requires
            0 <= b * c <= 255 * 0xffff_ffff,
            0 <= r <= 0xffff_ffff,
    ;
    let most = isize::MAX as u128;
    places && 8 * w <= most && 8 * h <= most && 16 * w * r <= most && b * c * r <= most
}

/// Decides whether `fit_picture` may be called on a picture of some size.
pub fn can_fit_picture(width: u32, height: u32, rect: (u32, u32)) -> (fits: bool)
    ensures
        fits == can_fit(width, height, rect),
{
    rect.0 == 0 || width == rect.0 && height == rect.1 || can_resize(width, height, rect, 4)
}

/// Makes a picture fit for a video of some size.
pub fn fit_picture(picture: Picture, rect: (u32, u32)) -> (shown: Picture)
    requires
        picture@.wf(),
        can_fit(picture.width, picture.height, rect),
    ensures
        shown@ == fitted(picture@, rect),
        shown@.wf(),
        (picture.width, picture.height) == rect ==> shown@ == picture@,
        rect.0 != 0 ==> 1 <= shown.width <= rect.0 && shown.height <= at_least_one(rect.1),
        rect.0 != 0 && (picture.width, picture.height) != rect ==> 1 <= shown.height,
{
    if rect.0 != 0 {
        match resize_picture(&picture, rect.0, rect.1) {
            Some(small) => small,
            None => picture,
        }
    } else {
        picture
    }
}

/// A colour that has been multiplied by how opaque it is, of 255, and rounded.
pub open spec fn multiplied(colour: u8, alpha: u8) -> u8 {
    ((colour * alpha + 127) / 255) as u8
}

/// A picture each of whose colours has been multiplied by how opaque its pixel is.
pub open spec fn premultiplied(picture: PictureValue) -> PictureValue {
    PictureValue {
        rgba: Seq::new(
            picture.rgba.len(),
            |i: int|
                if i % 4 == 3 {
                    picture.rgba[i]
                } else {
                    multiplied(picture.rgba[i], picture.rgba[i - i % 4 + 3])
                },
        ),
        ..picture
    }
}

/// Multiplies a colour by how opaque it is.
fn multiply(colour: u8, alpha: u8) -> (product: u8)
    ensures
        product == multiplied(colour, alpha),
{
    assert(0 <= colour * alpha <= 255 * 255) by (nonlinear_arith)
        requires
            0 <= colour <= 255,
            0 <= alpha <= 255,
    ;
    ((colour as u32 * alpha as u32 + 127) / 255) as u8
}

/// Multiplies each colour of a picture by how opaque its pixel is, as a texture holds them.
pub fn premultiply(picture: Picture) -> (shown: Picture)
    requires
        picture@.wf(),
    ensures
        shown@ == premultiplied(picture@),
        shown@.wf(),
{
    let mut rgba: Vec<u8> = Vec::new();
    let len: usize = picture.rgba.len();
    proof {
        assert(4 * picture.width * picture.height == 4 * (picture.width * picture.height))
            by (nonlinear_arith);
    }
    while rgba.len() < len
        invariant
            picture@.wf(),
            len == picture.rgba@.len(),
            len % 4 == 0,
            rgba@.len() <= len,
            rgba@ == premultiplied(picture@).rgba.take(rgba@.len() as int),
        decreases len - rgba@.len(),
    {
        let i: usize = rgba.len();
        let byte: u8 = if i % 4 == 3 {
            picture.rgba[i]
        } else {
            multiply(picture.rgba[i], picture.rgba[i - i % 4 + 3])
        };
        rgba.push(byte);
        assert(rgba@ =~= premultiplied(picture@).rgba.take(i + 1));
    }
    assert(rgba@ =~= premultiplied(picture@).rgba);
    Picture { width: picture.width, height: picture.height, rgba }
}

/// Copies a picture.
pub fn copy_picture(picture: &Picture) -> (copy: Picture)
    ensures
        copy@ == picture@,
{
    let mut rgba: Vec<u8> = Vec::new();
    let len: usize = picture.rgba.len();
    while rgba.len() < len
        invariant
            len == picture.rgba@.len(),
            rgba@.len() <= len,
            rgba@ == picture.rgba@.take(rgba@.len() as int),
        decreases len - rgba@.len(),
    {
        let ghost n = rgba@.len() as int;
        rgba.push(picture.rgba[rgba.len()]);
        assert(rgba@ =~= picture.rgba@.take(n + 1));
    }
    assert(rgba@ =~= picture.rgba@);
    Picture { width: picture.width, height: picture.height, rgba }
}

/// A colour is multiplied by how opaque it is, of 255, to the nearest whole number. What is opaque
/// stays as it is, what is not opaque at all becomes nothing, and nothing becomes brighter.
pub proof fn law_multiplied(colour: u8, alpha: u8)
    ensures
        -127 <= 255 * multiplied(colour, alpha) - colour * alpha <= 127,
        multiplied(colour, 255) == colour,
        multiplied(colour, 0) == 0,
        multiplied(colour, alpha) <= colour,
        multiplied(colour, alpha) == multiplied(alpha, colour),
{
    let product = colour as int * alpha as int;
    assert(0 <= product <= 255 * colour && colour * alpha == alpha * colour) by (nonlinear_arith)
        requires
            product == colour as int * alpha as int,
            0 <= colour <= 255,
            0 <= alpha <= 255,
    ;
    assert(colour * 255 == 255 * colour && colour * 0 == 0) by (nonlinear_arith);
}

/// A picture keeps its size and how opaque each of its pixels is when it is premultiplied, and each
/// red, green and blue becomes its share of that. A picture that is opaque everywhere stays as it
/// is.
pub proof fn law_premultiplied(picture: PictureValue, pixel: int)
    requires
        picture.wf(),
        0 <= pixel,
        4 * pixel + 4 <= picture.rgba.len(),
    ensures
        ({
            let shown = premultiplied(picture);
            let (at, alpha) = (4 * pixel, picture.rgba[4 * pixel + 3]);
            &&& shown.width == picture.width && shown.height == picture.height
            &&& shown.rgba.len() == picture.rgba.len()
            &&& shown.rgba[at + 3] == alpha
            &&& -127 <= 255 * shown.rgba[at] - picture.rgba[at] * alpha <= 127
            &&& -127 <= 255 * shown.rgba[at + 1] - picture.rgba[at + 1] * alpha <= 127
            &&& -127 <= 255 * shown.rgba[at + 2] - picture.rgba[at + 2] * alpha <= 127
            &&& alpha == 255 ==> shown.rgba[at] == picture.rgba[at] && shown.rgba[at + 1]
                == picture.rgba[at + 1] && shown.rgba[at + 2] == picture.rgba[at + 2]
            &&& alpha == 0 ==> shown.rgba[at] == 0 && shown.rgba[at + 1] == 0 && shown.rgba[at + 2] == 0
        }),
{
    let (at, alpha) = (4 * pixel, picture.rgba[4 * pixel + 3]);
    assert(at % 4 == 0 && (at + 1) % 4 == 1 && (at + 2) % 4 == 2 && (at + 3) % 4 == 3);
    law_multiplied(picture.rgba[at], alpha);
    law_multiplied(picture.rgba[at + 1], alpha);
    law_multiplied(picture.rgba[at + 2], alpha);
}

/// Without a video a picture is shown as it is. For a video it becomes what it is when it has been
/// made to fit into a rectangle of the size of the video.
pub proof fn law_fitted(picture: PictureValue, rect: (u32, u32))
    ensures
        rect.0 == 0 ==> fitted(picture, rect) == picture,
        rect.0 > 0 ==> (
            fitted(picture, rect).width,
            fitted(picture, rect).height,
            fitted(picture, rect).rgba,
        ) == resized(picture.width, picture.height, picture.rgba, rect.0, rect.1),
{
}

/// A side that has been made to fit is not longer than that of the rectangle, nor, by more than a
/// pixel, than the proportions allow, and it is never without pixels.
pub proof fn law_most_pixels(side: u32, other: u32, new_side: u32, new_other: u32)
    ensures
        1 <= most_pixels(side, other, new_side, new_other),
        new_side > 0 ==> most_pixels(side, other, new_side, new_other) <= new_side,
        new_side == 0 ==> most_pixels(side, other, new_side, new_other) == 1,
        other > 0 ==> (most_pixels(side, other, new_side, new_other) - 1) * other <= side * new_other,
        other > 0 && side * new_other >= new_side * other && new_side > 0 ==> most_pixels(
            side,
            other,
            new_side,
            new_other,
        ) == new_side,
{
    if other > 0 {
        let (product, o) = (side as int * new_other as int, other as int);
        let kept = product / o;
        assert(product >= 0) by (nonlinear_arith)
            requires
                product == side as int * new_other as int,
                side >= 0,
                new_other >= 0,
        ;
        vstd::arithmetic::div_mod::lemma_div_pos_is_pos(product, o);
        vstd::arithmetic::div_mod::lemma_fundamental_div_mod(product, o);
        let most = most_pixels(side, other, new_side, new_other);
        assert(most - 1 <= kept);
        assert((most - 1) * o <= product) by (nonlinear_arith)
            requires
                most - 1 <= kept,
                product == o * kept + product % o,
                0 <= product % o,
                o > 0,
        ;
        if product >= new_side * o {
            assert(kept >= new_side) by (nonlinear_arith)
                requires
                    product >= new_side * o,
                    product == o * kept + product % o,
                    product % o < o,
                    o > 0,
            ;
        }
    }
}

/// Every picture of up to 8192 pixels a side can be made to fit into every rectangle of up to that
/// size, whatever its colours, and every picture can be shown as it is.
pub proof fn law_pictures_fit(width: u32, height: u32, rect: (u32, u32), pixel_bytes: int)
    requires
        width <= 8192,
        height <= 8192,
        rect.0 <= 8192,
        rect.1 <= 8192,
        0 <= pixel_bytes <= 16,
    ensures
        resize_fits(width, height, rect.0, rect.1, pixel_bytes),
        can_fit(width, height, rect),
        forall|w: u32, h: u32| #[trigger] can_fit(w, h, (w, h)),
        forall|w: u32, h: u32, any: u32| #[trigger] can_fit(w, h, (0, any)),
{
    law_most_pixels(width, height, rect.0, rect.1);
    law_most_pixels(height, width, rect.1, rect.0);
    let columns = most_pixels(width, height, rect.0, rect.1);
    let rows = most_pixels(height, width, rect.1, rect.0);
    assert(isize::MAX >= 0x7fff_ffff);
    assert(16 * width * rows <= 16 * 8192 * 8192) by (nonlinear_arith)
        requires
            0 <= width <= 8192,
            0 <= rows <= 8192,
    ;
    lemma_bytes_fit(pixel_bytes, columns, rows);
    lemma_bytes_fit(4, columns, rows);
    assert(resize_fits(width, height, rect.0, rect.1, 4));
}

proof fn lemma_bytes_fit(pixel_bytes: int, columns: int, rows: int)
    requires
        0 <= pixel_bytes <= 16,
        0 <= columns <= 8192,
        0 <= rows <= 8192,
    ensures
        pixel_bytes * columns * rows <= 16 * 8192 * 8192,
{
    assert(0 <= pixel_bytes * columns <= 16 * 8192) by (nonlinear_arith)
        requires
            0 <= pixel_bytes <= 16,
            0 <= columns <= 8192,
    ;
    let row = pixel_bytes * columns;
    assert(row * rows <= 16 * 8192 * 8192) by (nonlinear_arith)
        requires
            0 <= row <= 16 * 8192,
            0 <= rows <= 8192,
    ;
}

/// Larger pictures can be made to fit too, as long as one of the two sides in question, of the picture
/// and of the rectangle, is not too long, and the memory can hold a buffer as wide as the picture and as
/// high as the rectangle, and one as large as the rectangle.
pub proof fn law_large_pictures_fit(width: u32, height: u32, rect: (u32, u32), pixel_bytes: int)
    requires
        rect.0 > 0,
        rect.1 > 0,
        rect.0 <= 8388608 || width <= 4194304,
        rect.1 <= 8388608 || height <= 4194304,
        8 * width <= isize::MAX,
        8 * height <= isize::MAX,
        16 * width * rect.1 <= isize::MAX,
        0 <= pixel_bytes,
        pixel_bytes * rect.0 * rect.1 <= isize::MAX,
    ensures
        resize_fits(width, height, rect.0, rect.1, pixel_bytes),
{
    law_most_pixels(width, height, rect.0, rect.1);
    law_most_pixels(height, width, rect.1, rect.0);
    let columns = most_pixels(width, height, rect.0, rect.1);
    let rows = most_pixels(height, width, rect.1, rect.0);
    let wide = 16 * width;
    assert(wide * rows <= wide * rect.1) by (nonlinear_arith)
        requires
            0 <= wide,
            rows <= rect.1,
    ;
    assert(0 <= pixel_bytes * columns <= pixel_bytes * rect.0) by (nonlinear_arith)
        requires
            0 <= pixel_bytes,
            0 <= columns <= rect.0,
    ;
    let (row, whole) = (pixel_bytes * columns, pixel_bytes * rect.0);
    assert(row * rows <= whole * rect.1) by (nonlinear_arith)
        requires
            0 <= row <= whole,
            0 <= rows <= rect.1,
    ;
}

} // verus!
