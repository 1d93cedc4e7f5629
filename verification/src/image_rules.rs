//! Rules for the images inside a comic: which files are images, which way an
//! image is converted, the dimensions WebP accepts, and the pixel buffers of
//! JPEG 2000 pages.
use vstd::prelude::*;
use crate::paths::{extension, extension_of};
use crate::text::{lemma_lowercase_is_unique, lowercase_equals, lowercase_is};

verus! {

/// The largest width or height WebP can encode.
pub const WEBP_MAX_DIMENSION: u32 = 16383;

#[verifier::external_type_specification]
#[verifier::external_body]
pub struct ExCmsError(moxcms::CmsError);

#[verifier::external_type_specification]
#[verifier::external_body]
pub struct ExJp2Error(jpeg2k::error::Error);

/// The stage at which a colour profile conversion failed.
#[derive(Debug)]
pub enum IccFailure {
    /// The ICC profile could not be read.
    Profile(moxcms::CmsError),
    /// No transform to sRGB could be built from the profile.
    Transform(moxcms::CmsError),
    /// The pixels could not be converted.
    Conversion(moxcms::CmsError),
}

/// Why an image is not converted.
#[derive(Debug)]
pub enum ImageError {
    /// WebP takes neither an empty image nor one wider or higher than 16383 pixels.
    InvalidWebpDimensions { width: u32, height: u32 },
    /// The decoded image has no pixels.
    EmptyImage { width: u32, height: u32 },
    /// The width computed for the target height exceeds what WebP takes.
    TargetTooWide { width: u32 },
    /// The JPEG 2000 pixels are neither grey, RGB nor RGBA with 8-bit samples.
    UnsupportedJp2Pixels,
    /// The colour profile of a JPEG 2000 image could not be applied.
    ColorProfile(IccFailure),
    /// The file could not be decoded as an image.
    DecodeFailed,
    /// The JPEG 2000 file could not be read.
    Jp2Unreadable(jpeg2k::error::Error),
    /// The pixels of the JPEG 2000 image could not be read.
    Jp2PixelsUnreadable(jpeg2k::error::Error),
    /// The JPEG 2000 samples are fewer than its size calls for.
    Jp2TooFewSamples,
}

/// Whether WebP can encode an image of these dimensions.
pub open spec fn webp_dimensions_ok(width: u32, height: u32) -> bool {
    0 < width <= WEBP_MAX_DIMENSION && 0 < height <= WEBP_MAX_DIMENSION
}

/// WebP takes exactly the images of one to 16383 pixels in each direction,
/// whichever way round: a page too high is refused as a page too wide is.
pub proof fn lemma_webp_bounds(width: u32, height: u32)
    ensures
        webp_dimensions_ok(width, height) <==> (1 <= width <= 16383 && 1 <= height <= 16383),
        webp_dimensions_ok(width, height) == webp_dimensions_ok(height, width),
{
}

/// Checks that WebP can encode an image of these dimensions.
pub fn check_webp_dimensions(width: u32, height: u32) -> (r: Result<(), ImageError>)
    ensures
        r is Ok <==> webp_dimensions_ok(width, height),
        r matches Err(e) ==> e == (ImageError::InvalidWebpDimensions { width, height }),
{
    if width > WEBP_MAX_DIMENSION || height > WEBP_MAX_DIMENSION || width == 0 || height == 0 {
        Err(ImageError::InvalidWebpDimensions { width, height })
    } else {
        Ok(())
    }
}

/// Checks that a decoded image has pixels.
pub fn check_source_dimensions(width: u32, height: u32) -> (r: Result<(), ImageError>)
    ensures
        r is Ok <==> (width > 0 && height > 0),
        r matches Err(e) ==> e == (ImageError::EmptyImage { width, height }),
{
    if width == 0 || height == 0 {
        Err(ImageError::EmptyImage { width, height })
    } else {
        Ok(())
    }
}

/// Checks that the width computed for the target height can be encoded.
pub fn check_target_width(width: u32) -> (r: Result<(), ImageError>)
    ensures
        r is Ok <==> width <= WEBP_MAX_DIMENSION,
        r matches Err(e) ==> e == (ImageError::TargetTooWide { width }),
{
    if width > WEBP_MAX_DIMENSION {
        Err(ImageError::TargetTooWide { width })
    } else {
        Ok(())
    }
}

/// An extension of an image file that is converted, without regard to case.
pub open spec fn is_image_extension(ext: Seq<char>) -> bool {
    ||| lowercase_is(ext, "jpg"@)
    ||| lowercase_is(ext, "jpeg"@)
    ||| lowercase_is(ext, "png"@)
    ||| lowercase_is(ext, "bmp"@)
    ||| lowercase_is(ext, "webp"@)
    ||| lowercase_is(ext, "jp2"@)
}

/// A file that is converted: its name has an image extension. Other files,
/// such as `ComicInfo.xml`, are kept as they are.
pub open spec fn is_image_path(path: Seq<char>) -> bool {
    extension_of(path) matches Some(e) && is_image_extension(e)
}

/// Whether the file at `path` is an image to convert.
pub fn is_supported_image(path: &str) -> (r: bool)
    ensures
        r == is_image_path(path@),
{
    match extension(path) {
        None => false,
        Some(e) => {
            let s = e.as_str();
            lowercase_equals(s, "jpg") || lowercase_equals(s, "jpeg") || lowercase_equals(s, "png")
                || lowercase_equals(s, "bmp") || lowercase_equals(s, "webp") || lowercase_equals(
                s,
                "jp2",
            )
        },
    }
}

/// The way an image file is handled.
#[derive(Clone, Copy, Debug, PartialEq, Eq, Structural)]
pub enum ImageRoute {
    /// The image stays as it is: compression is switched off, or it is
    /// already WebP and re-encoding is not forced.
    Keep,
    /// A JPEG 2000 image, decoded with its own decoder and colour profile.
    Jp2,
    /// Any other image, decoded, resized and encoded to WebP.
    Standard,
}

/// The way the image at `path` is handled.
pub open spec fn route_of(skip_compression: bool, force_shrink: bool, path: Seq<char>) -> ImageRoute {
    if skip_compression {
        ImageRoute::Keep
    } else if extension_of(path) matches Some(e) && lowercase_is(e, "jp2"@) {
        ImageRoute::Jp2
    } else if !force_shrink && (extension_of(path) matches Some(e) && lowercase_is(e, "webp"@)) {
        ImageRoute::Keep
    } else {
        ImageRoute::Standard
    }
}

/// With compression on, an image stays as it is only when it is a WebP file
/// and re-encoding is not forced; JPEG, PNG and BMP pages are always
/// converted, and only JPEG 2000 files take their own decoder. With
/// compression off, nothing is re-encoded.
pub proof fn lemma_routes(force_shrink: bool, path: Seq<char>)
    ensures
        route_of(true, force_shrink, path) == ImageRoute::Keep,
        route_of(false, force_shrink, path) == ImageRoute::Keep ==> !force_shrink && (extension_of(
            path,
        ) matches Some(e) && lowercase_is(e, "webp"@)),
        route_of(false, force_shrink, path) == ImageRoute::Jp2 ==> (extension_of(path) matches Some(e)
            && lowercase_is(e, "jp2"@)),
        (extension_of(path) matches Some(e) && (lowercase_is(e, "jpg"@) || lowercase_is(e, "jpeg"@)
            || lowercase_is(e, "png"@) || lowercase_is(e, "bmp"@))) ==> route_of(false, force_shrink, path)
            == ImageRoute::Standard,
{
    reveal_strlit("jpg");
    reveal_strlit("jpeg");
    reveal_strlit("png");
    reveal_strlit("bmp");
    reveal_strlit("webp");
    reveal_strlit("jp2");
    if let Some(e) = extension_of(path) {
        if lowercase_is(e, "jp2"@) {
            if lowercase_is(e, "jpg"@) { lemma_lowercase_is_unique(e, "jp2"@, "jpg"@); assert(("jp2"@)[2] != ("jpg"@)[2]); }
            if lowercase_is(e, "jpeg"@) { lemma_lowercase_is_unique(e, "jp2"@, "jpeg"@); assert(("jp2"@).len() != ("jpeg"@).len()); }
            if lowercase_is(e, "png"@) { lemma_lowercase_is_unique(e, "jp2"@, "png"@); assert(("jp2"@)[0] != ("png"@)[0]); }
            if lowercase_is(e, "bmp"@) { lemma_lowercase_is_unique(e, "jp2"@, "bmp"@); assert(("jp2"@)[0] != ("bmp"@)[0]); }
        }
        if lowercase_is(e, "webp"@) {
            if lowercase_is(e, "jpg"@) { lemma_lowercase_is_unique(e, "webp"@, "jpg"@); assert(("webp"@).len() != ("jpg"@).len()); }
            if lowercase_is(e, "jpeg"@) { lemma_lowercase_is_unique(e, "webp"@, "jpeg"@); assert(("webp"@)[0] != ("jpeg"@)[0]); }
            if lowercase_is(e, "png"@) { lemma_lowercase_is_unique(e, "webp"@, "png"@); assert(("webp"@).len() != ("png"@).len()); }
            if lowercase_is(e, "bmp"@) { lemma_lowercase_is_unique(e, "webp"@, "bmp"@); assert(("webp"@).len() != ("bmp"@).len()); }
        }
    }
}

/// Chooses how the image at `path` is handled: nothing is re-encoded when
/// compression is switched off; JPEG 2000 images take their own decoder;
/// images already in WebP are re-encoded only when `force_shrink` asks for it.
pub fn image_route(skip_compression: bool, force_shrink: bool, path: &str) -> (r: ImageRoute)
    ensures
        r == route_of(skip_compression, force_shrink, path@),
{
    if skip_compression {
        return ImageRoute::Keep;
    }
    match extension(path) {
        Some(e) => {
            if lowercase_equals(e.as_str(), "jp2") {
                ImageRoute::Jp2
            } else if !force_shrink && lowercase_equals(e.as_str(), "webp") {
                ImageRoute::Keep
            } else {
                ImageRoute::Standard
            }
        },
        None => ImageRoute::Standard,
    }
}

/// An image with 8-bit RGB samples, row by row.
#[derive(Clone, Debug)]
pub struct RgbImage {
    /// Width in pixels.
    pub width: u32,
    /// Height in pixels.
    pub height: u32,
    /// Three samples per pixel.
    pub pixels: Vec<u8>,
}

impl RgbImage {
    /// The buffer holds exactly three samples for each pixel.
    pub open spec fn is_whole(&self) -> bool {
        self.pixels@.len() == 3 * self.width * self.height
    }
}

/// The text of an optional string.
pub open spec fn text_of(o: Option<&str>) -> Option<Seq<char>> {
    match o {
        Some(s) => Some(s@),
        None => None,
    }
}

/// The width and height of the image that the `image` crate decodes from
/// `bytes` of a file with the extension `extension`, or `None` when they are
/// not an image it reads.
pub uninterp spec fn decoded_size(bytes: Seq<u8>, extension: Option<Seq<char>>) -> Option<(u32, u32)>;

/// Opens `bytes` with `image::ImageReader`, as `ImageReader::open` opens a
/// file: the format named by the file's extension
/// (`ImageFormat::from_extension`) is set first, and `with_guessed_format`
/// replaces it by the one the content shows, when it shows one; then
/// `decode` and `DynamicImage::to_rgb8`.
///
/// Claimed: whether the bytes decode, and the size of the image, are a
/// function of the bytes and the extension alone, named [`decoded_size`]
/// (read from the file's header, under the decoder's fixed default limits);
/// the RGB buffer holds three samples per pixel. The sample values are not
/// stated: the JPEG decoder picks its colour conversion and upsampling code
/// from the processor's features at run time.
#[verifier::external_body]
fn decode_rgb(bytes: &[u8], extension: Option<&str>) -> (r: Option<RgbImage>)
    ensures
        match r {
            Some(i) => decoded_size(bytes@, text_of(extension)) == Some((i.width, i.height)) && i.is_whole(),
            None => decoded_size(bytes@, text_of(extension)) is None,
        },
{
    let mut reader = image::ImageReader::new(std::io::Cursor::new(bytes));
    if let Some(format) = extension.and_then(image::ImageFormat::from_extension) {
        reader.set_format(format);
    }
    let img = reader.with_guessed_format().ok()?.decode().ok()?;
    let rgb = img.to_rgb8();
    let (width, height) = rgb.dimensions();
    Some(RgbImage { width, height, pixels: rgb.into_raw() })
}

/// The size `DynamicImage::resize` gives an image of `width` by `height`
/// asked to fit within `nwidth` by `nheight`: the largest size of the same
/// aspect ratio that fits, as `image`'s `resize_dimensions` computes it from
/// the four integers (each side at least one).
pub uninterp spec fn resized_size(width: u32, height: u32, nwidth: u32, nheight: u32) -> (u32, u32);

/// The buffers that the resize allocates fit in memory: the intermediate
/// image of the original width at the new height (four `f32` samples per
/// pixel) and the result, whose sides are at most one more than asked.
pub open spec fn resize_fits(width: u32, nwidth: u32, nheight: u32) -> bool {
    &&& 4 * (width as int) * (nheight as int + 1) <= usize::MAX
    &&& 4 * (nwidth as int + 1) * (nheight as int + 1) <= usize::MAX
}

/// Calls `DynamicImage::resize` with `FilterType::Lanczos3` on an RGB image,
/// which scales it, keeping its aspect ratio, to the largest size that fits
/// within `nwidth` by `nheight`, and `to_rgb8` on the result.
///
/// Claimed: the new size is a function of the old size and the bounds, named
/// [`resized_size`] (`resize_dimensions` divides, rounds and compares
/// `f64`s, which IEEE 754 fixes exactly), each side at least one; asked for
/// the size it already has, the image comes back as it is; the buffer holds
/// three samples per pixel. The resized samples are not stated: the Lanczos3
/// kernel calls `f32::sin`, whose precision std leaves unspecified.
/// `requires` leaves out empty images and sizes whose buffers overflow
/// `usize`, on which the resize panics.
#[verifier::external_body]
fn resize_lanczos3(img: &RgbImage, nwidth: u32, nheight: u32) -> (r: RgbImage)
    requires
        img.is_whole(),
        img.width > 0,
        img.height > 0,
        resize_fits(img.width, nwidth, nheight),
    ensures
        (r.width, r.height) == resized_size(img.width, img.height, nwidth, nheight),
        r.width >= 1 && r.height >= 1,
        (nwidth, nheight) == (img.width, img.height) ==> r.width == img.width && r.height == img.height
            && r.pixels@ == img.pixels@,
        r.is_whole(),
{
    let buf = image::RgbImage::from_raw(img.width, img.height, img.pixels.clone()).unwrap();
    let out = image::DynamicImage::ImageRgb8(buf).resize(nwidth, nheight, image::imageops::FilterType::Lanczos3).to_rgb8();
    let (width, height) = out.dimensions();
    RgbImage { width, height, pixels: out.into_raw() }
}

/// Decodes a page image, the content of a file with the extension
/// `extension`, to RGB. It fails when the bytes are no image that can be
/// read, or when the image has no pixels.
pub fn decode_page(bytes: &[u8], extension: Option<&str>) -> (r: Result<RgbImage, ImageError>)
    ensures
        match decoded_size(bytes@, text_of(extension)) {
            None => r matches Err(ImageError::DecodeFailed),
            Some((w, h)) => if w == 0 || h == 0 {
                r matches Err(e) && e == (ImageError::EmptyImage { width: w, height: h })
            } else {
                r matches Ok(i) && i.width == w && i.height == h && i.is_whole()
            },
        },
{
    match decode_rgb(bytes, extension) {
        None => Err(ImageError::DecodeFailed),
        Some(img) => match check_source_dimensions(img.width, img.height) {
            Err(e) => Err(e),
            Ok(()) => Ok(img),
        },
    }
}

/// Resizes a decoded page with the Lanczos3 filter to the largest size of
/// its aspect ratio that fits the target; a page already of the target size
/// comes back as it is. The target width, computed by the caller from
/// the page's aspect ratio, must not exceed what WebP can encode.
pub fn resize_page(img: &RgbImage, target_width: u32, target_height: u32) -> (r: Result<RgbImage, ImageError>)
    requires
        img.is_whole(),
        img.width > 0,
        img.height > 0,
        resize_fits(img.width, target_width, target_height),
    ensures
        if target_width > WEBP_MAX_DIMENSION {
            r matches Err(e) && e == (ImageError::TargetTooWide { width: target_width })
        } else {
            &&& r matches Ok(o)
            &&& r matches Ok(o) ==> (o.width, o.height) == resized_size(
                img.width,
                img.height,
                target_width,
                target_height,
            ) && o.width >= 1 && o.height >= 1 && o.is_whole()
            &&& r matches Ok(o) ==> ((target_width, target_height) == (img.width, img.height)
                ==> o.pixels@ == img.pixels@)
        },
{
    match check_target_width(target_width) {
        Err(e) => Err(e),
        Ok(()) => Ok(resize_lanczos3(img, target_width, target_height)),
    }
}

/// The RGB buffer made from an RGBA buffer by dropping the alpha byte of each
/// complete pixel; an incomplete pixel at the end is dropped.
pub open spec fn rgb_from_rgba(rgba: Seq<u8>) -> Seq<u8> {
    Seq::new((3 * (rgba.len() / 4)) as nat, |m: int| rgba[4 * (m / 3) + m % 3])
}

/// Drops the alpha channel of an RGBA buffer.
pub fn rgba_to_rgb(rgba: &Vec<u8>) -> (r: Vec<u8>)
    ensures
        r@ == rgb_from_rgba(rgba@),
{
    let pixels = rgba.len() / 4;
    let mut out: Vec<u8> = Vec::new();
    let mut q: usize = 0;
    while q < pixels
        invariant
            pixels == rgba.len() / 4,
            q <= pixels,
            out.len() == 3 * q,
            forall|m: int| 0 <= m < out.len() ==> out@[m] == #[trigger] rgb_from_rgba(rgba@)[m],
        decreases pixels - q,
    {
        let base = 4 * q;
        out.push(rgba[base]);
        out.push(rgba[base + 1]);
        out.push(rgba[base + 2]);
        proof {
            assert forall|m: int| 3 * q <= m < 3 * q + 3 implies out@[m] == #[trigger] rgb_from_rgba(
                rgba@,
            )[m] by {
                assert(m / 3 == q);
                assert(m % 3 == m - 3 * q);
            }
        }
        q = q + 1;
    }
    assert(out@ =~= rgb_from_rgba(rgba@));
    out
}

/// The pixels of a decoded JPEG 2000 image.
#[derive(Clone, Debug)]
pub enum Jp2Pixels {
    /// 8-bit grey samples.
    Gray8(Vec<u8>),
    /// 8-bit RGB samples.
    Rgb8(Vec<u8>),
    /// 8-bit RGBA samples.
    Rgba8(Vec<u8>),
    /// Any other layout (grey with alpha, 16-bit samples).
    Other,
}

/// A JPEG 2000 image ready to be encoded.
#[derive(Clone, Debug)]
pub enum Jp2Image {
    /// Grey samples, encoded as they are.
    Gray(Vec<u8>),
    /// RGB samples, to which the image's colour profile is applied first.
    Rgb(Vec<u8>),
}

/// A decoded JPEG 2000 image: the size of its first component and its samples.
#[derive(Clone, Debug)]
pub struct Jp2Decoded {
    /// Width in pixels.
    pub width: u32,
    /// Height in pixels.
    pub height: u32,
    /// The samples, by layout.
    pub pixels: Jp2Pixels,
}

/// The layout of JPEG 2000 pixels as a tag (0 grey, 1 RGB, 2 RGBA, 3 any
/// other) with their samples (none for the other layouts).
pub open spec fn jp2_layout(p: Jp2Pixels) -> (u8, Seq<u8>) {
    match p {
        Jp2Pixels::Gray8(d) => (0, d@),
        Jp2Pixels::Rgb8(d) => (1, d@),
        Jp2Pixels::Rgba8(d) => (2, d@),
        Jp2Pixels::Other => (3, Seq::empty()),
    }
}

/// What OpenJPEG, through `jpeg2k`, decodes from `bytes`: the width, the
/// height, the layout tag and the samples (see [`jp2_layout`]), or `None`
/// when the file or its pixels cannot be read.
pub uninterp spec fn jp2_decoded(bytes: Seq<u8>) -> Option<(u32, u32, u8, Seq<u8>)>;

/// Calls `jpeg2k::Image::from_bytes`, which reads a JPEG 2000 file with
/// OpenJPEG, and `Image::get_pixels` with no default alpha, which gathers the
/// components into interleaved samples; tells the layouts apart and reports
/// each error with its stage.
///
/// The decoded image is an outside handle whose contents cannot be named over
/// plain values, so both calls stand in this one item. Claimed: the result is
/// a function of the bytes alone (the decoding threads only share out the
/// work), named [`jp2_decoded`]; a failure, at either stage, is exactly when
/// the name gives `None`.
#[verifier::external_body]
fn read_jp2(bytes: &[u8]) -> (r: Result<Jp2Decoded, ImageError>)
    ensures
        match r {
            Ok(d) => jp2_decoded(bytes@) == Some(
                (d.width, d.height, jp2_layout(d.pixels).0, jp2_layout(d.pixels).1),
            ),
            Err(e) => jp2_decoded(bytes@) is None && (e is Jp2Unreadable || e is Jp2PixelsUnreadable),
        },
{
    let img = jpeg2k::Image::from_bytes(bytes).map_err(ImageError::Jp2Unreadable)?;
    let data = img.get_pixels(None).map_err(ImageError::Jp2PixelsUnreadable)?;
    let pixels = match data.data {
        jpeg2k::ImagePixelData::L8(d) => Jp2Pixels::Gray8(d),
        jpeg2k::ImagePixelData::Rgb8(d) => Jp2Pixels::Rgb8(d),
        jpeg2k::ImagePixelData::Rgba8(d) => Jp2Pixels::Rgba8(d),
        _ => Jp2Pixels::Other,
    };
    Ok(Jp2Decoded { width: data.width, height: data.height, pixels })
}

/// Decodes a JPEG 2000 file and brings its pixels to grey or RGB samples (see
/// [`prepare_jp2_pixels`]): grey and RGB samples as decoded, RGBA without its
/// alpha. It fails when the file or its pixels cannot be read, or when the
/// layout is another one.
pub fn decode_jp2(bytes: &[u8]) -> (r: Result<(u32, u32, Jp2Image), ImageError>)
    ensures
        match jp2_decoded(bytes@) {
            None => r matches Err(e) && (e is Jp2Unreadable || e is Jp2PixelsUnreadable),
            Some((w, h, l, s)) => if l == 0 {
                r matches Ok((rw, rh, Jp2Image::Gray(g))) && rw == w && rh == h && g@ == s
            } else if l == 1 {
                r matches Ok((rw, rh, Jp2Image::Rgb(c))) && rw == w && rh == h && c@ == s
            } else if l == 2 {
                r matches Ok((rw, rh, Jp2Image::Rgb(c))) && rw == w && rh == h && c@ == rgb_from_rgba(s)
            } else {
                r matches Err(ImageError::UnsupportedJp2Pixels)
            },
        },
{
    let decoded = match read_jp2(bytes) {
        Ok(d) => d,
        Err(e) => return Err(e),
    };
    let width = decoded.width;
    let height = decoded.height;
    match prepare_jp2_pixels(decoded.pixels) {
        Ok(image) => Ok((width, height, image)),
        Err(e) => Err(e),
    }
}

/// The RGB samples of grey samples: each grey value three times.
pub open spec fn rgb_from_gray(gray: Seq<u8>) -> Seq<u8> {
    Seq::new(3 * gray.len(), |m: int| gray[m / 3])
}

/// The RGB page made from a prepared JPEG 2000 image of `width` by `height`:
/// grey samples become RGB as they are; RGB samples first go through the
/// image's ICC profile, when it has one (see [`apply_icc_profile`]). Samples
/// beyond the size are left out; fewer samples than the size calls for are
/// refused.
pub fn jp2_page(width: u32, height: u32, image: Jp2Image, icc: Option<&[u8]>) -> (r: Result<RgbImage, ImageError>)
    ensures
        match image {
            Jp2Image::Gray(g) => if g@.len() < (width as int) * (height as int) {
                r matches Err(ImageError::Jp2TooFewSamples)
            } else {
                r matches Ok(p) && p.width == width && p.height == height && p.pixels@ == rgb_from_gray(
                    g@.take((width as int) * (height as int)),
                )
            },
            Jp2Image::Rgb(c) => match icc {
                None => if c@.len() < 3 * (width as int) * (height as int) {
                    r matches Err(ImageError::Jp2TooFewSamples)
                } else {
                    r matches Ok(p) && p.width == width && p.height == height && p.pixels@ == c@.take(
                        3 * (width as int) * (height as int),
                    )
                },
                Some(prof) => {
                    &&& (r matches Err(ImageError::ColorProfile(IccFailure::Profile(_))))
                        <==> !icc_profile_reads(prof@)
                    &&& r matches Err(e) ==> (e is ColorProfile || (e is Jp2TooFewSamples && c@.len() < 3
                        * (width as int) * (height as int)))
                    &&& r matches Ok(p) ==> p.width == width && p.height == height && p.is_whole()
                },
            },
        },
        r matches Ok(p) ==> p.is_whole(),
{
    proof {
        assert((width as int) * (height as int) <= 0xffff_ffff * 0xffff_ffff) by (nonlinear_arith)
            requires
                width <= 0xffff_ffff,
                height <= 0xffff_ffff,
        ;
        assert(3 * ((width as int) * (height as int)) == 3 * (width as int) * (height as int)) by (nonlinear_arith);
    }
    let n: u128 = (width as u128) * (height as u128);
    assert(n == (width as int) * (height as int));
    match image {
        Jp2Image::Gray(g) => {
            if (g.len() as u128) < n {
                return Err(ImageError::Jp2TooFewSamples);
            }
            let count = n as usize;
            let mut out: Vec<u8> = Vec::new();
            let mut q: usize = 0;
            while q < count
                invariant
                    count == (width as int) * (height as int),
                    count <= g.len(),
                    q <= count,
                    out.len() == 3 * q,
                    forall|m: int| 0 <= m < out.len() ==> out@[m] == #[trigger] rgb_from_gray(
                        g@.take(count as int),
                    )[m],
                decreases count - q,
            {
                let v = g[q];
                out.push(v);
                out.push(v);
                out.push(v);
                proof {
                    assert forall|m: int| 3 * q <= m < 3 * q + 3 implies out@[m] == #[trigger] rgb_from_gray(
                        g@.take(count as int),
                    )[m] by {
                        assert(m / 3 == q);
                    }
                }
                q = q + 1;
            }
            assert(out@ =~= rgb_from_gray(g@.take(count as int)));
            assert(out@.len() == 3 * (width as int) * (height as int));
            Ok(RgbImage { width, height, pixels: out })
        },
        Jp2Image::Rgb(c) => {
            let ghost before = c@;
            let converted = match apply_icc_profile(c, icc) {
                Ok(v) => v,
                Err(e) => return Err(e),
            };
            assert(converted@.len() == before.len());
            rgb_page(width, height, &converted)
        },
    }
}

/// The RGB page of `width` by `height` made from RGB samples, such as those
/// a colour profile gave: samples beyond the size are left out; fewer samples
/// than the size calls for are refused.
pub fn rgb_page(width: u32, height: u32, samples: &Vec<u8>) -> (r: Result<RgbImage, ImageError>)
    ensures
        if samples@.len() < 3 * (width as int) * (height as int) {
            r matches Err(ImageError::Jp2TooFewSamples)
        } else {
            r matches Ok(p) && p.width == width && p.height == height && p.pixels@ == samples@.take(
                3 * (width as int) * (height as int),
            )
        },
        r matches Ok(p) ==> p.is_whole(),
{
    proof {
        assert((width as int) * (height as int) <= 0xffff_ffff * 0xffff_ffff) by (nonlinear_arith)
            requires
                width <= 0xffff_ffff,
                height <= 0xffff_ffff,
        ;
        assert(3 * ((width as int) * (height as int)) == 3 * (width as int) * (height as int)) by (nonlinear_arith);
    }
    let n: u128 = (width as u128) * (height as u128);
    if (samples.len() as u128) < 3 * n {
        return Err(ImageError::Jp2TooFewSamples);
    }
    let count = (3 * n) as usize;
    let pixels = take_prefix(samples, count);
    Ok(RgbImage { width, height, pixels })
}

/// The first `count` elements of `v`.
fn take_prefix(v: &Vec<u8>, count: usize) -> (r: Vec<u8>)
    requires
        count <= v.len(),
    ensures
        r@ == v@.take(count as int),
{
    let mut out: Vec<u8> = Vec::new();
    let mut q: usize = 0;
    while q < count
        invariant
            count <= v.len(),
            q <= count,
            out@ == v@.take(q as int),
        decreases count - q,
    {
        out.push(v[q]);
        q = q + 1;
        assert(out@ =~= v@.take(q as int));
    }
    out
}

/// Brings decoded JPEG 2000 pixels to grey or RGB samples: RGBA loses its
/// alpha channel, and other layouts are refused.
pub fn prepare_jp2_pixels(pixels: Jp2Pixels) -> (r: Result<Jp2Image, ImageError>)
    ensures
        match pixels {
            Jp2Pixels::Gray8(d) => r matches Ok(Jp2Image::Gray(g)) && g@ == d@,
            Jp2Pixels::Rgb8(d) => r matches Ok(Jp2Image::Rgb(c)) && c@ == d@,
            Jp2Pixels::Rgba8(d) => r matches Ok(Jp2Image::Rgb(c)) && c@ == rgb_from_rgba(d@),
            Jp2Pixels::Other => r matches Err(ImageError::UnsupportedJp2Pixels),
        },
{
    match pixels {
        Jp2Pixels::Gray8(d) => Ok(Jp2Image::Gray(d)),
        Jp2Pixels::Rgb8(d) => Ok(Jp2Image::Rgb(d)),
        Jp2Pixels::Rgba8(d) => Ok(Jp2Image::Rgb(rgba_to_rgb(&d))),
        Jp2Pixels::Other => Err(ImageError::UnsupportedJp2Pixels),
    }
}

/// Whether `moxcms::ColorProfile::new_from_slice` reads `icc` as a profile.
pub uninterp spec fn icc_profile_reads(icc: Seq<u8>) -> bool;

/// Converts 8-bit RGB samples described by the ICC profile `icc` to sRGB with
/// `moxcms`: `ColorProfile::new_from_slice` reads the profile,
/// `create_transform_8bit` builds the transform to `ColorProfile::new_srgb()`,
/// and its `transform` fills a buffer as long as the input. Each error is
/// reported with its stage.
///
/// The transform is a trait object, which cannot be declared here, so the
/// calls stand in this one item, from the profile's bytes and the samples.
/// Claimed: reading the profile fails exactly when `new_from_slice` does not
/// read the bytes as a profile, a function of the bytes alone (the parse
/// with default options looks at nothing else), named [`icc_profile_reads`];
/// a converted buffer is as long as the input. The converted values, and
/// whether building or applying the transform fails, are not stated:
/// `moxcms` picks different code paths on different processors.
#[verifier::external_body]
fn convert_to_srgb(icc: &[u8], rgb: &[u8]) -> (r: Result<Vec<u8>, IccFailure>)
    ensures
        (r matches Err(IccFailure::Profile(_))) <==> !icc_profile_reads(icc@),
        r matches Ok(v) ==> v@.len() == rgb@.len(),
{
    let source = match moxcms::ColorProfile::new_from_slice(icc) {
        Ok(p) => p,
        Err(e) => return Err(IccFailure::Profile(e)),
    };
    let dest = moxcms::ColorProfile::new_srgb();
    let options = moxcms::TransformOptions::default();
    let transform = match source.create_transform_8bit(moxcms::Layout::Rgb, &dest, moxcms::Layout::Rgb, options) {
        Ok(t) => t,
        Err(e) => return Err(IccFailure::Transform(e)),
    };
    let mut out = vec![0u8; rgb.len()];
    match transform.transform(rgb, &mut out) {
        Ok(()) => Ok(out),
        Err(e) => Err(IccFailure::Conversion(e)),
    }
}

/// Applies the ICC profile of a JPEG 2000 image, when it has one, converting
/// its RGB samples to sRGB. Without a profile the samples are kept as they are.
/// A profile that cannot be read fails at the profile stage; a readable one
/// gives the converted samples, as many as before, or fails at building or
/// applying the transform.
pub fn apply_icc_profile(rgb: Vec<u8>, icc: Option<&[u8]>) -> (r: Result<Vec<u8>, ImageError>)
    ensures
        icc is None ==> (r matches Ok(v) && v@ == rgb@),
        r matches Ok(v) ==> v@.len() == rgb@.len(),
        r matches Err(e) ==> e is ColorProfile,
        icc matches Some(p) ==> ((r matches Err(ImageError::ColorProfile(IccFailure::Profile(_))))
            <==> !icc_profile_reads(p@)),
{
    match icc {
        None => Ok(rgb),
        Some(profile) => match convert_to_srgb(profile, rgb.as_slice()) {
            Ok(v) => Ok(v),
            Err(f) => Err(ImageError::ColorProfile(f)),
        },
    }
}

} // verus!
