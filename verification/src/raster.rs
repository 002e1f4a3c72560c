//! Decoders of the embedded bitmap formats that system-font glyphs carry:
//! packed or row-padded coverage bitmaps of 1, 2, 4 or 8 bits per pixel,
//! premultiplied BGRA, and PNG. All produce straight (non-premultiplied)
//! RGBA bytes, row by row.
use vstd::prelude::*;

verus! {

/// Why an embedded glyph bitmap cannot be decoded.
#[derive(Clone, Copy, Debug, PartialEq, Eq, Structural)]
pub enum RasterError {
    /// Its size does not fit the host's address space.
    Overflow,
    /// The data is shorter than the bitmap.
    Truncated,
    /// The PNG data does not decode.
    InvalidPng,
    /// The decoded bitmap, or its strike, has no size.
    ZeroSized,
}

/// Bits of one bitmap row, padded to a whole byte when rows are padded.
pub open spec fn row_stride_bits(width: int, bits: int, padded: bool) -> int {
    if padded {
        (width * bits + 7) / 8 * 8
    } else {
        width * bits
    }
}

/// Index of the first bit of pixel (x, y).
pub open spec fn pixel_bit(width: int, bits: int, padded: bool, x: int, y: int) -> int {
    if padded {
        y * row_stride_bits(width, bits, padded) + x * bits
    } else {
        (y * width + x) * bits
    }
}

/// Largest coverage value of a depth: `2^bits - 1`.
pub open spec fn coverage_max(bits: int) -> int {
    if bits == 1 {
        1
    } else if bits == 2 {
        3
    } else if bits == 4 {
        15
    } else {
        255
    }
}

/// The coverage of pixel (x, y): its `bits` bits, most significant first
/// within each byte, scaled to 0..=255 with rounding.
pub open spec fn coverage_alpha(data: Seq<u8>, width: int, bits: int, padded: bool, x: int, y: int) -> u8 {
    let bit = pixel_bit(width, bits, padded, x, y);
    let maximum = coverage_max(bits);
    let byte: u8 = data[bit / 8];
    let value = (byte >> ((8 - bits - bit % 8) as u8)) & (maximum as u8);
    (((value as int) * 255 + maximum / 2) / maximum) as u8
}

/// The RGBA bytes of a coverage bitmap: white, with the coverage as alpha.
pub open spec fn coverage_rgba(data: Seq<u8>, width: int, height: int, bits: int, padded: bool) -> Seq<u8> {
    Seq::new(
        (width * height * 4) as nat,
        |i: int|
            if i % 4 == 3 {
                coverage_alpha(data, width, bits, padded, (i / 4) % width, (i / 4) / width)
            } else {
                255u8
            },
    )
}

/// Bits a coverage bitmap occupies.
pub open spec fn coverage_bits(width: int, height: int, bits: int, padded: bool) -> int {
    row_stride_bits(width, bits, padded) * height
}

proof fn lemma_coverage_bit_inside(width: int, height: int, bits: int, padded: bool, x: int, y: int)
    requires
        bits == 1 || bits == 2 || bits == 4 || bits == 8,
        0 <= x < width,
        0 <= y < height,
    ensures
        0 <= pixel_bit(width, bits, padded, x, y),
        pixel_bit(width, bits, padded, x, y) + bits <= coverage_bits(width, height, bits, padded),
{
    let stride = row_stride_bits(width, bits, padded);
    assert(stride >= width * bits) by (nonlinear_arith)
        requires
            stride == (if padded { (width * bits + 7) / 8 * 8 } else { width * bits }),
            width >= 0,
            bits >= 0,
    ;
    if padded {
        assert(0 <= y * stride + x * bits && y * stride + x * bits + bits <= stride * height)
            by (nonlinear_arith)
            requires
                0 <= x < width,
                0 <= y < height,
                stride >= width * bits,
                bits > 0,
        ;
    } else {
        assert(0 <= (y * width + x) * bits && (y * width + x) * bits + bits <= width * bits * height)
            by (nonlinear_arith)
            requires
                0 <= x < width,
                0 <= y < height,
                bits > 0,
        ;
    }
}

/// A bit offset aligned to a depth that divides 8 leaves room for a whole
/// pixel in its byte.
proof fn lemma_aligned(n: int, bits: int)
    requires
        n >= 0,
        bits == 1 || bits == 2 || bits == 4 || bits == 8,
        n % bits == 0,
    ensures
        n % 8 + bits <= 8,
{
}

proof fn lemma_pixel_bit_linear(width: int, bits: int, padded: bool, x: int, y: int)
    ensures
        pixel_bit(width, bits, padded, x, y) == y * row_stride_bits(width, bits, padded) + x * bits,
{
    if !padded {
        assert((y * width + x) * bits == y * (width * bits) + x * bits) by (nonlinear_arith);
    }
}

proof fn lemma_row_fits(stride: int, y: int, h: int)
    requires
        0 <= y,
        y + 1 < h,
        stride >= 0,
    ensures
        (y + 1) * stride == y * stride + stride,
        (y + 1) * stride <= stride * h,
{
    assert((y + 1) * stride == y * stride + stride) by (nonlinear_arith);
    assert((y + 1) * stride <= stride * h) by (nonlinear_arith)
        requires
            y + 1 < h,
            stride >= 0,
    ;
}

/// The four bytes of pixel `p` of the expected image, in a row-major walk.
proof fn lemma_pixel_bytes(
    data: Seq<u8>,
    width: int,
    height: int,
    bits: int,
    padded: bool,
    x: int,
    y: int,
    alpha: u8,
    before: Seq<u8>,
    after: Seq<u8>,
)
    requires
        0 <= x < width,
        0 <= y < height,
        before == coverage_rgba(data, width, height, bits, padded).take(4 * (y * width + x)),
        after == before + seq![255u8, 255u8, 255u8, alpha],
        alpha == coverage_alpha(data, width, bits, padded, x, y),
    ensures
        after == coverage_rgba(data, width, height, bits, padded).take(4 * (y * width + x + 1)),
{
    let expected = coverage_rgba(data, width, height, bits, padded);
    let p = y * width + x;
    assert(p * 4 + 4 <= width * height * 4) by (nonlinear_arith)
        requires
            p == y * width + x,
            0 <= x < width,
            0 <= y < height,
    ;
    assert forall|i: int| 4 * p <= i < 4 * p + 4 implies #[trigger] expected[i] == after[i] by {
        vstd::arithmetic::div_mod::lemma_fundamental_div_mod_converse(i, 4, p, i - 4 * p);
        vstd::arithmetic::div_mod::lemma_fundamental_div_mod_converse(p, width, y, x);
    }
    assert(after =~= expected.take(4 * (p + 1)));
}

/// Decodes a coverage bitmap of `bits_per_pixel` bits per pixel (1, 2, 4 or
/// 8), most significant bits first, whose rows start on a byte when
/// `row_padded`. The result is RGBA bytes, white with the coverage as alpha.
#[verifier::spinoff_prover]
pub fn decode_system_coverage(
    width: u16,
    height: u16,
    data: &[u8],
    bits_per_pixel: usize,
    row_padded: bool,
) -> (r: Result<Vec<u8>, RasterError>)
    requires
        bits_per_pixel == 1 || bits_per_pixel == 2 || bits_per_pixel == 4 || bits_per_pixel == 8,
    ensures
        coverage_bits(width as int, height as int, bits_per_pixel as int, row_padded) > usize::MAX
            ==> r == Err::<Vec<u8>, RasterError>(RasterError::Overflow),
        coverage_bits(width as int, height as int, bits_per_pixel as int, row_padded) <= usize::MAX
            && data@.len() * 8 < coverage_bits(
            width as int,
            height as int,
            bits_per_pixel as int,
            row_padded,
        ) ==> r == Err::<Vec<u8>, RasterError>(RasterError::Truncated),
        coverage_bits(width as int, height as int, bits_per_pixel as int, row_padded) <= usize::MAX
            && coverage_bits(width as int, height as int, bits_per_pixel as int, row_padded)
            <= data@.len() * 8 ==> (r matches Ok(rgba) && rgba@ == coverage_rgba(
            data@,
            width as int,
            height as int,
            bits_per_pixel as int,
            row_padded,
        )),
{
    let w = width as usize;
    let h = height as usize;
    let b = bits_per_pixel;
    let row_bits = w * b;
    let stride = if row_padded {
        (row_bits + 7) / 8 * 8
    } else {
        row_bits
    };
    let required = match stride.checked_mul(h) {
        Some(required) => required,
        None => {
            return Err(RasterError::Overflow);
        },
    };
    let n = data.len();
    if n <= usize::MAX / 8 && n * 8 < required {
        return Err(RasterError::Truncated);
    }
    let ghost (wi, hi, bi) = (w as int, h as int, b as int);
    proof {
        assert((stride as int) % bi == 0) by {
            if !row_padded {
                assert((wi * bi) % bi == 0) by (nonlinear_arith)
                    requires
                        bi > 0,
                        wi >= 0,
                ;
            }
        }
    }
    let maximum: u8 = if b == 1 {
        1
    } else if b == 2 {
        3
    } else if b == 4 {
        15
    } else {
        255
    };
    let ghost expected = coverage_rgba(data@, wi, hi, bi, row_padded);
    let mut rgba: Vec<u8> = Vec::new();
    let mut y: usize = 0;
    let mut row_start: usize = 0;
    while y < h
        invariant
            wi == w && hi == h && bi == b,
            w == width && h == height && b == bits_per_pixel,
            n == data@.len(),
            b == 1 || b == 2 || b == 4 || b == 8,
            maximum as int == coverage_max(bi),
            stride == row_stride_bits(wi, bi, row_padded),
            (stride as int) % bi == 0,
            required == stride * h,
            required <= n * 8,
            0 <= y <= h,
            y < h ==> row_start == y * stride,
            y < h ==> (row_start as int) % bi == 0,
            expected == coverage_rgba(data@, wi, hi, bi, row_padded),
            rgba@ == expected.take(4 * (y * wi)),
        decreases h - y,
    {
        let mut x: usize = 0;
        let mut bit: usize = row_start;
        proof {
            lemma_pixel_bit_linear(wi, bi, row_padded, 0, y as int);
        }
        while x < w
            invariant
                wi == w && hi == h && bi == b,
                w == width && h == height && b == bits_per_pixel,
                n == data@.len(),
                b == 1 || b == 2 || b == 4 || b == 8,
                maximum as int == coverage_max(bi),
                stride == row_stride_bits(wi, bi, row_padded),
                required == stride * h,
                required <= n * 8,
                0 <= y < h,
                0 <= x <= w,
                x < w ==> bit == pixel_bit(wi, bi, row_padded, x as int, y as int),
                x < w ==> (bit as int) % bi == 0,
                expected == coverage_rgba(data@, wi, hi, bi, row_padded),
                rgba@ == expected.take(4 * (y * wi + x)),
            decreases w - x,
        {
            proof {
                lemma_coverage_bit_inside(wi, hi, bi, row_padded, x as int, y as int);
                lemma_aligned(bit as int, bi);
            }
            let byte = data[bit / 8];
            let shift = (8 - b - bit % 8) as u8;
            let value = ((byte >> shift) & maximum) as u16;
            let alpha = ((value * 255 + (maximum as u16) / 2) / (maximum as u16)) as u8;
            let ghost before = rgba@;
            rgba.push(255);
            rgba.push(255);
            rgba.push(255);
            rgba.push(alpha);
            proof {
                assert(rgba@ =~= before + seq![255u8, 255u8, 255u8, alpha]);
                lemma_pixel_bytes(data@, wi, hi, bi, row_padded, x as int, y as int, alpha, before, rgba@);
            }
            x = x + 1;
            if x < w {
                proof {
                    lemma_pixel_bit_linear(wi, bi, row_padded, x - 1, y as int);
                    lemma_pixel_bit_linear(wi, bi, row_padded, x as int, y as int);
                    assert(y * stride + x * bi == y * stride + (x - 1) * bi + bi) by (nonlinear_arith);
                    lemma_coverage_bit_inside(wi, hi, bi, row_padded, x as int, y as int);
                }
                bit = bit + b;
            }
        }
        proof {
            assert(y * wi + wi == (y + 1) * wi) by (nonlinear_arith);
        }
        if y + 1 < h {
            proof {
                lemma_row_fits(stride as int, y as int, h as int);
            }
            row_start = row_start + stride;
        }
        y = y + 1;
    }
    proof {
        assert(4 * (hi * wi) == wi * hi * 4) by (nonlinear_arith);
    }
    assert(rgba@ =~= expected);
    Ok(rgba)
}

/// A premultiplied channel made straight again: `channel * 255 / alpha`,
/// capped at 255; 0 where the pixel is fully transparent.
pub open spec fn unpremultiplied(channel: u8, alpha: u8) -> u8 {
    if alpha == 0 {
        0
    } else {
        let v = (channel as int) * 255 / (alpha as int);
        if v > 255 {
            255
        } else {
            v as u8
        }
    }
}

/// The straight RGBA bytes of premultiplied BGRA pixels.
pub open spec fn bgra_rgba(data: Seq<u8>, pixels: int) -> Seq<u8> {
    Seq::new(
        (pixels * 4) as nat,
        |i: int|
            {
                let p = i / 4;
                let c = i % 4;
                let alpha = data[4 * p + 3];
                if c == 3 {
                    alpha
                } else {
                    unpremultiplied(data[4 * p + 2 - c], alpha)
                }
            },
    )
}

fn unpremultiply(channel: u8, alpha: u8) -> (straight: u8)
    ensures
        straight == unpremultiplied(channel, alpha),
{
    if alpha == 0 {
        0
    } else {
        let v = (channel as u16) * 255 / (alpha as u16);
        if v > 255 {
            255
        } else {
            v as u8
        }
    }
}

/// Decodes premultiplied BGRA pixels into straight RGBA bytes.
pub fn decode_system_bgra32(width: u16, height: u16, data: &[u8]) -> (r: Result<Vec<u8>, RasterError>)
    ensures
        (width as int) * (height as int) * 4 > usize::MAX ==> r == Err::<Vec<u8>, RasterError>(
            RasterError::Overflow,
        ),
        (width as int) * (height as int) * 4 <= usize::MAX && data@.len() < (width as int) * (
        height as int) * 4 ==> r == Err::<Vec<u8>, RasterError>(RasterError::Truncated),
        (width as int) * (height as int) * 4 <= usize::MAX && (width as int) * (height as int) * 4
            <= data@.len() ==> (r matches Ok(rgba) && rgba@
            == bgra_rgba(data@, (width as int) * (height as int))),
{
    let pixels = match (width as usize).checked_mul(height as usize) {
        Some(pixels) => pixels,
        None => {
            return Err(RasterError::Overflow);
        },
    };
    let required = match pixels.checked_mul(4) {
        Some(required) => required,
        None => {
            return Err(RasterError::Overflow);
        },
    };
    if data.len() < required {
        return Err(RasterError::Truncated);
    }
    let ghost expected = bgra_rgba(data@, pixels as int);
    let mut rgba: Vec<u8> = Vec::new();
    let mut p: usize = 0;
    while p < pixels
        invariant
            required == pixels * 4,
            required <= data@.len(),
            0 <= p <= pixels,
            expected == bgra_rgba(data@, pixels as int),
            rgba@ == expected.take(4 * p),
        decreases pixels - p,
    {
        let alpha = data[4 * p + 3];
        let red = unpremultiply(data[4 * p + 2], alpha);
        let green = unpremultiply(data[4 * p + 1], alpha);
        let blue = unpremultiply(data[4 * p], alpha);
        let ghost before = rgba@;
        rgba.push(red);
        rgba.push(green);
        rgba.push(blue);
        rgba.push(alpha);
        proof {
            assert forall|i: int| 4 * p <= i < 4 * p + 4 implies #[trigger] expected[i] == rgba@[i] by {
                vstd::arithmetic::div_mod::lemma_fundamental_div_mod_converse(i, 4, p as int, i - 4 * p);
            }
            assert(rgba@ =~= expected.take(4 * (p + 1)));
        }
        p = p + 1;
    }
    assert(rgba@ =~= expected);
    Ok(rgba)
}

/// The bitmap formats of embedded glyphs.
#[derive(Clone, Copy, Debug, PartialEq, Eq, Structural)]
pub enum RasterFormat {
    Png,
    BitmapPremulBgra32,
    BitmapMono,
    BitmapMonoPacked,
    BitmapGray2,
    BitmapGray2Packed,
    BitmapGray4,
    BitmapGray4Packed,
    BitmapGray8,
}

/// How a decoded glyph is coloured: by its own pixels, or by the text
/// colour through its coverage.
#[derive(Clone, Copy, Debug, PartialEq, Eq, Structural)]
pub enum RasterColor {
    Intrinsic,
    Foreground,
}

/// An embedded glyph bitmap as the font stores it.
pub struct EmbeddedRaster<'a> {
    pub x: i16,
    pub y: i16,
    pub width: u16,
    pub height: u16,
    pub pixels_per_em: u16,
    pub format: RasterFormat,
    pub data: &'a [u8],
}

/// A glyph's bounding box in font units.
#[derive(Clone, Copy, Debug, PartialEq, Eq, Structural)]
pub struct GlyphBox {
    pub x_min: i16,
    pub y_min: i16,
    pub x_max: i16,
    pub y_max: i16,
}

/// A decoded embedded glyph: RGBA pixels with the placement of its strike.
pub struct DecodedRaster {
    pub width: u32,
    pub height: u32,
    pub rgba: Vec<u8>,
    pub color: RasterColor,
    pub x: i16,
    pub y: i16,
    pub pixels_per_em: u16,
    pub sbix: bool,
    pub glyph_bbox: Option<GlyphBox>,
}

/// Width, height and straight RGBA pixels that the `image` crate decodes
/// from PNG bytes; `None` where it cannot decode them.
pub uninterp spec fn png_rgba(data: Seq<u8>) -> Option<(u32, u32, Seq<u8>)>;

/// Decodes PNG bytes with `image::load_from_memory_with_format` and
/// converts the image to RGBA with `DynamicImage::into_rgba8`. Claims only
/// that the result is `png_rgba` of the bytes.
#[verifier::external_body]
fn decode_png(data: &[u8]) -> (decoded: Option<(u32, u32, Vec<u8>)>)
    ensures
        match decoded {
            Some((width, height, rgba)) => png_rgba(data@) == Some((width, height, rgba@)),
            None => png_rgba(data@).is_none(),
        },
{
    match image::load_from_memory_with_format(data, image::ImageFormat::Png) {
        Ok(image) => {
            let rgba = image.into_rgba8();
            let (width, height) = rgba.dimensions();
            Some((width, height, rgba.into_raw()))
        },
        Err(_) => None,
    }
}

/// Bits per pixel and row padding of the coverage formats.
pub open spec fn coverage_layout(format: RasterFormat) -> Option<(int, bool)> {
    match format {
        RasterFormat::BitmapMono => Some((1, true)),
        RasterFormat::BitmapMonoPacked => Some((1, false)),
        RasterFormat::BitmapGray2 => Some((2, true)),
        RasterFormat::BitmapGray2Packed => Some((2, false)),
        RasterFormat::BitmapGray4 => Some((4, true)),
        RasterFormat::BitmapGray4Packed => Some((4, false)),
        RasterFormat::BitmapGray8 => Some((8, true)),
        _ => None,
    }
}

/// What `decode_system_coverage` gives.
pub open spec fn coverage_result(data: Seq<u8>, width: int, height: int, bits: int, padded: bool) -> Result<
    Seq<u8>,
    RasterError,
> {
    let required = coverage_bits(width, height, bits, padded);
    if required > usize::MAX {
        Err(RasterError::Overflow)
    } else if data.len() * 8 < required {
        Err(RasterError::Truncated)
    } else {
        Ok(coverage_rgba(data, width, height, bits, padded))
    }
}

/// What `decode_system_bgra32` gives.
pub open spec fn bgra_result(data: Seq<u8>, width: int, height: int) -> Result<Seq<u8>, RasterError> {
    if width * height * 4 > usize::MAX {
        Err(RasterError::Overflow)
    } else if data.len() < width * height * 4 {
        Err(RasterError::Truncated)
    } else {
        Ok(bgra_rgba(data, width * height))
    }
}

/// The decoded pixels of an embedded bitmap: width, height and RGBA bytes.
pub open spec fn raster_pixels(raster: EmbeddedRaster) -> Result<(u32, u32, Seq<u8>), RasterError> {
    let (w, h) = (raster.width as int, raster.height as int);
    let sized = |pixels: Result<Seq<u8>, RasterError>|
        match pixels {
            Ok(rgba) => Ok((raster.width as u32, raster.height as u32, rgba)),
            Err(e) => Err(e),
        };
    match raster.format {
        RasterFormat::Png => match png_rgba(raster.data@) {
            Some(decoded) => Ok(decoded),
            None => Err(RasterError::InvalidPng),
        },
        RasterFormat::BitmapPremulBgra32 => sized(bgra_result(raster.data@, w, h)),
        _ => {
            let (bits, padded) = coverage_layout(raster.format).unwrap();
            sized(coverage_result(raster.data@, w, h, bits, padded))
        },
    }
}

/// The colouring of a format: PNG and BGRA carry their own colours, the
/// coverage formats take the text colour.
pub open spec fn raster_color(format: RasterFormat) -> RasterColor {
    match format {
        RasterFormat::Png | RasterFormat::BitmapPremulBgra32 => RasterColor::Intrinsic,
        _ => RasterColor::Foreground,
    }
}

/// Completes a decoded bitmap with the placement of its strike; a bitmap
/// or strike without size is refused.
pub fn place_decoded_raster(
    raster: &EmbeddedRaster,
    sbix: bool,
    glyph_bbox: Option<GlyphBox>,
    pixels: Result<(u32, u32, Vec<u8>), RasterError>,
) -> (r: Result<DecodedRaster, RasterError>)
    ensures
        match pixels {
            Err(e) => r == Err::<DecodedRaster, RasterError>(e),
            Ok((width, height, rgba)) => if width == 0 || height == 0 || raster.pixels_per_em == 0 {
                r == Err::<DecodedRaster, RasterError>(RasterError::ZeroSized)
            } else {
                r matches Ok(decoded) && decoded.width == width && decoded.height == height
                    && decoded.rgba@ == rgba@ && decoded.color == raster_color(raster.format)
                    && decoded.x == raster.x && decoded.y == raster.y && decoded.pixels_per_em
                    == raster.pixels_per_em && decoded.sbix == sbix && decoded.glyph_bbox
                    == glyph_bbox
            },
        },
{
    let (width, height, rgba) = match pixels {
        Ok(decoded) => decoded,
        Err(e) => {
            return Err(e);
        },
    };
    if width == 0 || height == 0 || raster.pixels_per_em == 0 {
        return Err(RasterError::ZeroSized);
    }
    let color = match raster.format {
        RasterFormat::Png | RasterFormat::BitmapPremulBgra32 => RasterColor::Intrinsic,
        _ => RasterColor::Foreground,
    };
    Ok(
        DecodedRaster {
            width,
            height,
            rgba,
            color,
            x: raster.x,
            y: raster.y,
            pixels_per_em: raster.pixels_per_em,
            sbix,
            glyph_bbox,
        },
    )
}

/// Decodes an embedded glyph bitmap of any format and places it.
pub fn decode_system_raster(raster: &EmbeddedRaster, sbix: bool, glyph_bbox: Option<GlyphBox>) -> (r:
    Result<DecodedRaster, RasterError>)
    ensures
        match raster_pixels(*raster) {
            Err(e) => r == Err::<DecodedRaster, RasterError>(e),
            Ok((width, height, rgba)) => if width == 0 || height == 0 || raster.pixels_per_em == 0 {
                r == Err::<DecodedRaster, RasterError>(RasterError::ZeroSized)
            } else {
                r matches Ok(decoded) && decoded.width == width && decoded.height == height
                    && decoded.rgba@ == rgba && decoded.color == raster_color(raster.format)
                    && decoded.x == raster.x && decoded.y == raster.y && decoded.pixels_per_em
                    == raster.pixels_per_em && decoded.sbix == sbix && decoded.glyph_bbox
                    == glyph_bbox
            },
        },
{
    let (w, h) = (raster.width, raster.height);
    let coverage = |bits: usize, padded: bool| -> (r: Result<(u32, u32, Vec<u8>), RasterError>)
        requires
            bits == 1 || bits == 2 || bits == 4 || bits == 8,
        ensures
            r matches Ok((width, height, rgba)) ==> width == w && height == h,
            r matches Ok((_, _, rgba)) ==> coverage_result(raster.data@, w as int, h as int, bits as int, padded) == Ok::<Seq<u8>, RasterError>(rgba@),
            r matches Err(e) ==> coverage_result(raster.data@, w as int, h as int, bits as int, padded) == Err::<Seq<u8>, RasterError>(e),
        {
            match decode_system_coverage(w, h, raster.data, bits, padded) {
                Ok(rgba) => Ok((w as u32, h as u32, rgba)),
                Err(e) => Err(e),
            }
        };
    let pixels = match raster.format {
        RasterFormat::Png => match decode_png(raster.data) {
            Some(decoded) => Ok(decoded),
            None => Err(RasterError::InvalidPng),
        },
        RasterFormat::BitmapPremulBgra32 => match decode_system_bgra32(w, h, raster.data) {
            Ok(rgba) => Ok((w as u32, h as u32, rgba)),
            Err(e) => Err(e),
        },
        RasterFormat::BitmapMono => coverage(1, true),
        RasterFormat::BitmapMonoPacked => coverage(1, false),
        RasterFormat::BitmapGray2 => coverage(2, true),
        RasterFormat::BitmapGray2Packed => coverage(2, false),
        RasterFormat::BitmapGray4 => coverage(4, true),
        RasterFormat::BitmapGray4Packed => coverage(4, false),
        RasterFormat::BitmapGray8 => coverage(8, true),
    };
    place_decoded_raster(raster, sbix, glyph_bbox, pixels)
}

/// One size of a font's embedded bitmaps: the glyphs it covers and its
/// pixels per em.
#[derive(Clone, Copy, Debug, PartialEq, Eq, Structural)]
pub struct BitmapStrike {
    pub first_glyph: u32,
    pub last_glyph: u32,
    pub ppem: u8,
}

/// The strike covers the glyph and has a size.
pub open spec fn strike_usable(strike: BitmapStrike, glyph: u32) -> bool {
    strike.first_glyph <= glyph <= strike.last_glyph && strike.ppem >= 1
}

/// The strike is usable and at least as large as the request.
pub open spec fn strike_fits(strike: BitmapStrike, glyph: u32, requested: u32) -> bool {
    strike_usable(strike, glyph) && strike.ppem >= requested
}

/// Strike `i` is the first of the smallest strikes that fit.
pub open spec fn smallest_fit(strikes: Seq<BitmapStrike>, glyph: u32, requested: u32, i: int) -> bool {
    &&& strike_fits(strikes[i], glyph, requested)
    &&& forall|j: int|
        0 <= j < strikes.len() && strike_fits(#[trigger] strikes[j], glyph, requested) ==> strikes[i].ppem
            <= strikes[j].ppem && (strikes[j].ppem == strikes[i].ppem ==> i <= j)
}

/// Strike `i` is the first of the largest usable strikes.
pub open spec fn largest_usable(strikes: Seq<BitmapStrike>, glyph: u32, i: int) -> bool {
    &&& strike_usable(strikes[i], glyph)
    &&& forall|j: int|
        0 <= j < strikes.len() && strike_usable(#[trigger] strikes[j], glyph) ==> strikes[j].ppem
            <= strikes[i].ppem && (strikes[j].ppem == strikes[i].ppem ==> i <= j)
}

/// The strike to draw `glyph` from at `requested` pixels per em (a
/// fractional size rounded up; `u32::MAX` where the size is unknown): the
/// smallest covering strike at least that large, else the largest covering
/// strike, the first of equals either way. A strike without size, or a
/// request of no size, selects nothing. Only the selected strike is asked
/// for the glyph afterwards.
pub fn glyph_strike_for_size(strikes: &[BitmapStrike], glyph: u32, requested: u32) -> (chosen: Option<usize>)
    ensures
        match chosen {
            None => requested == 0 || forall|j: int|
                0 <= j < strikes@.len() ==> !strike_usable(#[trigger] strikes@[j], glyph),
            Some(i) => requested >= 1 && i < strikes@.len() && if exists|j: int|
                0 <= j < strikes@.len() && strike_fits(#[trigger] strikes@[j], glyph, requested) {
                smallest_fit(strikes@, glyph, requested, i as int)
            } else {
                largest_usable(strikes@, glyph, i as int)
            },
        },
{
    let mut best: Option<usize> = None;
    let mut best_ppem: u8 = 0;
    let mut k: usize = 0;
    while k < strikes.len()
        invariant
            0 <= k <= strikes@.len(),
            match best {
                None => best_ppem == 0 && (requested == 0 || forall|j: int|
                    0 <= j < k ==> !strike_usable(#[trigger] strikes@[j], glyph)),
                Some(i) => requested >= 1 && i < k && strike_usable(strikes@[i as int], glyph)
                    && best_ppem == strikes@[i as int].ppem && if best_ppem >= requested {
                    forall|j: int|
                        0 <= j < k && strike_fits(#[trigger] strikes@[j], glyph, requested)
                            ==> best_ppem <= strikes@[j].ppem && (strikes@[j].ppem == best_ppem
                            ==> i <= j)
                } else {
                    forall|j: int|
                        0 <= j < k && strike_usable(#[trigger] strikes@[j], glyph) ==> strikes@[j].ppem
                            <= best_ppem && (strikes@[j].ppem == best_ppem ==> i <= j)
                },
            },
        decreases strikes@.len() - k,
    {
        let strike = strikes[k];
        if strike.first_glyph <= glyph && glyph <= strike.last_glyph {
            let size = strike.ppem as u32;
            if (requested <= size && size < best_ppem as u32) || (requested > best_ppem as u32
                && size > best_ppem as u32) {
                best = Some(k);
                best_ppem = strike.ppem;
            }
        }
        k = k + 1;
    }
    proof {
        if let Some(i) = best {
            if exists|j: int|
                0 <= j < strikes@.len() && strike_fits(#[trigger] strikes@[j], glyph, requested) {
                let j = choose|j: int|
                    0 <= j < strikes@.len() && strike_fits(#[trigger] strikes@[j], glyph, requested);
                assert(strike_usable(strikes@[j], glyph));
            }
        }
    }
    best
}

} // verus!
