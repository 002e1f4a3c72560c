use stella_app::raster::{
    decode_system_bgra32, decode_system_coverage, decode_system_raster, place_decoded_raster,
    glyph_strike_for_size, BitmapStrike, EmbeddedRaster, GlyphBox, RasterColor, RasterError,
    RasterFormat,
};

fn alphas(rgba: &[u8]) -> Vec<u8> {
    rgba.chunks(4).map(|pixel| pixel[3]).collect()
}

#[test]
fn embedded_bitmap_coverage_decodes_padded_rows_and_bit_depths() {
    let mono = decode_system_coverage(3, 2, &[0b1010_0000, 0b0100_0000], 1, true).unwrap();
    assert_eq!(alphas(&mono), [255, 0, 255, 0, 255, 0]);
    assert!(mono.chunks(4).all(|pixel| pixel[..3] == [255, 255, 255]));

    let gray = decode_system_coverage(4, 1, &[0b00_01_10_11], 2, false).unwrap();
    assert_eq!(alphas(&gray), [0, 85, 170, 255]);
}

#[test]
fn packed_rows_continue_across_bytes_and_nibbles_round() {
    // Three 1-bit pixels per row, rows packed back to back: 101 010.
    let packed = decode_system_coverage(3, 2, &[0b1010_1000], 1, false).unwrap();
    assert_eq!(alphas(&packed), [255, 0, 255, 0, 255, 0]);
    let nibbles = decode_system_coverage(2, 1, &[0x7f], 4, true).unwrap();
    assert_eq!(alphas(&nibbles), [119, 255]);
    let bytes = decode_system_coverage(2, 1, &[0, 200], 8, true).unwrap();
    assert_eq!(alphas(&bytes), [0, 200]);
}

#[test]
fn truncated_coverage_is_rejected() {
    assert_eq!(
        decode_system_coverage(9, 2, &[0xff, 0xff, 0xff], 1, true),
        Err(RasterError::Truncated)
    );
    assert!(decode_system_coverage(9, 2, &[0xff, 0xff, 0xff], 1, false).is_ok());
    assert_eq!(decode_system_coverage(0, 5, &[], 8, true), Ok(vec![]));
}

#[test]
fn premultiplied_bgra_bitmap_is_unpremultiplied_before_sampling() {
    let image = decode_system_bgra32(1, 2, &[25, 50, 100, 128, 0, 0, 0, 0]).unwrap();
    assert_eq!(&image[0..4], [199, 99, 49, 128]);
    assert_eq!(&image[4..8], [0, 0, 0, 0]);
}

#[test]
fn bgra_channels_above_alpha_saturate_and_short_data_is_rejected() {
    let image = decode_system_bgra32(1, 1, &[255, 10, 200, 100]).unwrap();
    assert_eq!(image, vec![255, 25, 255, 100]);
    assert_eq!(
        decode_system_bgra32(2, 1, &[0; 7]),
        Err(RasterError::Truncated)
    );
}

fn embedded(format: RasterFormat, width: u16, height: u16, data: &[u8]) -> EmbeddedRaster<'_> {
    EmbeddedRaster {
        x: -3,
        y: 7,
        width,
        height,
        pixels_per_em: 20,
        format,
        data,
    }
}

fn png_bytes(width: u32, height: u32, rgba: Vec<u8>) -> Vec<u8> {
    let image = image::RgbaImage::from_raw(width, height, rgba).unwrap();
    let mut bytes = std::io::Cursor::new(Vec::new());
    image.write_to(&mut bytes, image::ImageFormat::Png).unwrap();
    bytes.into_inner()
}

#[test]
fn coverage_formats_decode_in_the_foreground_colour() {
    let data = [0b1010_0000, 0b0100_0000];
    let bbox = Some(GlyphBox {
        x_min: 0,
        y_min: -1,
        x_max: 3,
        y_max: 2,
    });
    let decoded =
        decode_system_raster(&embedded(RasterFormat::BitmapMono, 3, 2, &data), true, bbox).unwrap();
    assert_eq!((decoded.width, decoded.height), (3, 2));
    assert_eq!(alphas(&decoded.rgba), [255, 0, 255, 0, 255, 0]);
    assert_eq!(decoded.color, RasterColor::Foreground);
    assert_eq!((decoded.x, decoded.y, decoded.pixels_per_em), (-3, 7, 20));
    assert!(decoded.sbix);
    assert_eq!(decoded.glyph_bbox, bbox);

    let packed = decode_system_raster(
        &embedded(RasterFormat::BitmapGray2Packed, 4, 1, &[0b00_01_10_11]),
        false,
        None,
    )
    .unwrap();
    assert_eq!(alphas(&packed.rgba), [0, 85, 170, 255]);
}

#[test]
fn bgra_and_png_glyphs_keep_their_own_colours() {
    let bgra = decode_system_raster(
        &embedded(RasterFormat::BitmapPremulBgra32, 1, 1, &[64, 32, 16, 128]),
        false,
        None,
    )
    .unwrap();
    assert_eq!(bgra.rgba, [31, 63, 127, 128]);
    assert_eq!(bgra.color, RasterColor::Intrinsic);

    let pixels = vec![255, 0, 0, 255, 0, 0, 255, 128];
    let png = png_bytes(2, 1, pixels.clone());
    let decoded =
        decode_system_raster(&embedded(RasterFormat::Png, 0, 0, &png), true, None).unwrap();
    assert_eq!((decoded.width, decoded.height), (2, 1));
    assert_eq!(decoded.rgba, pixels);
    assert_eq!(decoded.color, RasterColor::Intrinsic);
}

#[test]
fn undecodable_and_sizeless_glyphs_are_refused() {
    assert_eq!(
        decode_system_raster(&embedded(RasterFormat::Png, 1, 1, &[1, 2, 3]), false, None).err(),
        Some(RasterError::InvalidPng)
    );
    assert_eq!(
        decode_system_raster(&embedded(RasterFormat::BitmapGray8, 0, 4, &[]), false, None).err(),
        Some(RasterError::ZeroSized)
    );
    let mut strike = embedded(RasterFormat::BitmapGray8, 1, 1, &[255]);
    strike.pixels_per_em = 0;
    assert_eq!(
        decode_system_raster(&strike, false, None).err(),
        Some(RasterError::ZeroSized)
    );
    assert_eq!(
        decode_system_raster(&embedded(RasterFormat::BitmapGray4, 2, 2, &[0]), false, None).err(),
        Some(RasterError::Truncated)
    );
}

#[test]
fn placing_passes_errors_through_and_copies_the_strike() {
    let raster = embedded(RasterFormat::BitmapGray8, 9, 9, &[]);
    assert_eq!(
        place_decoded_raster(&raster, false, None, Err(RasterError::Overflow)).err(),
        Some(RasterError::Overflow)
    );
    let placed = place_decoded_raster(&raster, true, None, Ok((1, 1, vec![1, 2, 3, 4]))).unwrap();
    assert_eq!((placed.width, placed.height, placed.rgba), (1, 1, vec![1, 2, 3, 4]));
    assert_eq!(placed.color, RasterColor::Foreground);
    assert_eq!((placed.x, placed.y, placed.pixels_per_em, placed.sbix), (-3, 7, 20, true));
}

fn strike(first_glyph: u32, last_glyph: u32, ppem: u8) -> BitmapStrike {
    BitmapStrike {
        first_glyph,
        last_glyph,
        ppem,
    }
}

#[test]
fn the_smallest_strike_at_least_as_large_is_chosen_else_the_largest() {
    let strikes = [strike(0, 100, 12), strike(0, 100, 24), strike(0, 100, 16)];
    assert_eq!(glyph_strike_for_size(&strikes, 5, 13), Some(2));
    assert_eq!(glyph_strike_for_size(&strikes, 5, 16), Some(2));
    assert_eq!(glyph_strike_for_size(&strikes, 5, 1), Some(0));
    assert_eq!(glyph_strike_for_size(&strikes, 5, 30), Some(1));
    assert_eq!(glyph_strike_for_size(&strikes, 5, u32::MAX), Some(1));
    assert_eq!(glyph_strike_for_size(&strikes, 5, 0), None);
    assert_eq!(glyph_strike_for_size(&strikes, 200, 16), None);
}

#[test]
fn strikes_that_miss_the_glyph_or_have_no_size_are_never_chosen() {
    let strikes = [strike(0, 10, 12), strike(20, 30, 16), strike(20, 30, 0)];
    assert_eq!(glyph_strike_for_size(&strikes, 25, 12), Some(1));
    assert_eq!(glyph_strike_for_size(&strikes, 5, 40), Some(0));
    assert_eq!(glyph_strike_for_size(&[strike(0, 9, 0)], 5, 1), None);
    let equal = [strike(0, 9, 16), strike(0, 9, 16)];
    assert_eq!(glyph_strike_for_size(&equal, 5, 8), Some(0));
    assert_eq!(glyph_strike_for_size(&equal, 5, 30), Some(0));
}
