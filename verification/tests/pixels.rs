use pdfdown::pixels::{
    apply_smask, channel_count, classify_color_space, cmyk_to_rgb, decode_raw_pixels,
    decode_xobject_to_dynamic_image, encode_to_png, finish_image, take_samples, ColorKind,
};
use pdfdown::streams::{raw_inflate, reverse_predictor, truncate_u32};
use std::io::Write;

#[test]
fn cmyk_black_and_white() {
    assert_eq!(cmyk_to_rgb(&[0, 0, 0, 255]), vec![0, 0, 0]);
    assert_eq!(cmyk_to_rgb(&[0, 0, 0, 0]), vec![255, 255, 255]);
}

#[test]
fn cmyk_follows_the_formula() {
    assert_eq!(cmyk_to_rgb(&[255, 0, 0, 0]), vec![0, 255, 255]);
    assert_eq!(cmyk_to_rgb(&[0, 255, 0, 0]), vec![255, 0, 255]);
    assert_eq!(cmyk_to_rgb(&[0, 0, 255, 0]), vec![255, 255, 0]);
    assert_eq!(cmyk_to_rgb(&[0, 0, 0, 65]), vec![190, 190, 190]);
    assert_eq!(cmyk_to_rgb(&[128, 64, 32, 16]), vec![119, 179, 209]);
    for c in 0..=255u32 {
        for k in 0..=255u32 {
            let found = cmyk_to_rgb(&[c as u8, 0, 255, k as u8]);
            let exact = (255.0 - c as f64) * (255.0 - k as f64) / 255.0;
            assert_eq!(found[0] as f64, exact.floor());
            assert_eq!(found[1] as u32, 255 - k);
            assert_eq!(found[2], 0);
        }
    }
}

#[test]
fn cmyk_leaves_out_what_is_no_whole_pixel() {
    assert_eq!(cmyk_to_rgb(&[]), Vec::<u8>::new());
    assert_eq!(cmyk_to_rgb(&[1, 2, 3]), Vec::<u8>::new());
    assert_eq!(cmyk_to_rgb(&[0, 0, 0, 0, 9, 9]), vec![255, 255, 255]);
}

#[test]
fn color_spaces_by_name() {
    for name in ["DeviceRGB", "ICCBased3", "CalRGB"] {
        assert_eq!(classify_color_space(name), ColorKind::Rgb);
    }
    for name in ["DeviceGray", "ICCBased1", "CalGray"] {
        assert_eq!(classify_color_space(name), ColorKind::Gray);
    }
    for name in ["DeviceCMYK", "ICCBased4"] {
        assert_eq!(classify_color_space(name), ColorKind::Cmyk);
    }
    for name in ["", "Indexed", "devicergb", "ICCBased", "ICCBased2", "DeviceRGB "] {
        assert_eq!(classify_color_space(name), ColorKind::Other);
    }
    assert_eq!(channel_count(ColorKind::Rgb), 3);
    assert_eq!(channel_count(ColorKind::Gray), 1);
    assert_eq!(channel_count(ColorKind::Cmyk), 4);
    assert_eq!(channel_count(ColorKind::Other), 3);
}

#[test]
fn samples_are_taken_as_the_image_needs_them() {
    let content = [1u8, 2, 3, 4, 5, 6, 7, 8];
    assert_eq!(take_samples(&content, 2, 1, 8, ColorKind::Rgb), Some(vec![1, 2, 3, 4, 5, 6]));
    assert_eq!(take_samples(&content, 2, 2, 8, ColorKind::Gray), Some(vec![1, 2, 3, 4]));
    assert_eq!(take_samples(&content, 1, 2, 8, ColorKind::Cmyk), Some(content.to_vec()));
    assert_eq!(take_samples(&content, 2, 2, 16, ColorKind::Gray), Some(vec![1, 3, 5, 7]));
    assert_eq!(take_samples(&content, 1, 1, 9, ColorKind::Rgb), Some(vec![1, 3, 5]));
    assert_eq!(take_samples(&content, 3, 1, 8, ColorKind::Rgb), None);
    assert_eq!(take_samples(&content, 3, 3, 1, ColorKind::Gray), None);
    assert_eq!(take_samples(&content, 0, 7, 8, ColorKind::Rgb), Some(vec![]));
    assert_eq!(take_samples(&content, u32::MAX, u32::MAX, 16, ColorKind::Cmyk), None);
}

#[test]
fn rasters_of_samples() {
    let content = [1u8, 2, 3, 4, 5, 6, 7, 8];
    let found = decode_raw_pixels(&content, 2, 1, 8, "DeviceRGB").unwrap();
    assert_eq!(found.color(), image::ColorType::Rgb8);
    assert_eq!((found.width(), found.height()), (2, 1));
    assert_eq!(found.as_bytes(), &[1, 2, 3, 4, 5, 6]);
    let found = decode_raw_pixels(&content, 4, 2, 8, "CalGray").unwrap();
    assert_eq!(found.color(), image::ColorType::L8);
    assert_eq!(found.as_bytes(), &content);
    let found = decode_raw_pixels(&[0, 0, 0, 255, 0, 255, 0, 0], 2, 1, 8, "ICCBased4").unwrap();
    assert_eq!(found.color(), image::ColorType::Rgb8);
    assert_eq!(found.as_bytes(), &[0, 0, 0, 255, 0, 255]);
    let found = decode_raw_pixels(&content, 1, 1, 8, "Lab").unwrap();
    assert_eq!(found.as_bytes(), &[1, 2, 3]);
    assert!(decode_raw_pixels(&content, 3, 1, 8, "DeviceRGB").is_none());
}

#[test]
fn soft_mask_becomes_alpha() {
    let base = decode_raw_pixels(&[1, 2, 3, 4, 5, 6], 2, 1, 8, "DeviceRGB").unwrap();
    let found = apply_smask(base, &[9, 8, 7], 2, 1);
    assert_eq!(found.color(), image::ColorType::Rgba8);
    assert_eq!(found.as_bytes(), &[1, 2, 3, 9, 4, 5, 6, 8]);
    let base = decode_raw_pixels(&[1, 2], 2, 1, 8, "DeviceGray").unwrap();
    let found = apply_smask(base, &[9, 8], 2, 1);
    assert_eq!(found.as_bytes(), &[1, 1, 1, 9, 2, 2, 2, 8]);
}

#[test]
fn soft_mask_that_does_not_fit_is_left_out() {
    let base = decode_raw_pixels(&[1, 2, 3, 4, 5, 6], 2, 1, 8, "DeviceRGB").unwrap();
    let found = apply_smask(base, &[9], 2, 1);
    assert_eq!(found.color(), image::ColorType::Rgb8);
    assert_eq!(found.as_bytes(), &[1, 2, 3, 4, 5, 6]);
    // The image is smaller than the size that the mask is for.
    let base = decode_raw_pixels(&[1, 2], 2, 1, 8, "DeviceGray").unwrap();
    let found = apply_smask(base, &[9, 8, 7, 6], 2, 2);
    assert_eq!(found.color(), image::ColorType::Rgb8);
    assert_eq!(found.as_bytes(), &[1, 1, 1, 2, 2, 2]);
}

#[test]
fn soft_mask_takes_no_more_pixels_than_the_stated_size() {
    // The raster has four pixels, the stated size is one by two.
    let base = decode_raw_pixels(&[1, 2, 3, 4], 2, 2, 8, "DeviceGray").unwrap();
    let found = apply_smask(base, &[9, 8, 7, 6], 1, 2);
    assert_eq!(found.color(), image::ColorType::Rgba8);
    assert_eq!((found.width(), found.height()), (1, 2));
    assert_eq!(found.as_bytes(), &[1, 1, 1, 9, 2, 2, 2, 8]);
    let mut png: Vec<u8> = Vec::new();
    found.write_to(&mut std::io::Cursor::new(&mut png), image::ImageFormat::Png).unwrap();
    assert_eq!(image::load_from_memory(&png).unwrap().as_bytes(), &[1, 1, 1, 9, 2, 2, 2, 8]);
}

#[test]
fn jpeg_larger_than_stated_with_a_soft_mask_is_encoded() {
    let mut jpeg: Vec<u8> = Vec::new();
    let picture = image::GrayImage::from_pixel(8, 8, image::Luma([77]));
    image::DynamicImage::ImageLuma8(picture)
        .write_to(&mut std::io::Cursor::new(&mut jpeg), image::ImageFormat::Jpeg)
        .unwrap();
    let mask = [255u8; 64];
    let png = encode_to_png(&jpeg, 2, 2, 8, "DeviceGray", "DCTDecode", Some(&mask)).unwrap();
    let back = image::load_from_memory(&png).unwrap();
    assert_eq!((back.width(), back.height()), (2, 2));
    assert_eq!(back.color(), image::ColorType::Rgba8);
    assert_eq!(back.as_bytes().len(), 16);
    assert!(back.as_bytes().chunks(4).all(|p| p[3] == 255 && (p[0] as i32 - 77).abs() < 4));
}

#[test]
fn a_decoded_raster_gets_its_soft_mask() {
    assert!(finish_image(None, Some(&[1, 2]), 2, 1).is_none());
    let base = decode_raw_pixels(&[1, 2], 2, 1, 8, "DeviceGray");
    let found = finish_image(base, None, 2, 1).unwrap();
    assert_eq!(found.color(), image::ColorType::L8);
    assert_eq!(found.as_bytes(), &[1, 2]);
    let base = decode_raw_pixels(&[1, 2], 2, 1, 8, "DeviceGray");
    let found = finish_image(base, Some(&[9, 8]), 2, 1).unwrap();
    assert_eq!(found.as_bytes(), &[1, 1, 1, 9, 2, 2, 2, 8]);
    let base = decode_raw_pixels(&[1, 2], 2, 1, 8, "DeviceGray");
    let found = finish_image(base, Some(&[9]), 2, 1).unwrap();
    assert_eq!(found.as_bytes(), &[1, 1, 1, 2, 2, 2]);
}

#[test]
fn rasters_by_filter() {
    let content = [1u8, 2, 3, 4, 5, 6];
    let found =
        decode_xobject_to_dynamic_image(&content, 2, 1, 8, "DeviceRGB", "FlateDecode", None)
            .unwrap();
    assert_eq!(found.as_bytes(), &content);
    let found =
        decode_xobject_to_dynamic_image(&content, 2, 1, 8, "DeviceRGB", "None", Some(&[7, 8]))
            .unwrap();
    assert_eq!(found.as_bytes(), &[1, 2, 3, 7, 4, 5, 6, 8]);
    assert!(decode_xobject_to_dynamic_image(&content, 2, 1, 8, "DeviceRGB", "DCTDecode", None)
        .is_none());
    assert!(decode_xobject_to_dynamic_image(&content, 2, 1, 8, "DeviceRGB", "JPXDecode", None)
        .is_none());
    assert!(encode_to_png(&content, 2, 1, 8, "DeviceRGB", "DCTDecode", None).is_none());
    assert!(encode_to_png(&content, 9, 9, 8, "DeviceRGB", "None", None).is_none());
}

#[test]
fn png_holds_the_raster() {
    let content = [1u8, 2, 3, 4, 5, 6];
    let png = encode_to_png(&content, 1, 2, 8, "DeviceRGB", "None", Some(&[10, 20])).unwrap();
    assert_eq!(&png[..8], b"\x89PNG\r\n\x1a\n");
    let back = image::load_from_memory(&png).unwrap();
    assert_eq!((back.width(), back.height()), (1, 2));
    assert_eq!(back.color(), image::ColorType::Rgba8);
    assert_eq!(back.as_bytes(), &[1, 2, 3, 10, 4, 5, 6, 20]);
}

#[test]
fn jpeg_is_decoded() {
    let mut jpeg: Vec<u8> = Vec::new();
    let picture = image::GrayImage::from_pixel(8, 8, image::Luma([77]));
    image::DynamicImage::ImageLuma8(picture)
        .write_to(&mut std::io::Cursor::new(&mut jpeg), image::ImageFormat::Jpeg)
        .unwrap();
    let found =
        decode_xobject_to_dynamic_image(&jpeg, 8, 8, 8, "DeviceGray", "DCTDecode", None).unwrap();
    assert_eq!((found.width(), found.height()), (8, 8));
    let gray = found.to_luma8().into_raw();
    assert!(gray.iter().all(|g| (*g as i32 - 77).abs() < 4));
}

#[test]
fn inflating_with_and_without_header() {
    let data = b"some bytes, some bytes, some bytes".to_vec();
    let mut with_header =
        flate2::write::ZlibEncoder::new(Vec::new(), flate2::Compression::default());
    with_header.write_all(&data).unwrap();
    let with_header = with_header.finish().unwrap();
    assert_ne!(with_header, data);
    assert_eq!(raw_inflate(&with_header), Some(data.clone()));
    let mut without =
        flate2::write::DeflateEncoder::new(Vec::new(), flate2::Compression::default());
    without.write_all(&data).unwrap();
    let without = without.finish().unwrap();
    assert_eq!(raw_inflate(&without), Some(data));
    assert_eq!(raw_inflate(&[0xff, 0xff, 0xff, 0xff]), None);
}

#[test]
fn predictor_is_reversed_only_where_the_length_fits() {
    let filtered = vec![1u8, 1, 1, 1, 2, 1, 1, 1];
    assert_eq!(
        reverse_predictor(filtered.clone(), Some(10), 3, 2, 1, 8),
        vec![1, 2, 3, 2, 3, 4]
    );
    assert_eq!(reverse_predictor(filtered.clone(), Some(15), 3, 2, 1, 8), vec![1, 2, 3, 2, 3, 4]);
    assert_eq!(reverse_predictor(filtered.clone(), Some(10), 3, 3, 1, 8), filtered);
    assert_eq!(reverse_predictor(filtered.clone(), Some(16), 3, 2, 1, 8), filtered);
    assert_eq!(reverse_predictor(filtered.clone(), Some(9), 3, 2, 1, 8), filtered);
    assert_eq!(reverse_predictor(filtered.clone(), Some(1), 3, 2, 1, 8), filtered);
    assert_eq!(reverse_predictor(filtered.clone(), None, 3, 2, 1, 8), filtered);
    let differenced = vec![1u8, 1, 1, 5, 1, 1];
    assert_eq!(
        reverse_predictor(differenced.clone(), Some(2), 3, 2, 1, 8),
        vec![1, 2, 3, 5, 6, 7]
    );
    assert_eq!(reverse_predictor(differenced.clone(), Some(2), 3, 1, 1, 8), differenced);
    assert_eq!(
        reverse_predictor(differenced.clone(), Some(2), 1, 2, 3, 8),
        differenced
    );
    assert_eq!(
        reverse_predictor(differenced.clone(), Some(2), 1, 3, 1, 16),
        vec![1, 1, 1, 5, 1, 1]
    );
    // Samples of one bit: a row of eight pixels is one byte.
    assert_eq!(reverse_predictor(vec![2, 7, 2, 1], Some(12), 8, 2, 1, 1), vec![7, 8]);
    assert_eq!(reverse_predictor(vec![], Some(12), 0, 0, 3, 8), Vec::<u8>::new());
    assert_eq!(reverse_predictor(vec![5], Some(12), u32::MAX, u32::MAX, u32::MAX, u32::MAX), vec![5]);
}

#[test]
fn integers_are_cut_to_32_bits() {
    assert_eq!(truncate_u32(0), 0);
    assert_eq!(truncate_u32(612), 612);
    assert_eq!(truncate_u32(u32::MAX as i64), u32::MAX);
    assert_eq!(truncate_u32(u32::MAX as i64 + 1), 0);
    assert_eq!(truncate_u32(-1), u32::MAX);
    assert_eq!(truncate_u32(i64::MIN), 0);
    assert_eq!(truncate_u32(i64::MAX), u32::MAX);
    for v in [-5i64, -4294967296, -4294967297, 1 << 40, (1 << 40) + 17, -(1 << 40) - 17] {
        assert_eq!(truncate_u32(v), v as u32);
    }
}
