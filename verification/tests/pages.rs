use rusty_library_shrinker::epub::{
    epub_file_name, extract_epub, is_image_type, manifest_item_ids, manifest_position, EpubError, EpubImage,
    EpubResource,
};
use rusty_library_shrinker::image_rules::{
    apply_icc_profile, check_source_dimensions, check_target_width, check_webp_dimensions,
    decode_jp2, decode_page, image_route, is_supported_image, jp2_page, prepare_jp2_pixels,
    resize_page, rgb_page, rgba_to_rgb,
    IccFailure, ImageError, ImageRoute, Jp2Image, Jp2Pixels, RgbImage,
};
use rusty_library_shrinker::pdf::{bgra_to_rgba, check_pdfium_symbols, page_file_name, PdfiumSymbolError};

fn res(key: &str, mime: &str, data: Option<&[u8]>) -> EpubResource {
    at(key, mime, data, 0)
}

fn at(key: &str, mime: &str, data: Option<&[u8]>, position: usize) -> EpubResource {
    EpubResource { key: key.to_string(), mime: mime.to_string(), data: data.map(|d| d.to_vec()), position }
}

fn img(resource: usize, name: &str) -> EpubImage {
    EpubImage { resource, file_name: name.to_string() }
}

#[test]
fn epub_images_keep_their_names_once() {
    let book = vec![
        res("OEBPS/Images/cover.jpeg", "image/jpeg", Some(b"c")),
        res("OEBPS/Text/ch1.xhtml", "application/xhtml+xml", Some(b"t")),
        res("OEBPS/img/p1.png", "image/png", Some(b"1")),
        res("other/cover.jpeg", "image/jpeg", Some(b"d")),
        res("x/p2.gif", "image/gif", Some(b"2")),
        res("x/noext", "image/gif", Some(b"3")),
        res("x/missing.png", "image/png", None),
        res("x/p3.bin", "image/webp", Some(b"4")),
    ];
    let out = extract_epub(&book).unwrap();
    assert_eq!(
        out,
        vec![img(0, "cover.jpg"), img(2, "p1.png"), img(4, "p2.gif"), img(5, "noext.noext"), img(7, "p3.webp")]
    );
}

#[test]
fn epub_images_never_overwrite_each_other() {
    let book = vec![
        res("x/a.jpeg", "image/jpeg", Some(b"first")),
        res("y/a.jpg", "image/jpeg", Some(b"second")),
        res("z/a.png", "image/png", Some(b"third")),
    ];
    let out = extract_epub(&book).unwrap();
    assert_eq!(out, vec![img(0, "a.jpg"), img(2, "a.png")]);
}

#[test]
fn epub_keeps_the_image_listed_first_in_the_manifest() {
    let book = vec![
        at("a/p.jpg", "image/jpeg", Some(b"second in manifest"), 1),
        at("b/p.jpg", "image/jpeg", Some(b"first in manifest"), 0),
        at("c/q.png", "image/png", Some(b"other"), 2),
    ];
    let mut reversed = book.clone();
    reversed.reverse();
    let kept = |rs: &Vec<EpubResource>| {
        let mut keys: Vec<String> = extract_epub(rs).unwrap().iter().map(|i| rs[i.resource].key.clone()).collect();
        keys.sort();
        keys
    };
    assert_eq!(kept(&book), vec!["b/p.jpg".to_string(), "c/q.png".to_string()]);
    assert_eq!(kept(&book), kept(&reversed));
    assert_eq!(extract_epub(&book).unwrap(), vec![img(1, "p.jpg"), img(2, "q.png")]);
    // Resources missing from the manifest come after, by path.
    let unlisted = vec![at("z/p.jpg", "image/jpeg", Some(b"z"), 9), at("y/p.jpg", "image/jpeg", Some(b"y"), 9)];
    assert_eq!(extract_epub(&unlisted).unwrap(), vec![img(1, "p.jpg")]);
}

#[test]
fn manifest_items_are_read_in_document_order() {
    let opf = r#"<?xml version="1.0"?>
<package><manifest>
  <item id="cover" href="Images/cover.jpg" media-type="image/jpeg"/>
  <item href="Text/c1.xhtml"
        id="c1" media-type="application/xhtml+xml"/>
  <item href="noid.css" media-type="text/css"/>
  <item	id="p1" href="Images/p1.png" media-type="image/png"/>
</manifest><spine><itemref idref="c1"/></spine></package>"#;
    let ids = manifest_item_ids(opf);
    assert_eq!(ids, vec!["cover".to_string(), "c1".to_string(), "p1".to_string()]);
    assert_eq!(manifest_position(&ids, "c1"), 1);
    assert_eq!(manifest_position(&ids, "p1"), 2);
    assert_eq!(manifest_position(&ids, "missing"), 3);
    assert!(manifest_item_ids("").is_empty());
}

#[test]
fn epub_without_readable_image_is_refused() {
    let book = vec![
        res("OEBPS/Text/ch1.xhtml", "application/xhtml+xml", Some(b"t")),
        res("OEBPS/img/p1.png", "image/png", None),
    ];
    assert_eq!(extract_epub(&book).unwrap_err(), EpubError::NoImages);
    assert_eq!(extract_epub(&Vec::new()).unwrap_err(), EpubError::NoImages);
}

#[test]
fn epub_names_follow_the_mime_type() {
    assert_eq!(epub_file_name("OEBPS/Images/cover.jpeg", "image/jpg"), "cover.jpg");
    assert_eq!(epub_file_name("a/b.tar.png", "image/webp"), "b.tar.webp");
    assert_eq!(epub_file_name("plain.svg", "image/svg+xml"), "plain.svg");
    assert!(is_image_type("image/png"));
    assert!(!is_image_type("application/xhtml+xml"));
}

#[test]
fn bgra_pages_become_rgba() {
    assert_eq!(bgra_to_rgba(&vec![1, 2, 3, 4, 5, 6, 7, 8]), vec![3, 2, 1, 4, 7, 6, 5, 8]);
    assert_eq!(bgra_to_rgba(&vec![1, 2, 3, 4, 9, 9]), vec![3, 2, 1, 4, 0, 0]);
    assert_eq!(bgra_to_rgba(&Vec::new()), Vec::<u8>::new());
}

#[test]
fn bgra_swap_twice_gives_back_the_pixels() {
    let px: Vec<u8> = (0..64u8).collect();
    assert_eq!(bgra_to_rgba(&bgra_to_rgba(&px)), px);
}

#[test]
fn page_files_are_numbered_on_four_digits() {
    assert_eq!(page_file_name(0), "page_0001.png");
    assert_eq!(page_file_name(41), "page_0042.png");
    assert_eq!(page_file_name(998), "page_0999.png");
    assert_eq!(page_file_name(9998), "page_9999.png");
    assert_eq!(page_file_name(9999), "page_10000.png");
}

#[test]
fn page_files_sort_in_page_order() {
    let names: Vec<String> = (0..1200).map(page_file_name).collect();
    let mut sorted = names.clone();
    sorted.sort();
    assert_eq!(names, sorted);
}

#[test]
fn webp_dimensions_are_bounded() {
    assert!(check_webp_dimensions(16383, 1).is_ok());
    assert!(matches!(
        check_webp_dimensions(16384, 10),
        Err(ImageError::InvalidWebpDimensions { width: 16384, height: 10 })
    ));
    assert!(matches!(check_webp_dimensions(10, 0), Err(ImageError::InvalidWebpDimensions { width: 10, height: 0 })));
    assert!(matches!(check_source_dimensions(0, 10), Err(ImageError::EmptyImage { width: 0, height: 10 })));
    assert!(check_source_dimensions(1, 1).is_ok());
    assert!(matches!(check_target_width(16384), Err(ImageError::TargetTooWide { width: 16384 })));
    assert!(check_target_width(16383).is_ok());
}

#[test]
fn images_are_recognised_by_extension() {
    assert!(is_supported_image("x/P1.JPG"));
    assert!(is_supported_image("a.jpeg"));
    assert!(is_supported_image("a.Png"));
    assert!(is_supported_image("a.bmp"));
    assert!(is_supported_image("a.webp"));
    assert!(is_supported_image("a.jp2"));
    assert!(!is_supported_image("ComicInfo.xml"));
    assert!(!is_supported_image("noext"));
    assert!(!is_supported_image(".png"));
}

#[test]
fn images_take_their_route() {
    assert_eq!(image_route(true, true, "a.jp2"), ImageRoute::Keep);
    assert_eq!(image_route(false, false, "dir/A.JP2"), ImageRoute::Jp2);
    assert_eq!(image_route(false, false, "a.png"), ImageRoute::Standard);
    assert_eq!(image_route(false, false, "noext"), ImageRoute::Standard);
    assert_eq!(image_route(false, false, "p1.WebP"), ImageRoute::Keep);
    assert_eq!(image_route(false, true, "p1.WebP"), ImageRoute::Standard);
}

#[test]
fn rgba_loses_its_alpha() {
    assert_eq!(rgba_to_rgb(&vec![1, 2, 3, 4, 5, 6, 7, 8, 9]), vec![1, 2, 3, 5, 6, 7]);
    assert!(matches!(prepare_jp2_pixels(Jp2Pixels::Rgba8(vec![9, 8, 7, 6])), Ok(Jp2Image::Rgb(v)) if v == vec![9, 8, 7]));
    assert!(matches!(prepare_jp2_pixels(Jp2Pixels::Rgb8(vec![1, 2, 3])), Ok(Jp2Image::Rgb(v)) if v == vec![1, 2, 3]));
    assert!(matches!(prepare_jp2_pixels(Jp2Pixels::Gray8(vec![5])), Ok(Jp2Image::Gray(v)) if v == vec![5]));
    assert!(matches!(prepare_jp2_pixels(Jp2Pixels::Other), Err(ImageError::UnsupportedJp2Pixels)));
}

#[test]
fn icc_profiles_convert_to_srgb() {
    let rgb: Vec<u8> = vec![100, 150, 200, 30, 220, 60, 240, 120, 10];
    assert_eq!(apply_icc_profile(rgb.clone(), None).unwrap(), rgb);
    let p3 = moxcms::ColorProfile::new_display_p3().encode().unwrap();
    let converted = apply_icc_profile(rgb.clone(), Some(p3.as_slice())).unwrap();
    assert_eq!(converted.len(), rgb.len());
    assert_ne!(converted, rgb);
    let bad = apply_icc_profile(rgb, Some(b"not a profile".as_slice()));
    assert!(matches!(bad, Err(ImageError::ColorProfile(IccFailure::Profile(_)))));
}

fn png_bytes(width: u32, height: u32) -> Vec<u8> {
    let mut img = image::RgbImage::new(width, height);
    for (x, y, p) in img.enumerate_pixels_mut() {
        *p = image::Rgb([(x * 40) as u8, (y * 40) as u8, 128]);
    }
    let mut out = std::io::Cursor::new(Vec::new());
    image::DynamicImage::ImageRgb8(img).write_to(&mut out, image::ImageFormat::Png).unwrap();
    out.into_inner()
}

#[test]
fn pages_decode_to_rgb() {
    let page = decode_page(&png_bytes(6, 4), Some("png")).unwrap();
    assert_eq!((page.width, page.height), (6, 4));
    assert_eq!(page.pixels.len(), 6 * 4 * 3);
    assert_eq!(&page.pixels[0..3], &[0, 0, 128]);
    assert_eq!(&page.pixels[3..6], &[40, 0, 128]);
    // The content decides over a wrong extension, as when a file is opened.
    assert_eq!(decode_page(&png_bytes(6, 4), Some("jpg")).unwrap().pixels, page.pixels);
    assert_eq!(decode_page(&png_bytes(6, 4), None).unwrap().pixels, page.pixels);
    assert!(matches!(decode_page(b"not an image", Some("png")), Err(ImageError::DecodeFailed)));
    assert!(matches!(decode_page(&[], None), Err(ImageError::DecodeFailed)));
}

#[test]
fn pages_resize_to_the_target_height() {
    let page = decode_page(&png_bytes(6, 4), Some("png")).unwrap();
    let same = resize_page(&page, 6, 4).unwrap();
    assert_eq!((same.width, same.height, &same.pixels), (6, 4, &page.pixels));
    let small = resize_page(&page, 3, 2).unwrap();
    assert_eq!((small.width, small.height), (3, 2));
    assert_eq!(small.pixels.len(), 3 * 2 * 3);
    let expected = image::imageops::resize(
        &image::RgbImage::from_raw(6, 4, page.pixels.clone()).unwrap(),
        3,
        2,
        image::imageops::FilterType::Lanczos3,
    );
    assert_eq!(small.pixels, expected.into_raw());
    // The aspect ratio is kept: the page fits within the bounds asked.
    let fitted = resize_page(&page, 3, 100).unwrap();
    assert_eq!((fitted.width, fitted.height), (3, 2));
    let wide = RgbImage { width: 1, height: 1, pixels: vec![1, 2, 3] };
    assert!(matches!(resize_page(&wide, 16384, 10), Err(ImageError::TargetTooWide { width: 16384 })));
}

#[test]
fn jp2_pages_become_rgb() {
    let gray = jp2_page(2, 1, Jp2Image::Gray(vec![10, 20, 99]), None).unwrap();
    assert_eq!((gray.width, gray.height), (2, 1));
    assert_eq!(gray.pixels, vec![10, 10, 10, 20, 20, 20]);
    assert!(matches!(jp2_page(2, 2, Jp2Image::Gray(vec![1, 2, 3]), None), Err(ImageError::Jp2TooFewSamples)));
    let rgb = jp2_page(1, 1, Jp2Image::Rgb(vec![1, 2, 3, 4]), None).unwrap();
    assert_eq!(rgb.pixels, vec![1, 2, 3]);
    assert!(matches!(jp2_page(1, 2, Jp2Image::Rgb(vec![1, 2, 3]), None), Err(ImageError::Jp2TooFewSamples)));
    let bad = jp2_page(1, 1, Jp2Image::Rgb(vec![1, 2, 3]), Some(b"not a profile".as_slice()));
    assert!(matches!(bad, Err(ImageError::ColorProfile(IccFailure::Profile(_)))));
    let p3 = moxcms::ColorProfile::new_display_p3().encode().unwrap();
    let converted = jp2_page(1, 1, Jp2Image::Rgb(vec![100, 150, 200]), Some(p3.as_slice())).unwrap();
    assert_eq!(converted.pixels.len(), 3);
}

#[test]
fn jp2_files_that_cannot_be_read_are_refused() {
    assert!(matches!(decode_jp2(b"not a jpeg 2000 file"), Err(ImageError::Jp2Unreadable(_))));
}

#[test]
fn rgb_pages_take_the_samples_their_size_calls_for() {
    let page = rgb_page(2, 1, &vec![1, 2, 3, 4, 5, 6, 7]).unwrap();
    assert_eq!((page.width, page.height, page.pixels), (2, 1, vec![1, 2, 3, 4, 5, 6]));
    assert!(matches!(rgb_page(2, 1, &vec![1, 2, 3]), Err(ImageError::Jp2TooFewSamples)));
    assert_eq!(rgb_page(0, 5, &Vec::new()).unwrap().pixels, Vec::<u8>::new());
}

#[test]
fn pdfium_symbols_are_checked() {
    let names: Vec<String> = vec!["FPDF_InitLibrary".to_string(), "FPDF_LoadPage".to_string(), "FPDFBitmap_Destroy".to_string()];
    assert_eq!(check_pdfium_symbols(true, &names, &vec![true, true, true]), Ok(()));
    assert_eq!(
        check_pdfium_symbols(true, &names, &vec![false, true, false]),
        Err(PdfiumSymbolError::Missing(vec!["FPDF_InitLibrary".to_string(), "FPDFBitmap_Destroy".to_string()]))
    );
    assert_eq!(check_pdfium_symbols(false, &names, &vec![true, true, true]), Err(PdfiumSymbolError::CloseDocumentMissing));
}
