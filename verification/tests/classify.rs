use imagefall::filetype::{FileType, ImageType, ToContentType};
use imagefall::handlers::{classify, extension_handler, extension_of, file_content_type, image_extension_handler};

#[test]
fn classification_is_case_insensitive() {
    let lower = extension_handler("png".to_string());
    let upper = extension_handler("PNG".to_string());
    let mixed = extension_handler("PnG".to_string());
    assert_eq!(lower, FileType::Image(ImageType::Png));
    assert_eq!(upper, FileType::Image(ImageType::Png));
    assert_eq!(mixed, FileType::Image(ImageType::Png));
    assert_eq!(lower.get_content_type(), "image/png");
    assert_eq!(upper.get_content_type(), "image/png");
    assert_eq!(mixed.get_content_type(), "image/png");
}

#[test]
fn no_extension_and_unknown_extension_are_opaque() {
    assert_eq!(classify(None), FileType::Other);
    assert_eq!(classify(Some("xyz")), FileType::Other);
    assert_eq!(file_content_type(None), "application/octet-stream");
    assert_eq!(file_content_type(Some("xyz")), "application/octet-stream");
}

#[test]
fn empty_and_odd_extensions_are_opaque() {
    assert_eq!(classify(Some("")), FileType::Other);
    assert_eq!(classify(Some("png ")), FileType::Other);
    assert_eq!(classify(Some("日本")), FileType::Other);
    assert_eq!(classify(Some("pn")), FileType::Other);
}

#[test]
fn image_extensions_are_recognized() {
    for ext in [
        "apng", "avif", "gif", "jpg", "jpeg", "jfif", "pjpeg", "pjp", "png", "svg", "webp", "bmp",
        "ico", "cur", "tif", "tiff",
    ] {
        assert!(ImageType::is_image_file(ext), "{ext} should be an image extension");
    }
    assert!(ImageType::is_image_file("JPG"));
    assert!(ImageType::is_image_file("TIFF"));
    assert!(!ImageType::is_image_file("txt"));
    assert!(!ImageType::is_image_file(""));
    assert!(!ImageType::is_image_file("html"));
}

#[test]
fn aliases_map_to_one_subtype() {
    for ext in ["jpg", "jpeg", "jfif", "pjpeg", "pjp", "JPG"] {
        assert_eq!(image_extension_handler(ext), ImageType::Jpeg);
    }
    for ext in ["ico", "cur", "ICO", "CUR"] {
        assert_eq!(image_extension_handler(ext), ImageType::Ico);
    }
    for ext in ["tif", "tiff"] {
        assert_eq!(image_extension_handler(ext), ImageType::Tiff);
    }
    assert_eq!(image_extension_handler("apng"), ImageType::Apng);
    assert_eq!(image_extension_handler("avif"), ImageType::Avif);
    assert_eq!(image_extension_handler("gif"), ImageType::Gif);
    assert_eq!(image_extension_handler("svg"), ImageType::Svg);
    assert_eq!(image_extension_handler("webp"), ImageType::WebP);
    assert_eq!(image_extension_handler("bmp"), ImageType::Bmp);
}

#[test]
fn content_type_table_is_exact() {
    assert_eq!(ImageType::Apng.get_content_type(), "image/apng");
    assert_eq!(ImageType::Avif.get_content_type(), "image/avif");
    assert_eq!(ImageType::Gif.get_content_type(), "image/gif");
    assert_eq!(ImageType::Jpeg.get_content_type(), "image/jpeg");
    assert_eq!(ImageType::Png.get_content_type(), "image/png");
    assert_eq!(ImageType::Svg.get_content_type(), "image/svg+xml");
    assert_eq!(ImageType::WebP.get_content_type(), "image/webp");
    assert_eq!(ImageType::Bmp.get_content_type(), "image/bmp");
    assert_eq!(ImageType::Ico.get_content_type(), "image/x-icon");
    assert_eq!(ImageType::Tiff.get_content_type(), "image/tiff");
    assert_eq!(FileType::Other.get_content_type(), "application/octet-stream");
    assert_eq!(FileType::Image(ImageType::Png).get_content_type(), "image/png");
}

#[test]
fn subtype_names() {
    assert_eq!(ImageType::Png.name(), "png");
    assert_eq!(ImageType::WebP.name(), "webp");
    assert_eq!(ImageType::Ico.name(), "ico");
}

#[test]
fn extension_of_file_names() {
    assert_eq!(extension_of("a.png"), Some("png".to_string()));
    assert_eq!(extension_of("archive.tar.gz"), Some("gz".to_string()));
    assert_eq!(extension_of("picture.JPG"), Some("JPG".to_string()));
    assert_eq!(extension_of("README"), None);
    assert_eq!(extension_of(".bashrc"), None);
    assert_eq!(extension_of("trailing."), Some("".to_string()));
    assert_eq!(extension_of(""), None);
}
