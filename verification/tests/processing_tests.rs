use filegate::processing::{FileProcessingConfig, FileProcessor};

#[test]
fn test_size_validation() {
    let config = FileProcessingConfig {
        max_file_size: Some(1024),
        ..Default::default()
    };
    let processor = FileProcessor::new(config);

    assert!(processor.validate_size(512).is_ok());
    assert!(processor.validate_size(1024).is_ok());
    assert!(processor.validate_size(2048).is_err());
}

#[test]
fn test_mime_type_validation() {
    let config = FileProcessingConfig {
        allowed_mime_types: Some(vec!["image/".to_string(), "text/".to_string()]),
        ..Default::default()
    };
    let processor = FileProcessor::new(config);

    assert!(processor.validate_mime_type("image/jpeg").is_ok());
    assert!(processor.validate_mime_type("text/plain").is_ok());
    assert!(processor.validate_mime_type("application/pdf").is_err());
}

#[test]
fn test_mime_type_blocklist() {
    let config = FileProcessingConfig {
        blocked_mime_types: Some(vec!["application/x-executable".to_string()]),
        ..Default::default()
    };
    let processor = FileProcessor::new(config);

    assert!(processor.validate_mime_type("image/jpeg").is_ok());
    assert!(processor
        .validate_mime_type("application/x-executable")
        .is_err());
}

#[test]
fn mime_detection_prefers_the_file_name_extension() {
    let processor = FileProcessor::new(FileProcessingConfig::default());
    assert_eq!(processor.detect_mime_type(b"anything", "photo.png"), "image/png");
    assert_eq!(processor.detect_mime_type(b"", "notes.txt"), "text/plain");
}

#[test]
fn mime_detection_falls_back_to_magic_bytes() {
    let processor = FileProcessor::new(FileProcessingConfig::default());
    assert_eq!(
        processor.detect_mime_type(&[0xff, 0xd8, 0xff, 0xe0], "noext"),
        "image/jpeg"
    );
    assert_eq!(
        processor.detect_mime_type(&[0x89, 0x50, 0x4e, 0x47], "noext"),
        "image/png"
    );
    assert_eq!(
        processor.detect_mime_type(&[0x25, 0x50, 0x44, 0x46], "noext"),
        "application/pdf"
    );
    assert_eq!(
        processor.detect_mime_type(&[0x50, 0x4b, 0x03, 0x04], "noext"),
        "application/zip"
    );
    assert_eq!(processor.detect_mime_type(b"xy", "noext"), "application/octet-stream");
}

#[test]
fn thumbnails_are_skipped_when_disabled_or_not_an_image() {
    let off = FileProcessor::new(FileProcessingConfig::default());
    assert_eq!(off.generate_thumbnail(b"bytes", "image/png").unwrap(), None);

    let on = FileProcessor::new(FileProcessingConfig {
        enable_thumbnail: true,
        ..Default::default()
    });
    assert_eq!(on.generate_thumbnail(b"bytes", "text/plain").unwrap(), None);
    // Enabled and an image type, but not decodable bytes: an error.
    assert!(on.generate_thumbnail(b"not an image", "image/png").is_err());
}

#[test]
fn a_thumbnail_is_produced_for_a_real_image() {
    let processor = FileProcessor::new(FileProcessingConfig {
        enable_thumbnail: true,
        thumbnail_width: Some(2),
        thumbnail_height: Some(2),
        ..Default::default()
    });
    // A tiny PNG, encoded through the same image crate the library calls.
    let img = image::DynamicImage::new_rgb8(4, 4);
    let mut buf = std::io::Cursor::new(Vec::new());
    img.write_to(&mut buf, image::ImageFormat::Png).unwrap();
    let png = buf.into_inner();
    let thumb = processor.generate_thumbnail(&png, "image/png").unwrap();
    assert!(thumb.is_some());
    assert!(!thumb.unwrap().is_empty());
}

#[test]
fn scan_replies_are_judged_on_the_found_marker() {
    let off = FileProcessor::new(FileProcessingConfig::default());
    assert!(off.evaluate_scan_response("stream: Eicar-Test FOUND").is_ok());

    let on = FileProcessor::new(FileProcessingConfig {
        enable_virus_scan: true,
        ..Default::default()
    });
    assert!(on.evaluate_scan_response("stream: OK").is_ok());
    assert!(on.evaluate_scan_response("stream: Eicar-Test FOUND").is_err());
}

#[test]
fn the_size_rejection_names_the_size_and_the_limit() {
    let processor = FileProcessor::new(FileProcessingConfig {
        max_file_size: Some(1024),
        ..Default::default()
    });
    let err = processor.validate_size(2048).unwrap_err();
    assert_eq!(
        err.message(),
        "Storage error: File size 2048 bytes exceeds maximum allowed size 1024 bytes"
    );
}
