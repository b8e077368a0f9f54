use rust_course::imaging::{
    EntryAction,
    choose_operation, field_kind, is_jpeg, is_supported_extension, output_format, parse_or,
    validate_dimensions, BatchResult, Error, FieldKind, ImageKind, ImageRsBackend, JobState,
    JobStatus, OperationChoice, OutputFormat, TransformForm, TurboJpegBackend,
    TurboRoute, TurboStep, turbo_error, raw_image_error, rgb_layout, TURBO_QUALITY,
};

#[test]
fn test_backend_name() {
    let backend = ImageRsBackend;
    assert_eq!(backend.name(), "image-rs");
}

#[test]
fn turbojpeg_name_and_marker() {
    assert_eq!(TurboJpegBackend.name(), "turbojpeg");
    assert!(is_jpeg(&[0xFF, 0xD8, 0xFF]));
    assert!(!is_jpeg(&[0x89, 0x50]));
    assert!(!is_jpeg(&[0xFF]));
}

#[test]
fn dimensions_limit() {
    assert!(validate_dimensions(16384, 16384).is_ok());
    match validate_dimensions(20000, 20000) {
        Err(Error::DimensionTooLarge { width, height }) => {
            assert_eq!((width, height), (20000, 20000));
        }
        _ => panic!("expected a dimension error"),
    }
    assert!(validate_dimensions(1, 16385).is_err());
}

#[test]
fn error_messages_and_status() {
    let e = Error::DimensionTooLarge { width: 20000, height: 3 };
    assert_eq!(e.message(), "Dimensions too large: 20000x3");
    assert_eq!(e.status_code(), 400);
    let e = Error::UnsupportedFormat { format: "gif".to_string() };
    assert_eq!(e.message(), "Unsupported format: gif");
    let e = Error::InvalidOperation { message: "x".to_string() };
    assert_eq!(e.message(), "Invalid operation: x");
    let e = Error::Io(std::io::Error::new(std::io::ErrorKind::NotFound, "gone"));
    assert!(e.message().starts_with("I/O error: "));
    assert_eq!(e.status_code(), 500);
}

#[test]
fn operations_by_name() {
    assert_eq!(
        choose_operation("resize", 10, 20).unwrap(),
        OperationChoice::Resize { width: 10, height: 20 }
    );
    assert_eq!(choose_operation("grayscale", 1, 1).unwrap(), OperationChoice::Grayscale);
    assert_eq!(choose_operation("blur", 1, 1).unwrap(), OperationChoice::Blur);
    match choose_operation("rotate", 1, 1) {
        Err(Error::InvalidOperation { message }) => assert_eq!(message, "Unknown operation: rotate"),
        _ => panic!("expected an invalid operation"),
    }
}

#[test]
fn form_fields_and_defaults() {
    assert_eq!(field_kind("image"), FieldKind::Image);
    assert_eq!(field_kind("sigma"), FieldKind::Sigma);
    assert_eq!(field_kind("other"), FieldKind::Other);
    assert_eq!(parse_or("42", 800), 42);
    assert_eq!(parse_or("abc", 800), 800);

    let form = TransformForm::new();
    match form.finish() {
        Err(Error::InvalidOperation { message }) => assert_eq!(message, "No image field in multipart"),
        _ => panic!("expected a missing image"),
    }

    let mut form = TransformForm::new();
    form.image = Some(vec![1, 2, 3]);
    let (img, op) = form.finish().unwrap();
    assert_eq!(img, vec![1, 2, 3]);
    assert_eq!(op, OperationChoice::Grayscale);

    let mut form = TransformForm::new();
    form.image = Some(vec![9]);
    form.operation = Some("resize".to_string());
    form.set_width_text("320");
    form.set_height_text("oops");
    let (_, op) = form.finish().unwrap();
    assert_eq!(op, OperationChoice::Resize { width: 320, height: 600 });
}

#[test]
fn jobs_and_batches() {
    let id = uuid::Uuid::nil();
    let mut job = JobStatus::pending(id);
    assert_eq!(job.state, JobState::Pending);
    job.start();
    assert_eq!(job.state, JobState::Processing);
    job.finish(Err("bad image".to_string()));
    assert_eq!(job.state, JobState::Failed);
    assert_eq!(job.error, Some("bad image".to_string()));

    assert!(is_supported_extension("JPG"));
    assert!(is_supported_extension("png"));
    assert!(!is_supported_extension("gif"));
    assert_eq!(output_format(ImageKind::Other), OutputFormat::Png);
    assert_eq!(output_format(ImageKind::Png), OutputFormat::Png);
    assert_eq!(output_format(ImageKind::Jpeg), OutputFormat::Jpeg);

    let mut batch = BatchResult::new();
    batch.record_processed();
    batch.record_skipped();
    batch.record_error("a.png: broken".to_string());
    assert_eq!(
        batch.summary(),
        "Batch complete: 1 processed, 1 skipped, 1 errors\n  - a.png: broken"
    );
}

fn test_png() -> Vec<u8> {
    // Create a minimal 2x2 red PNG in memory
    let mut img = image::RgbImage::new(2, 2);
    for pixel in img.pixels_mut() {
        *pixel = image::Rgb([255, 0, 0]);
    }
    let mut buf = Vec::new();
    img.write_to(&mut std::io::Cursor::new(&mut buf), image::ImageFormat::Png)
        .unwrap();
    buf
}

#[test]
fn test_grayscale() {
    let backend = ImageRsBackend;
    let input = test_png();
    let result = backend.apply(&input, OperationChoice::Grayscale).unwrap();
    assert!(!result.is_empty());
    // Output should be valid PNG
    let img = image::load_from_memory(&result).unwrap();
    assert_eq!(img.width(), 2);
    assert_eq!(img.height(), 2);
}

#[test]
fn test_resize() {
    let backend = ImageRsBackend;
    let input = test_png();
    let op = OperationChoice::Resize { width: 4, height: 4 };
    let result = backend.apply(&input, op).unwrap();
    let img = image::load_from_memory(&result).unwrap();
    assert_eq!(img.width(), 4);
    assert_eq!(img.height(), 4);
}

#[test]
fn test_dimension_too_large() {
    let backend = ImageRsBackend;
    let input = test_png();
    let op = OperationChoice::Resize { width: 20000, height: 20000 };
    let result = backend.apply(&input, op);
    assert!(result.is_err());
}

#[test]
fn apply_keeps_png_and_refuses_unknown_bytes() {
    let backend = ImageRsBackend;
    let input = test_png();
    let out = backend.apply(&input, OperationChoice::Resize { width: 3, height: 1 }).unwrap();
    assert_eq!(image::guess_format(&out).unwrap(), image::ImageFormat::Png);
    match backend.apply(&input, OperationChoice::Resize { width: 20000, height: 2 }) {
        Err(Error::DimensionTooLarge { width, height }) => assert_eq!((width, height), (20000, 2)),
        other => panic!("expected a dimension error, got {:?}", other.map(|v| v.len())),
    }
    match backend.apply(b"not an image", OperationChoice::Grayscale) {
        Err(Error::Image(_)) => {}
        other => panic!("expected an image error, got {:?}", other.map(|v| v.len())),
    }
    // A PNG signature with nothing after it is recognised but does not decode.
    let truncated = [0x89u8, 0x50, 0x4E, 0x47, 0x0D, 0x0A, 0x1A, 0x0A];
    match backend.apply(&truncated, OperationChoice::Resize { width: 20000, height: 2 }) {
        Err(Error::Image(_)) => {}
        other => panic!("expected an image error, got {:?}", other.map(|v| v.len())),
    }
}

#[test]
fn apply_keeps_jpeg_as_jpeg() {
    let mut img = image::RgbImage::new(4, 4);
    for pixel in img.pixels_mut() {
        *pixel = image::Rgb([10, 200, 30]);
    }
    let mut input = Vec::new();
    img.write_to(&mut std::io::Cursor::new(&mut input), image::ImageFormat::Jpeg)
        .unwrap();
    assert!(is_jpeg(&input));
    let out = ImageRsBackend.apply(&input, OperationChoice::Grayscale).unwrap();
    assert_eq!(image::guess_format(&out).unwrap(), image::ImageFormat::Jpeg);
    let out = ImageRsBackend
        .apply(&input, OperationChoice::Resize { width: 2, height: 3 })
        .unwrap();
    let decoded = image::load_from_memory(&out).unwrap();
    assert_eq!((decoded.width(), decoded.height()), (2, 3));
}

#[test]
fn turbojpeg_routes_jpeg_resizes_only() {
    let jpeg = [0xFFu8, 0xD8, 0xFF, 0xE0];
    let png = [0x89u8, 0x50, 0x4E, 0x47];
    let backend = TurboJpegBackend;
    assert_eq!(
        backend.route(&jpeg, OperationChoice::Resize { width: 100, height: 50 }).unwrap(),
        TurboRoute::Resize { width: 100, height: 50 }
    );
    assert_eq!(backend.route(&jpeg, OperationChoice::Grayscale).unwrap(), TurboRoute::ImageRs);
    assert_eq!(backend.route(&jpeg, OperationChoice::Blur).unwrap(), TurboRoute::ImageRs);
    assert_eq!(
        backend.route(&png, OperationChoice::Resize { width: 20000, height: 50 }).unwrap(),
        TurboRoute::ImageRs
    );
    match backend.route(&jpeg, OperationChoice::Resize { width: 20000, height: 50 }) {
        Err(Error::DimensionTooLarge { width, height }) => assert_eq!((width, height), (20000, 50)),
        _ => panic!("expected a dimension error"),
    }
}

#[test]
fn turbojpeg_step_errors_and_layout() {
    assert_eq!(
        turbo_error(TurboStep::ReadHeader, "bad header").message(),
        "Invalid operation: TurboJPEG read header: bad header"
    );
    match turbo_error(TurboStep::DecompressorInit, "x") {
        Error::InvalidOperation { message } => {
            assert_eq!(message, "TurboJPEG decompressor init: x")
        }
        _ => panic!("expected an invalid operation"),
    }
    match turbo_error(TurboStep::Compress, "full") {
        Error::InvalidOperation { message } => assert_eq!(message, "TurboJPEG compress: full"),
        _ => panic!("expected an invalid operation"),
    }
    match raw_image_error() {
        Error::InvalidOperation { message } => {
            assert_eq!(message, "Failed to create image from decompressed data")
        }
        _ => panic!("expected an invalid operation"),
    }
    assert_eq!(rgb_layout(4, 2), (24, 12));
    assert_eq!(rgb_layout(0, 7), (0, 0));
    assert_eq!(TURBO_QUALITY, 85);
}

#[test]
fn batch_steps_through_entries() {
    let mut batch = BatchResult::new();
    assert_eq!(batch.next_entry(false, "png"), EntryAction::PassOver);
    assert_eq!(batch.next_entry(true, "gif"), EntryAction::Skip);
    assert_eq!(batch.next_entry(true, ""), EntryAction::Skip);
    assert_eq!(batch.next_entry(true, "JPEG"), EntryAction::Process);
    batch.record_outcome(Ok(()));
    assert_eq!(batch.next_entry(true, "png"), EntryAction::Process);
    batch.record_outcome(Err("b.png: broken".to_string()));
    assert_eq!(batch.processed, 1);
    assert_eq!(batch.skipped, 2);
    assert_eq!(batch.errors, vec!["b.png: broken".to_string()]);
    assert_eq!(
        batch.summary(),
        "Batch complete: 1 processed, 2 skipped, 1 errors\n  - b.png: broken"
    );
}
