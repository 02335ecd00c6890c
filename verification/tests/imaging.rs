use labworks::imaging::{
    build_output_path, detect_extension, had_errors, image_kind_for, image_sources, is_url, parse_args,
    parse_resize, plan_uploader, resize_image, upload_file_name, ArgError, ImageFailure, ImageKind,
    ResizeError, UploaderError, UploaderPlan,
};

fn strings(v: &[&str]) -> Vec<String> {
    v.iter().map(|s| s.to_string()).collect()
}

#[test]
fn resize_reads_width_by_height() {
    assert_eq!(parse_resize("300x200"), Ok((300, 200)));
    assert_eq!(parse_resize("+7x007"), Ok((7, 7)));
    assert_eq!(parse_resize("4294967295x1"), Ok((4294967295, 1)));
}

#[test]
fn resize_refusals_name_their_reason() {
    assert_eq!(parse_resize("300"), Err(ResizeError::NotWidthByHeight));
    assert_eq!(parse_resize("3x2x1"), Err(ResizeError::NotWidthByHeight));
    assert_eq!(parse_resize("ax200"), Err(ResizeError::BadWidth));
    assert_eq!(parse_resize("x200"), Err(ResizeError::BadWidth));
    assert_eq!(parse_resize("4294967296x1"), Err(ResizeError::BadWidth));
    assert_eq!(parse_resize("-3x2"), Err(ResizeError::BadWidth));
    assert_eq!(parse_resize("3x 2"), Err(ResizeError::BadHeight));
    assert_eq!(parse_resize("3x+"), Err(ResizeError::BadHeight));
    assert_eq!(parse_resize("0x200"), Err(ResizeError::ZeroSide));
    assert_eq!(parse_resize("300x0"), Err(ResizeError::ZeroSide));
}

#[test]
fn resize_agrees_with_std_parse() {
    for s in ["12x34", "+1x+1", "1x", "00x1", "99999999999x1", "1x2 ", "٣x4", "++1x1"] {
        let parts: Vec<&str> = s.split('x').collect();
        let ours = parse_resize(s);
        if parts.len() != 2 {
            assert_eq!(ours, Err(ResizeError::NotWidthByHeight));
        } else {
            match (parts[0].parse::<u32>(), parts[1].parse::<u32>()) {
                (Err(_), _) => assert_eq!(ours, Err(ResizeError::BadWidth)),
                (Ok(_), Err(_)) => assert_eq!(ours, Err(ResizeError::BadHeight)),
                (Ok(w), Ok(h)) if w == 0 || h == 0 => assert_eq!(ours, Err(ResizeError::ZeroSide)),
                (Ok(w), Ok(h)) => assert_eq!(ours, Ok((w, h))),
            }
        }
    }
}

#[test]
fn resize_round_trips_formatted_sizes() {
    for (w, h) in [(1u32, 1u32), (300, 200), (u32::MAX, 9)] {
        assert_eq!(parse_resize(&format!("{w}x{h}")), Ok((w, h)));
    }
}

#[test]
fn args_in_either_order() {
    let a = strings(&["prog", "--files", "list.txt", "--resize", "30x20"]);
    assert_eq!(parse_args(&a), Ok(("list.txt".to_string(), "30x20".to_string())));
    let b = strings(&["prog", "--resize", "30x20", "--files", "list.txt"]);
    assert_eq!(parse_args(&b), Ok(("list.txt".to_string(), "30x20".to_string())));
}

#[test]
fn args_errors() {
    assert_eq!(parse_args(&strings(&["prog", "--files", "a"])), Err(ArgError::Usage));
    assert_eq!(
        parse_args(&strings(&["prog", "--files", "a", "--files", "b"])),
        Err(ArgError::NoResize)
    );
    assert_eq!(
        parse_args(&strings(&["prog", "--resize", "1x1", "--resize", "2x2"])),
        Err(ArgError::NoFiles)
    );
    assert_eq!(
        parse_args(&strings(&["prog", "--files", "a", "x", "--resize"])),
        Err(ArgError::UnknownArgument(3))
    );
    assert_eq!(
        parse_args(&strings(&["prog", "--resize", "1x1", "a", "--files"])),
        Err(ArgError::UnknownArgument(3))
    );
    assert_eq!(
        parse_args(&strings(&["prog", "a", "b", "c", "--files"])),
        Err(ArgError::UnknownArgument(1))
    );
    assert_eq!(
        parse_args(&strings(&["prog", "--resize", "1x1", "--resize", "--files"])),
        Err(ArgError::NoFiles)
    );
    assert_eq!(
        parse_args(&strings(&["prog", "--files", "a", "--files", "--resize"])),
        Err(ArgError::NoResize)
    );
}

#[test]
fn web_sources_are_recognised() {
    assert!(is_url("http://example.com/a.png"));
    assert!(is_url("https://example.com"));
    assert!(!is_url("ftp://example.com"));
    assert!(!is_url("HTTP://example.com"));
    assert!(!is_url("images/a.png"));
    assert!(!is_url("http:/"));
}

#[test]
fn extension_detection() {
    assert_eq!(detect_extension("photos/cat.JPG"), "jpg");
    assert_eq!(detect_extension("https://x.org/a/b.webp?size=2&f=.gif"), "webp");
    assert_eq!(detect_extension("notes.txt"), "png");
    assert_eq!(detect_extension("noext"), "png");
    assert_eq!(detect_extension(".gif"), "png");
    assert_eq!(detect_extension("dir.jpeg/file"), "png");
    assert_eq!(detect_extension("a.TIFF"), "tiff");
}

#[test]
fn output_path_for_resized_copy() {
    assert_eq!(build_output_path("cat.PNG", "out", 3), "out/resized_3.png");
    assert_eq!(build_output_path("http://h/x.bmp?q=1", "/tmp/o/", 12), "/tmp/o/resized_12.bmp");
    assert_eq!(build_output_path("a.txt", "o", 1), "o/resized_1.png");
}

#[test]
fn uploaded_name_carries_index_and_time() {
    assert_eq!(upload_file_name(4, 1_700_000_000_123), "resized_4_1700000000123.png");
    assert_eq!(upload_file_name(0, 0), "resized_0_0.png");
}

#[test]
fn sources_are_numbered_by_line() {
    let content = "  a.png \n\n\tb.jpg\r\n   \nhttp://c/d.gif\n";
    let got = image_sources(content);
    let expected: Vec<(usize, String)> = content
        .lines()
        .enumerate()
        .filter_map(|(i, l)| {
            let t = l.trim();
            if t.is_empty() { None } else { Some((i + 1, t.to_string())) }
        })
        .collect();
    assert_eq!(got, expected);
    assert_eq!(got, vec![(1, "a.png".to_string()), (3, "b.jpg".to_string()), (5, "http://c/d.gif".to_string())]);
}

#[test]
fn uploader_choice() {
    let s = |x: &str| Some(x.to_string());
    match plan_uploader(s("fs"), s("/out"), None, None) {
        Ok(UploaderPlan::Fs { output_dir }) => assert_eq!(output_dir, "/out"),
        _ => panic!("expected the fs uploader"),
    }
    match plan_uploader(s("s3"), None, s("bucket"), s("http://minio:9000")) {
        Ok(UploaderPlan::S3 { bucket, endpoint }) => {
            assert_eq!(bucket, "bucket");
            assert_eq!(endpoint, "http://minio:9000");
        }
        _ => panic!("expected the s3 uploader"),
    }
    assert!(matches!(plan_uploader(None, s("/out"), None, None), Err(UploaderError::MissingUploaderType)));
    assert!(matches!(plan_uploader(s("fs"), None, s("b"), s("e")), Err(UploaderError::MissingFilesPath)));
    assert!(matches!(plan_uploader(s("s3"), s("/out"), None, s("e")), Err(UploaderError::MissingBucket)));
    assert!(matches!(plan_uploader(s("s3"), None, s("b"), None), Err(UploaderError::MissingEndpoint)));
    assert!(matches!(plan_uploader(s("FS"), s("/out"), None, None), Err(UploaderError::UnknownUploader)));
}

#[test]
fn image_kinds_of_kept_extensions() {
    assert_eq!(image_kind_for("jpg"), Some(ImageKind::Jpeg));
    assert_eq!(image_kind_for("jpeg"), Some(ImageKind::Jpeg));
    assert_eq!(image_kind_for("png"), Some(ImageKind::Png));
    assert_eq!(image_kind_for("webp"), Some(ImageKind::WebP));
    assert_eq!(image_kind_for("tiff"), Some(ImageKind::Tiff));
    assert_eq!(image_kind_for("txt"), None);
}

#[test]
fn images_are_resized_exactly() {
    let img = image::RgbImage::from_fn(4, 4, |x, y| image::Rgb([(x * 60) as u8, (y * 60) as u8, 7]));
    let mut png = Vec::new();
    image::DynamicImage::ImageRgb8(img)
        .write_to(&mut std::io::Cursor::new(&mut png), image::ImageFormat::Png)
        .unwrap();
    for (kind, format) in [(ImageKind::Png, image::ImageFormat::Png), (ImageKind::Bmp, image::ImageFormat::Bmp)] {
        let out = match resize_image(&png, 2, 3, kind) {
            Ok(out) => out,
            Err(_) => panic!("resize failed"),
        };
        assert_eq!(image::guess_format(&out).unwrap(), format);
        let back = image::load_from_memory(&out).unwrap();
        assert_eq!((back.width(), back.height()), (2, 3));
    }
    assert!(matches!(resize_image(b"not an image", 2, 3, ImageKind::Png), Err(ImageFailure::Decode(_))));
}

#[test]
fn a_run_fails_when_any_line_failed() {
    assert!(!had_errors(&vec![]));
    assert!(!had_errors(&vec![false, false]));
    assert!(had_errors(&vec![false, true, false]));
}

#[test]
fn resized_size_is_width_by_height_not_the_other_way() {
    let img = image::RgbImage::from_fn(5, 5, |_, _| image::Rgb([1, 2, 3]));
    let mut png = Vec::new();
    image::DynamicImage::ImageRgb8(img)
        .write_to(&mut std::io::Cursor::new(&mut png), image::ImageFormat::Png)
        .unwrap();
    let out = match resize_image(&png, 4, 1, ImageKind::Png) {
        Ok(out) => out,
        Err(_) => panic!("resize failed"),
    };
    let back = image::load_from_memory(&out).unwrap();
    assert_eq!((back.width(), back.height()), (4, 1));
}

#[test]
fn every_kind_is_written_with_its_signature_and_size() {
    let img = image::RgbImage::from_fn(6, 5, |x, y| image::Rgb([(x * 40) as u8, (y * 40) as u8, 99]));
    let mut png = Vec::new();
    image::DynamicImage::ImageRgb8(img)
        .write_to(&mut std::io::Cursor::new(&mut png), image::ImageFormat::Png)
        .unwrap();
    let kinds = [
        (ImageKind::Png, image::ImageFormat::Png),
        (ImageKind::Jpeg, image::ImageFormat::Jpeg),
        (ImageKind::Bmp, image::ImageFormat::Bmp),
        (ImageKind::Gif, image::ImageFormat::Gif),
        (ImageKind::Tiff, image::ImageFormat::Tiff),
        (ImageKind::WebP, image::ImageFormat::WebP),
    ];
    for (kind, format) in kinds {
        let out = match resize_image(&png, 3, 7, kind) {
            Ok(out) => out,
            Err(_) => panic!("resize failed"),
        };
        assert_eq!(image::guess_format(&out).unwrap(), format);
        let dims = image::ImageReader::new(std::io::Cursor::new(&out))
            .with_guessed_format()
            .unwrap()
            .into_dimensions()
            .unwrap();
        assert_eq!(dims, (3, 7));
    }
}
