use image_sizing::probe::parse_resolution;
use image_sizing::process::{
    archive_filename, convert_dir, convert_image_result, file_ext, file_title, is_image,
    needs_archive_copy, scaled_filename, scaled_outputs, select_images, ConvertError,
    ImageOutcome,
};
use image_sizing::utils::{Image, Resolution, Scale, Scaling};

fn demo_scaling() -> Scaling {
    [Scale::Small(10), Scale::Medium(40), Scale::Large(80)]
}

fn good_outcome(name: &str, probe: &str) -> ImageOutcome {
    ImageOutcome {
        name: name.to_string(),
        probe_ok: true,
        probe_output: probe.as_bytes().to_vec(),
        archive_ok: true,
        scaled_ok: [true, true, true],
    }
}

#[test]
fn test_image_extension() {
    let not_images = vec!["DS_Store", "txt", "pdf", "json"];
    let mut res = not_images.into_iter().map(is_image);
    assert!(res.all(|b| !b));

    let images = vec!["png", "tiff", "jpg", "jpeg", "raw"];
    let mut res = images.into_iter().map(is_image);
    assert!(res.all(|b| b))
}

#[test]
fn test_image_extension_any_case() {
    assert!(is_image("PNG"));
    assert!(is_image("TiFf"));
    assert!(is_image("JpEg"));
    assert!(is_image("RAW"));
    assert!(!is_image("avif"));
    assert!(!is_image(""));
    assert!(!is_image("pngx"));
}

#[test]
fn test_parse_resolution_fixed_template() {
    assert_eq!(
        parse_resolution(br#"{ "width": 800, "height": 600 }"#),
        Some(Resolution {
            width: 800,
            height: 600
        })
    );
    assert_eq!(
        parse_resolution(b"  {\t\"width\":1,\"height\":2}\n"),
        Some(Resolution {
            width: 1,
            height: 2
        })
    );
    assert_eq!(
        parse_resolution(br#"{ "width": 4294967295, "height": 0 }"#),
        Some(Resolution {
            width: u32::MAX,
            height: 0
        })
    );
}

#[test]
fn test_parse_resolution_rejects_deviations() {
    assert_eq!(parse_resolution(b""), None);
    assert_eq!(parse_resolution(br#"{ "height": 600, "width": 800 }"#), None);
    assert_eq!(parse_resolution(br#"{ "width": 800 }"#), None);
    assert_eq!(parse_resolution(br#"{ "width": 800, "height": 600 "#), None);
    assert_eq!(parse_resolution(br#"{ "width": -800, "height": 600 }"#), None);
    assert_eq!(
        parse_resolution(br#"{ "width": 4294967296, "height": 600 }"#),
        None
    );
    assert_eq!(
        parse_resolution(br#"{ "width": 800, "height": 600 } extra"#),
        None
    );
    assert_eq!(parse_resolution(b"no record at all"), None);
}

#[test]
fn test_file_title_and_ext() {
    assert_eq!(file_title("photo.png"), "photo");
    assert_eq!(file_ext("photo.png").as_deref(), Some("png"));
    assert_eq!(file_title("archive.tar.gz"), "archive.tar");
    assert_eq!(file_ext("archive.tar.gz").as_deref(), Some("gz"));
    assert_eq!(file_title(".hidden"), ".hidden");
    assert_eq!(file_ext(".hidden"), None);
    assert_eq!(file_title("noext"), "noext");
    assert_eq!(file_ext("noext"), None);
    assert_eq!(file_title("dot."), "dot");
    assert_eq!(file_ext("dot.").as_deref(), Some(""));
}

#[test]
fn test_needs_archive_copy() {
    assert!(needs_archive_copy("photo.png"));
    assert!(needs_archive_copy("photo.JPEG"));
    assert!(!needs_archive_copy("photo.avif"));
    assert!(!needs_archive_copy("photo.AVIF"));
    assert!(!needs_archive_copy("noext"));
}

#[test]
fn test_output_filenames() {
    assert_eq!(archive_filename("photo"), "photo.avif");
    assert_eq!(scaled_filename("photo", &Scale::Small(10)), "photo_small.avif");
    assert_eq!(
        scaled_filename("photo", &Scale::Medium(40)),
        "photo_medium.avif"
    );
    assert_eq!(scaled_filename("photo", &Scale::Large(80)), "photo_large.avif");

    let outs = scaled_outputs("photo", &demo_scaling());
    assert_eq!(
        outs,
        vec![
            ("photo_small.avif".to_string(), 10),
            ("photo_medium.avif".to_string(), 40),
            ("photo_large.avif".to_string(), 80),
        ]
    );
}

#[test]
fn test_select_images() {
    let entries = vec![
        Some("a.png".to_string()),
        None,
        Some("notes.txt".to_string()),
        Some("b.JPG".to_string()),
        Some(".DS_Store".to_string()),
        Some("done.avif".to_string()),
    ];
    assert_eq!(
        select_images(&entries),
        vec!["a.png".to_string(), "b.JPG".to_string()]
    );
}

#[test]
fn test_convert_image_result_ok() {
    let outcome = good_outcome("photo.png", r#"{ "width": 1000, "height": 1000 }"#);
    let (title, image) = convert_image_result(&outcome, &demo_scaling()).unwrap();
    assert_eq!(title, "photo");
    assert_eq!(
        image,
        Image {
            original: Resolution {
                width: 1000,
                height: 1000
            },
            small: Resolution {
                width: 100,
                height: 100
            },
            medium: Resolution {
                width: 400,
                height: 400
            },
            large: Resolution {
                width: 800,
                height: 800
            },
        }
    );
}

#[test]
fn test_convert_dir_single_image() {
    let entries = vec![Some("photo.png".to_string()), Some("notes.txt".to_string())];
    let images = select_images(&entries);
    assert_eq!(images, vec!["photo.png".to_string()]);

    let outcomes: Vec<ImageOutcome> = images
        .iter()
        .map(|name| good_outcome(name, r#"{ "width": 1000, "height": 1000 }"#))
        .collect();

    let map = convert_dir(&outcomes, &demo_scaling()).unwrap();
    assert_eq!(map.len(), 1);
    let image = map.get("photo").unwrap();
    assert_eq!(
        image,
        Image {
            original: Resolution {
                width: 1000,
                height: 1000
            },
            small: Resolution {
                width: 100,
                height: 100
            },
            medium: Resolution {
                width: 400,
                height: 400
            },
            large: Resolution {
                width: 800,
                height: 800
            },
        }
    );
    assert!(map.get("notes").is_none());
}

#[test]
fn test_scaled_failure_is_recoverable() {
    let mut outcome = good_outcome("photo.png", r#"{ "width": 1000, "height": 1000 }"#);
    outcome.scaled_ok = [true, false, true];
    let map = convert_dir(&vec![outcome], &demo_scaling()).unwrap();
    assert_eq!(map.len(), 1);
    let image = map.get("photo").unwrap();
    assert_eq!(
        image.small,
        Resolution {
            width: 100,
            height: 100
        }
    );
}

#[test]
fn test_probe_failure_is_fatal() {
    let good = good_outcome("ok.png", r#"{ "width": 10, "height": 10 }"#);
    let mut bad = good_outcome("bad.png", "");
    bad.probe_ok = false;
    let err = convert_dir(&vec![good, bad], &demo_scaling()).unwrap_err();
    assert_eq!(err, ConvertError::Unreadable("bad".to_string()));
    assert_eq!(err.message(), "Image bad cannot be read");
}

#[test]
fn test_probe_garbage_is_fatal() {
    let bad = good_outcome("bad.png", "width=10 height=10");
    let err = convert_dir(&vec![bad], &demo_scaling()).unwrap_err();
    assert_eq!(err, ConvertError::ProbeFormat("bad".to_string()));
    assert_eq!(err.message(), "Image bad reported no readable resolution");
}

#[test]
fn test_archive_copy_failure_is_fatal() {
    let mut bad = good_outcome("bad.png", r#"{ "width": 10, "height": 10 }"#);
    bad.archive_ok = false;
    let err = convert_dir(&vec![bad], &demo_scaling()).unwrap_err();
    assert_eq!(err, ConvertError::ArchiveCopyFailed("bad".to_string()));
    assert_eq!(
        err.message(),
        "Image bad could not be copied to the archival format"
    );
}

#[test]
fn test_first_fatal_outcome_wins() {
    let mut first = good_outcome("first.png", "");
    first.probe_ok = false;
    let mut second = good_outcome("second.png", "garbage");
    second.probe_ok = true;
    let err = convert_dir(&vec![first, second], &demo_scaling()).unwrap_err();
    assert_eq!(err, ConvertError::Unreadable("first".to_string()));
}

#[test]
fn test_duplicate_titles_last_write_wins() {
    let png = good_outcome("photo.png", r#"{ "width": 1000, "height": 1000 }"#);
    let jpg = good_outcome("photo.jpg", r#"{ "width": 200, "height": 100 }"#);
    let map = convert_dir(&vec![png, jpg], &demo_scaling()).unwrap();
    assert_eq!(map.len(), 1);
    let image = map.get("photo").unwrap();
    assert_eq!(
        image.original,
        Resolution {
            width: 200,
            height: 100
        }
    );
}
