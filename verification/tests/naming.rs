use rushdrop::naming::{
    add_extension, can_infer, choose_extension, generate_filename_from_field, upload_path, FieldInfo,
    MediaType,
};
use rushdrop::path::{Component, FilePath};

fn field(name: Option<&str>, media_type: Option<(&str, &str)>) -> FieldInfo {
    FieldInfo {
        file_name: name.map(|n| n.to_string()),
        content_type: media_type
            .map(|(t, s)| MediaType { type_: t.to_string(), subtype: s.to_string() }),
    }
}

fn last_name(path: &FilePath) -> Option<String> {
    match path.components.last() {
        Some(Component::Normal(name)) => Some(name.clone()),
        _ => None,
    }
}

const PNG: [u8; 8] = [0x89, 0x50, 0x4e, 0x47, 0x0d, 0x0a, 0x1a, 0x0a];
const JPEG: [u8; 6] = [0xff, 0xd8, 0xff, 0xe0, 0x00, 0x10];

#[test]
fn a_name_with_an_extension_is_kept() {
    let f = field(Some("report.pdf"), Some(("image", "jpeg")));
    assert!(!f.need_magic_check(false));
    assert_eq!(generate_filename_from_field(&f, false, 0, None), "report.pdf");
    let f = field(Some("archive.tar.gz"), None);
    assert!(!f.need_magic_check(false));
    assert_eq!(generate_filename_from_field(&f, false, 0, None), "archive.tar.gz");
}

#[test]
fn the_media_type_tells_the_extension() {
    let f = field(Some("photo"), Some(("image", "jpeg")));
    assert!(!f.need_magic_check(false));
    assert_eq!(generate_filename_from_field(&f, false, 0, None), "photo.jpg");
    let f = field(Some("photo"), Some(("image", "png")));
    assert_eq!(generate_filename_from_field(&f, false, 0, None), "photo.png");
    let first = mime_guess::get_extensions("text", "plain").unwrap()[0];
    let f = field(Some("notes"), Some(("text", "plain")));
    assert_eq!(generate_filename_from_field(&f, false, 0, None), format!("notes.{}", first));
}

#[test]
fn an_unknown_media_type_tells_nothing() {
    let f = field(Some("thing"), Some(("application", "x-no-such-thing")));
    assert!(!f.need_magic_check(false));
    assert_eq!(generate_filename_from_field(&f, false, 0, None), "thing");
}

#[test]
fn the_content_tells_the_extension() {
    let f = field(Some("picture"), Some(("application", "octet-stream")));
    assert!(f.need_magic_check(false));
    assert_eq!(generate_filename_from_field(&f, false, 0, Some(&PNG.to_vec())), "picture.png");
    assert_eq!(generate_filename_from_field(&f, false, 0, Some(&JPEG.to_vec())), "picture.jpg");
    let f = field(Some("picture"), None);
    assert!(f.need_magic_check(false));
    assert_eq!(generate_filename_from_field(&f, false, 0, Some(&PNG.to_vec())), "picture.png");
}

#[test]
fn content_that_tells_nothing_adds_nothing() {
    let f = field(Some("picture"), None);
    assert_eq!(generate_filename_from_field(&f, false, 0, Some(&vec![0, 0, 0, 0])), "picture");
    assert_eq!(generate_filename_from_field(&f, false, 0, None), "picture");
}

#[test]
fn the_case_of_the_media_type_does_not_count() {
    let f = field(Some("picture"), Some(("Application", "OCTET-stream")));
    assert!(f.need_magic_check(false));
}

#[test]
fn a_file_without_a_name_is_named_by_the_time() {
    let f = field(None, None);
    assert!(f.need_magic_check(false));
    assert_eq!(
        generate_filename_from_field(&f, false, 1700000000123, Some(&PNG.to_vec())),
        "unnamed_1700000000123.png"
    );
    let f = field(Some(""), Some(("image", "jpeg")));
    assert_eq!(generate_filename_from_field(&f, false, 7, None), "unnamed_7.jpg");
}

#[test]
fn a_hidden_file_has_no_extension() {
    let f = field(Some(".profile"), None);
    assert!(f.need_magic_check(false));
    assert_eq!(generate_filename_from_field(&f, false, 0, Some(&PNG.to_vec())), ".profile.png");
}

#[test]
fn jpg_is_preferred_and_then_the_first() {
    let list = |names: &[&str]| Some(names.iter().map(|n| n.to_string()).collect::<Vec<String>>());
    assert_eq!(choose_extension(list(&["jfif", "jpe", "jpg"])), Some("jpg".to_string()));
    assert_eq!(choose_extension(list(&["tif", "tiff"])), Some("tif".to_string()));
    assert_eq!(choose_extension(list(&[])), None);
    assert_eq!(choose_extension(None), None);
    assert_eq!(add_extension("a".to_string(), Some("b".to_string())), "a.b");
    assert_eq!(add_extension("a".to_string(), None), "a");
}

#[test]
fn stored_names_are_those_of_sanitize_filename() {
    let long = "a".repeat(300);
    let wide = "é".repeat(200);
    let names = [
        "plain.txt",
        "../../etc/passwd",
        "..",
        ".",
        "...",
        "a/b\\c:d*e?f\"g<h>i|j",
        "tab\there\u{7f}\u{85}x",
        "con",
        "COM1.txt",
        "trailing. . .",
        "名字.jpg",
        "",
        &long,
        &wide,
    ];
    let base = FilePath::parse("/srv/files", false);
    for name in names {
        for windows in [false, true] {
            let expected = sanitize_filename::sanitize_with_options(
                name,
                sanitize_filename::Options { windows, truncate: true, replacement: "" },
            );
            let path = upload_path(&base, name, windows);
            if expected.is_empty() {
                assert_eq!(path.components.len(), 3);
            } else {
                assert_eq!(path.components.len(), 4);
                assert_eq!(last_name(&path), Some(expected));
            }
        }
    }
}

#[test]
fn an_upload_stays_in_its_directory() {
    let base = FilePath::parse("/srv/files", false);
    let path = upload_path(&base, "../../etc/passwd", false);
    assert_eq!(last_name(&path), Some("....etcpasswd".to_string()));
    assert!(path.starts_with(&base));
    let path = upload_path(&base, "/etc/passwd", false);
    assert_eq!(last_name(&path), Some("etcpasswd".to_string()));
    assert!(upload_path(&base, "..", false).starts_with(&base));
}

#[test]
fn a_long_name_is_cut_to_what_fits() {
    let base = FilePath::parse("/srv", false);
    let path = upload_path(&base, &"a".repeat(300), false);
    assert_eq!(last_name(&path).unwrap().len(), 255);
    let path = upload_path(&base, &"é".repeat(200), false);
    assert_eq!(last_name(&path).unwrap().chars().count(), 127);
}

#[test]
fn names_that_windows_keeps_for_itself() {
    let base = FilePath::parse("/srv", false);
    let stored = |name: &str| {
        let path = upload_path(&base, name, true);
        if path.components.len() == 2 { None } else { last_name(&path) }
    };
    for device in ["con", "NUL", "Aux.txt", "com5.tar.gz", "LPT0", "con.", "p/r/n"] {
        assert_eq!(stored(device), None);
    }
    for (name, expected) in [
        ("com10", "com10"),
        ("con .txt", "con .txt"),
        ("conx", "conx"),
        ("a. . ", "a"),
        (".con", ".con"),
        ("a.b. ", "a.b"),
    ] {
        assert_eq!(stored(name), Some(expected.to_string()));
    }
    assert_eq!(stored(" . "), None);
    assert_eq!(last_name(&upload_path(&base, "con", false)), Some("con".to_string()));
}

#[test]
fn on_windows_a_backslash_ends_a_directory() {
    let f = field(Some("C:\\dir.x\\pic"), None);
    assert!(f.need_magic_check(true));
    assert!(!f.need_magic_check(false));
    assert_eq!(
        generate_filename_from_field(&f, true, 0, Some(&PNG.to_vec())),
        "C:\\dir.x\\pic.png"
    );
    assert_eq!(generate_filename_from_field(&f, false, 0, None), "C:\\dir.x\\pic");
    let f = field(Some("C:\\dir\\pic.jpg"), None);
    assert!(!f.need_magic_check(true));
}

#[test]
fn content_with_long_frames_is_looked_at_where_addresses_are_long() {
    let frame: Vec<u8> = vec![0x50, 0x2a, 0x4d, 0x18, 0xf8, 0xff, 0xff, 0xff];
    assert_eq!(can_infer(&frame), usize::MAX > 0xffff_ffff);
    let mut archive: Vec<u8> = vec![0x50, 0x4b, 3, 4];
    archive.extend(vec![0xff; 18]);
    assert_eq!(can_infer(&archive), usize::MAX > 0xffff_ffff);
    assert!(can_infer(&PNG.to_vec()));
    let short: Vec<u8> = vec![0x50, 0x2a, 0x4d, 0x18, 1, 0, 0, 0, 9];
    assert!(can_infer(&short));
}
