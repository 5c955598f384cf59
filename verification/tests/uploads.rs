use rushdrop::error::{AppError, MulterError};
use rushdrop::naming::{FieldInfo, MediaType};
use rushdrop::path::{Component, FilePath};
use rushdrop::progress::{ProgressMap, UploadMeter};
use rushdrop::upload::{boundary_or_error, upload_boundary, UploadAction, UploadEvent, UploadSession};

fn begin() -> UploadSession {
    UploadSession::new(FilePath::parse("/srv/files", false), false)
}

fn field(name: &str) -> UploadEvent {
    UploadEvent::Field {
        field: FieldInfo { file_name: Some(name.to_string()), content_type: None },
        now_millis: 42,
    }
}

fn step(session: UploadSession, event: UploadEvent, map: &mut ProgressMap) -> (UploadSession, UploadAction) {
    assert!(session.expects(&event));
    session.step(event, map)
}

fn created_name(action: &UploadAction) -> String {
    match action {
        UploadAction::CreateFile(path) => match path.components.last() {
            Some(Component::Normal(name)) => name.clone(),
            _ => panic!("no name"),
        },
        _ => panic!("no file is created"),
    }
}

#[test]
fn the_boundary_of_a_form() {
    let value = b"multipart/form-data; boundary=xyz".to_vec();
    assert_eq!(upload_boundary(Some(&value)).unwrap(), "xyz");
}

#[test]
fn an_upload_needs_a_content_type() {
    assert!(matches!(upload_boundary(None), Err(AppError::MissingContentType)));
}

#[test]
fn a_content_type_must_be_text() {
    match upload_boundary(Some(&vec![0x66, 0xff])) {
        Err(AppError::InvalidContentType(text)) => {
            assert_eq!(text, "failed to convert header to a str")
        },
        _ => panic!("accepted"),
    }
    match upload_boundary(Some(&vec![0x66, 0x7f])) {
        Err(AppError::InvalidContentType(_)) => {},
        _ => panic!("accepted"),
    }
}

#[test]
fn a_content_type_must_be_that_of_a_form() {
    let text_of = |value: &[u8]| match upload_boundary(Some(&value.to_vec())) {
        Err(AppError::MulterError(MulterError::Other(text))) => text,
        _ => panic!("accepted"),
    };
    assert_eq!(text_of(b"text/plain"), "Content-Type is not multipart/form-data");
    assert_eq!(text_of(b"multipart/form-data"), "multipart boundary not found in Content-Type");
    assert_eq!(text_of(b"nonsense"), "failed to decode Content-Type");
    assert_eq!(text_of(b"a\tb"), "failed to decode Content-Type");
}

#[test]
fn a_boundary_that_was_read_is_handed_on() {
    assert_eq!(boundary_or_error(Ok("b".to_string())).unwrap(), "b");
    match boundary_or_error(Err("why".to_string())) {
        Err(AppError::MulterError(MulterError::Other(text))) => assert_eq!(text, "why"),
        _ => panic!("no error"),
    }
}

#[test]
fn an_upload_of_one_file() {
    let mut map = ProgressMap::new();
    let (session, action) = step(begin(), field("notes.txt"), &mut map);
    assert_eq!(created_name(&action), "notes.txt");
    assert_eq!(map.get("notes.txt"), Some(0));
    let (session, action) = step(session, UploadEvent::Created, &mut map);
    assert!(matches!(action, UploadAction::ReadChunk));
    let (session, action) = step(session, UploadEvent::Chunk(vec![1, 2, 3]), &mut map);
    match action {
        UploadAction::WriteChunk(bytes) => assert_eq!(bytes, [1, 2, 3]),
        _ => panic!("nothing is written"),
    }
    let (session, action) = step(session, UploadEvent::Written, &mut map);
    assert!(matches!(action, UploadAction::ReadChunk));
    assert_eq!(map.get("notes.txt"), Some(0));
    let (session, action) = step(session, UploadEvent::FieldEnd, &mut map);
    assert!(matches!(action, UploadAction::Flush));
    assert_eq!(session.current_file(), Some(("notes.txt".to_string(), 3)));
    let (session, action) = step(session, UploadEvent::Flushed, &mut map);
    assert_eq!(session.current_file(), None);
    assert!(matches!(action, UploadAction::NextField));
    assert_eq!(map.get("notes.txt"), None);
    let (session, action) = step(session, UploadEvent::FormEnd, &mut map);
    match action {
        UploadAction::Succeed(page) => {
            assert_eq!(page, "<p>上传成功</p><p><a href='/'>返回首页</a></p>")
        },
        _ => panic!("no page"),
    }
    assert!(!session.expects(&UploadEvent::FormEnd));
}

#[test]
fn the_first_chunk_names_a_file_and_is_written_too() {
    let png: Vec<u8> = vec![0x89, 0x50, 0x4e, 0x47, 0x0d, 0x0a, 0x1a, 0x0a];
    let mut map = ProgressMap::new();
    let (session, action) = step(begin(), field("picture"), &mut map);
    assert!(matches!(action, UploadAction::ReadChunk));
    let (session, action) = step(session, UploadEvent::Chunk(png.clone()), &mut map);
    assert_eq!(created_name(&action), "picture.png");
    assert_eq!(map.get("picture.png"), Some(0));
    let (_, action) = step(session, UploadEvent::Created, &mut map);
    match action {
        UploadAction::WriteChunk(bytes) => assert_eq!(bytes, png),
        _ => panic!("nothing is written"),
    }
}

#[test]
fn a_field_without_content_is_an_empty_file() {
    let mut map = ProgressMap::new();
    let (session, _) = step(begin(), field("nothing"), &mut map);
    let (session, action) = step(session, UploadEvent::FieldEnd, &mut map);
    assert_eq!(created_name(&action), "nothing");
    let (session, action) = step(session, UploadEvent::Created, &mut map);
    assert!(matches!(action, UploadAction::ReadChunk));
    let (_, action) = step(session, UploadEvent::FieldEnd, &mut map);
    assert!(matches!(action, UploadAction::Flush));
}

#[test]
fn progress_is_shown_in_steps() {
    let mut map = ProgressMap::new();
    let (session, _) = step(begin(), field("big.bin"), &mut map);
    let (mut session, _) = step(session, UploadEvent::Created, &mut map);
    let sizes: [usize; 4] = [65535, 1, 65535, 70000];
    let shown: [usize; 4] = [0, 65536, 65536, 201071];
    let mut i: usize = 0;
    while i < 4 {
        let (s, _) = step(session, UploadEvent::Chunk(vec![0; sizes[i]]), &mut map);
        let (s, _) = step(s, UploadEvent::Written, &mut map);
        session = s;
        assert_eq!(map.get("big.bin"), Some(shown[i]));
        i = i + 1;
    }
}

#[test]
fn a_failure_ends_an_upload_and_leaves_no_entry() {
    let mut map = ProgressMap::new();
    let (session, _) = step(begin(), field("a.txt"), &mut map);
    assert_eq!(map.get("a.txt"), Some(0));
    let failure = UploadEvent::Failed(AppError::Io("disk full".to_string()));
    let (session, action) = step(session, failure, &mut map);
    match action {
        UploadAction::Fail(AppError::Io(text)) => assert_eq!(text, "disk full"),
        _ => panic!("no failure"),
    }
    assert_eq!(map.get("a.txt"), None);
    assert!(!session.expects(&UploadEvent::Created));
}

#[test]
fn a_file_is_created_in_the_directory_under_a_clean_name() {
    let mut map = ProgressMap::new();
    let (_, action) = step(begin(), field("../up.txt"), &mut map);
    assert_eq!(created_name(&action), "..up.txt");
    assert_eq!(map.get("../up.txt"), Some(0));
    match action {
        UploadAction::CreateFile(path) => {
            assert!(path.starts_with(&FilePath::parse("/srv/files", false)));
            assert_eq!(path.components.len(), 4);
        },
        _ => panic!("no file is created"),
    }
}

#[test]
fn events_out_of_turn_are_not_expected() {
    let session = begin();
    assert!(!session.expects(&UploadEvent::Created));
    assert!(!session.expects(&UploadEvent::Chunk(vec![1])));
    assert!(session.expects(&UploadEvent::FormEnd));
}

#[test]
fn all_that_comes_is_written() {
    let mut map = ProgressMap::new();
    let mut session = begin();
    let mut written: Vec<u8> = Vec::new();
    let mut files: Vec<Vec<u8>> = Vec::new();
    let media_type = MediaType { type_: "image".to_string(), subtype: "jpeg".to_string() };
    let info = FieldInfo { file_name: Some("p".to_string()), content_type: Some(media_type) };
    let events = vec![
        field("x"),
        UploadEvent::Chunk(vec![1, 2]),
        UploadEvent::Created,
        UploadEvent::Written,
        UploadEvent::Chunk(vec![3]),
        UploadEvent::Written,
        UploadEvent::FieldEnd,
        UploadEvent::Flushed,
        UploadEvent::Field { field: info, now_millis: 0 },
        UploadEvent::Created,
        UploadEvent::Chunk(vec![4, 5]),
        UploadEvent::Written,
        UploadEvent::FieldEnd,
        UploadEvent::Flushed,
        UploadEvent::FormEnd,
    ];
    for event in events {
        let (next, action) = step(session, event, &mut map);
        match action {
            UploadAction::CreateFile(_) => files.push(Vec::new()),
            UploadAction::WriteChunk(bytes) => {
                files.last_mut().unwrap().extend(bytes.clone());
                written.extend(bytes);
            },
            _ => {},
        }
        session = next;
    }
    assert_eq!(written, [1, 2, 3, 4, 5]);
    assert_eq!(files, [vec![1, 2, 3], vec![4, 5]]);
    assert_eq!(map.get("x"), None);
    assert_eq!(map.get("p.jpg"), None);
}

#[test]
fn a_meter_counts_and_tells_when_to_show() {
    let mut meter = UploadMeter::new();
    assert_eq!(meter.record(65535), None);
    assert_eq!(meter.record(1), Some(65536));
    assert_eq!(meter.record(65535), None);
    assert_eq!(meter.total, 131071);
    assert_eq!(meter.last_updated, 65536);
}
