use rushdrop::delete::{delete_file, DeleteAction, DeleteEvent, DeleteRequest, RemovalError};
use rushdrop::error::AppError;
use rushdrop::path::{Component, FilePath};
use rushdrop::thumbnail::{thumb_base_name, thumb_path};

fn show(path: &FilePath) -> String {
    let mut out = String::new();
    for component in &path.components {
        match component {
            Component::Prefix(p) => out.push_str(p),
            Component::RootDir => {},
            Component::CurDir => out.push_str("/."),
            Component::ParentDir => out.push_str("/.."),
            Component::Normal(name) => {
                out.push('/');
                out.push_str(name);
            },
        }
    }
    out
}

fn step(request: DeleteRequest, event: DeleteEvent) -> (DeleteRequest, DeleteAction) {
    assert!(request.expects(&event));
    request.step(event)
}

fn begin(filename: &str) -> (DeleteRequest, DeleteAction) {
    delete_file(&FilePath::parse("/srv/files", false), &FilePath::parse("/srv/thumbnails", false), filename, false)
}

fn found(path: &str) -> DeleteEvent {
    DeleteEvent::Canonical(Ok(FilePath::parse(path, false)))
}

#[test]
fn a_file_is_deleted_with_its_thumbnail() {
    let (request, action) = begin("a.png");
    assert!(matches!(&action, DeleteAction::Canonicalize(p) if show(p) == "/srv/files"));
    let (request, action) = step(request, found("/data/files"));
    assert!(matches!(&action, DeleteAction::Canonicalize(p) if show(p) == "/srv/files/a.png"));
    let (request, action) = step(request, found("/data/files/a.png"));
    assert!(matches!(&action, DeleteAction::RemoveFile(p) if show(p) == "/srv/files/a.png"));
    let (request, action) = step(request, DeleteEvent::Removed(Ok(())));
    assert!(matches!(action, DeleteAction::FindDirectoryText));
    let directory = DeleteEvent::DirectoryText("/srv/files".to_string(), Some("/data/files".to_string()));
    let (request, action) = step(request, directory);
    let name = thumb_base_name("/data/files", None, "a.png");
    let expected = thumb_path(&FilePath::parse("/srv/thumbnails", false), &name, false);
    match &action {
        DeleteAction::RemoveThumbnail(path) => assert_eq!(show(path), show(&expected)),
        _ => panic!("the thumbnail stays"),
    }
    let (request, action) = step(request, DeleteEvent::ThumbnailRemoved(false));
    assert!(matches!(action, DeleteAction::Succeed));
    assert!(!request.expects(&DeleteEvent::ThumbnailRemoved(true)));
}

#[test]
fn a_file_outside_is_refused() {
    let (request, _) = begin("../secret");
    let (request, action) = step(request, found("/data/files"));
    assert!(matches!(&action, DeleteAction::Canonicalize(p) if show(p) == "/srv/files/../secret"));
    let (request, action) = step(request, found("/data/secret"));
    match action {
        DeleteAction::Fail(error) => assert_eq!(error.status(), 403),
        _ => panic!("not refused"),
    }
    assert!(!request.expects(&DeleteEvent::Removed(Ok(()))));
}

#[test]
fn a_neighbour_with_a_longer_name_is_outside() {
    let (request, _) = begin("../files2/a");
    let (request, _) = step(request, found("/data/files"));
    let (_, action) = step(request, found("/data/files2/a"));
    assert!(matches!(action, DeleteAction::Fail(AppError::PathTraversal)));
}

#[test]
fn a_directory_that_cannot_be_found_is_an_io_error() {
    let (request, _) = begin("a");
    let (_, action) = step(request, DeleteEvent::Canonical(Err("gone".to_string())));
    match action {
        DeleteAction::Fail(error) => {
            assert_eq!(error.status(), 500);
            assert_eq!(error.message(), "文件 I/O 错误: gone");
        },
        _ => panic!("no error"),
    }
}

#[test]
fn a_file_that_cannot_be_found_is_not_there() {
    let (request, _) = begin("a");
    let (request, _) = step(request, found("/data/files"));
    let (_, action) = step(request, DeleteEvent::Canonical(Err("gone".to_string())));
    match action {
        DeleteAction::Fail(error) => {
            assert_eq!(error.status(), 404);
            assert_eq!(error.message(), "文件不存在: a");
        },
        _ => panic!("no error"),
    }
}

#[test]
fn a_file_that_is_not_removed() {
    let removal = |event: DeleteEvent| {
        let (request, _) = begin("a");
        let (request, _) = step(request, found("/data/files"));
        let (request, _) = step(request, found("/data/files/a"));
        match step(request, event).1 {
            DeleteAction::Fail(error) => error.message(),
            _ => panic!("no error"),
        }
    };
    assert_eq!(removal(DeleteEvent::Removed(Err(RemovalError::Missing))), "文件不存在: a");
    assert_eq!(
        removal(DeleteEvent::Removed(Err(RemovalError::Other("busy".to_string())))),
        "文件 I/O 错误: busy"
    );
}
