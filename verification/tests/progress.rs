use rushdrop::progress::{progress_handler, ProgressEntry, ProgressMap, ProgressReply, ProgressStatus};

#[test]
fn an_upload_under_way() {
    let mut map = ProgressMap::new();
    let entry = ProgressEntry::new(&mut map, "a.txt".to_string());
    let reply = progress_handler(&map, "a.txt", true);
    assert_eq!(reply, ProgressReply { progress: 0, status: ProgressStatus::Uploading });
    entry.update(&mut map, 70000);
    let reply = progress_handler(&map, "a.txt", false);
    assert_eq!(reply, ProgressReply { progress: 70000, status: ProgressStatus::Uploading });
    assert_eq!(reply.status.as_str(), "uploading");
    entry.leave(&mut map);
    assert_eq!(map.get("a.txt"), None);
}

#[test]
fn a_file_that_is_there() {
    let map = ProgressMap::new();
    let reply = progress_handler(&map, "a.txt", true);
    assert_eq!(reply, ProgressReply { progress: 100, status: ProgressStatus::Done });
    assert_eq!(reply.status.as_str(), "done");
}

#[test]
fn a_file_that_is_not_there() {
    let map = ProgressMap::new();
    let reply = progress_handler(&map, "a.txt", false);
    assert_eq!(reply, ProgressReply { progress: 0, status: ProgressStatus::Pending });
    assert_eq!(reply.status.as_str(), "pending");
}

#[test]
fn uploads_do_not_touch_each_other() {
    let mut map = ProgressMap::new();
    let a = ProgressEntry::new(&mut map, "a".to_string());
    let b = ProgressEntry::new(&mut map, "b".to_string());
    a.update(&mut map, 5);
    assert_eq!(map.get("a"), Some(5));
    assert_eq!(map.get("b"), Some(0));
    b.leave(&mut map);
    assert_eq!(map.get("a"), Some(5));
    assert_eq!(map.get("b"), None);
}

#[test]
fn what_has_left_is_not_entered_again_by_an_update() {
    let mut map = ProgressMap::new();
    let first = ProgressEntry::new(&mut map, "a".to_string());
    let second = ProgressEntry::new(&mut map, "a".to_string());
    first.leave(&mut map);
    second.update(&mut map, 9);
    assert_eq!(map.get("a"), None);
}

#[test]
fn many_updates_leave_nothing_behind() {
    let mut map = ProgressMap::new();
    ProgressEntry::new(&mut map, "b".to_string());
    ProgressEntry::new(&mut map, "a".to_string()).update(&mut map, 3);
    let entry = ProgressEntry::new(&mut map, "a".to_string());
    for count in [1usize, 5, 9] {
        entry.update(&mut map, count);
        assert_eq!(map.get("a"), Some(count));
    }
    entry.leave(&mut map);
    assert_eq!(map.get("a"), None);
    assert_eq!(map.get("b"), Some(0));
}
