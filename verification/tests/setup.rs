use rushdrop::path::{Component, FilePath};
use rushdrop::setup::{
    choose_subdirectory, confirm_use_public_storage, custom_directory, default_files_dir,
    get_files_dir, is_termux, preset_menu, select_preset_or_custom_directory, subdirectories,
    subdirectory_menu, DirectoryEntry, DirectoryReason, SelectedDir, SelectionError, SetupAction,
    SetupEvent, StorageSetup,
};

fn show(path: &FilePath) -> String {
    let mut out = String::new();
    for component in &path.components {
        match component {
            Component::Prefix(p) => out.push_str(p),
            Component::RootDir => {},
            Component::CurDir => out.push_str("/."),
            Component::ParentDir => out.push_str("/.."),
            Component::Normal(name) => {
                out.push('/');
                out.push_str(name);
            },
        }
    }
    out
}

fn home() -> Option<FilePath> {
    Some(FilePath::parse("/home/u", false))
}

fn line(text: &str) -> SetupEvent {
    SetupEvent::Line(text.to_string())
}

fn step(setup: StorageSetup, event: SetupEvent) -> (StorageSetup, SetupAction) {
    assert!(setup.expects(&event));
    setup.step(event)
}

fn entry(name: &str, is_dir: bool) -> DirectoryEntry {
    DirectoryEntry { name: name.to_string(), is_dir }
}

fn at_the_menu() -> StorageSetup {
    let (setup, action) = get_files_dir(true, home(), None, false);
    assert!(matches!(action, SetupAction::AskConsent));
    let (setup, action) = step(setup, line("yes\n"));
    assert!(matches!(&action, SetupAction::CheckExists(p) if show(p) == "/home/u/storage"));
    let (setup, action) = step(setup, SetupEvent::Exists(true));
    assert!(matches!(action, SetupAction::AskDirectory));
    setup
}

fn used(action: SetupAction) -> (String, DirectoryReason) {
    match action {
        SetupAction::UseDirectory(path, reason) => (show(&path), reason),
        _ => panic!("no directory"),
    }
}

#[test]
fn termux_is_told_by_the_environment() {
    assert!(is_termux(true, None));
    assert!(is_termux(false, Some("/data/data/com.termux/files/usr")));
    assert!(!is_termux(false, Some("/usr")));
    assert!(!is_termux(false, Some("com.termu")));
    assert!(!is_termux(false, None));
}

#[test]
fn the_default_directory() {
    let current = FilePath::parse("/work", false);
    let dir = default_files_dir(home().as_ref(), Some(&current));
    assert_eq!(show(&dir), "/home/u/rushdrop_data/files");
    assert_eq!(show(&default_files_dir(None, Some(&current))), "/work/files");
    assert_eq!(show(&default_files_dir(None, None)), "/./files");
}

#[test]
fn two_words_are_a_yes() {
    for yes in ["y", "yes", " yes \r\n", "\ty\n"] {
        assert!(confirm_use_public_storage(yes));
    }
    for no in ["", "n", "ok", "ok\n", "Y", "YES", "yess", "o k"] {
        assert!(!confirm_use_public_storage(no));
    }
}

#[test]
fn the_menu_of_public_directories() {
    assert_eq!(
        preset_menu(),
        "\n请选择保存目录（输入编号）：\n  1. Pictures\n  2. DCIM\n  3. Downloads\n  4. Music\n  5. Movies\n  6. 自定义路径\n"
    );
}

#[test]
fn the_menu_of_subdirectories() {
    let names = vec!["a".to_string(), "b".to_string()];
    assert_eq!(
        subdirectory_menu("/s/dcim", &names),
        "\n检测到 /s/dcim 下有以下子目录：\n  1. a\n  2. b\n  3. 使用根目录\n"
    );
}

#[test]
fn a_number_selects_a_public_directory() {
    let storage = FilePath::parse("/s", false);
    let expected = ["/s/pictures", "/s/dcim", "/s/downloads", "/s/music", "/s/movies"];
    let mut i: usize = 0;
    while i < 5 {
        match select_preset_or_custom_directory(&storage, &format!("{}\n", i + 1)) {
            Ok(SelectedDir::Preset(path)) => assert_eq!(show(&path), expected[i]),
            _ => panic!("not selected"),
        }
        i = i + 1;
    }
    assert!(matches!(
        select_preset_or_custom_directory(&storage, "+6"),
        Ok(SelectedDir::Custom)
    ));
    for bad in ["0", "7", "18446744073709551615"] {
        match select_preset_or_custom_directory(&storage, bad) {
            Err(error) => assert_eq!(error.message(), "无效编号"),
            Ok(_) => panic!("selected"),
        }
    }
    for bad in ["", "x", "1x", "-1", "18446744073709551616", "1 2", "+"] {
        match select_preset_or_custom_directory(&storage, bad) {
            Err(error) => assert_eq!(error.message(), "无效数字"),
            Ok(_) => panic!("selected"),
        }
    }
}

#[test]
fn a_path_that_is_typed() {
    assert_eq!(show(&custom_directory("  /x/y \n", false).unwrap()), "/x/y");
    match custom_directory(" \n", false) {
        Err(error) => assert_eq!(error.message(), "路径为空"),
        Ok(_) => panic!("selected"),
    }
    assert_eq!(SelectionError::Unreadable("eof".to_string()).message(), "eof");
}

#[test]
fn subdirectories_are_chosen_by_number() {
    let entries = vec![entry("a", true), entry("f", false), entry("b", true)];
    let names = subdirectories(&entries);
    assert_eq!(names, ["a", "b"]);
    let dir = FilePath::parse("/s", false);
    assert_eq!(show(&choose_subdirectory(&dir, &names, "2\n", false).unwrap()), "/s/b");
    for other in ["3", "0", "", "x"] {
        assert!(choose_subdirectory(&dir, &names, other, false).is_none());
    }
}

#[test]
fn outside_termux_nothing_is_asked() {
    let (setup, action) = get_files_dir(false, home(), None, false);
    let (path, reason) = used(action);
    assert_eq!(path, "/home/u/rushdrop_data/files");
    assert!(matches!(reason, DirectoryReason::NotTermux));
    assert!(!setup.expects(&line("y")));
}

#[test]
fn without_consent_the_default_is_used() {
    let (setup, _) = get_files_dir(true, home(), None, false);
    let (path, reason) = used(step(setup, line("no")).1);
    assert_eq!(path, "/home/u/rushdrop_data/files");
    assert!(matches!(reason, DirectoryReason::Declined));
}

#[test]
fn without_a_home_the_default_is_used() {
    let (setup, _) = get_files_dir(true, None, Some(FilePath::parse("/work", false)), false);
    let (path, reason) = used(step(setup, line("y")).1);
    assert_eq!(path, "/work/files");
    assert!(matches!(reason, DirectoryReason::NoHome));
}

#[test]
fn without_storage_the_default_is_used() {
    let (setup, _) = get_files_dir(true, home(), None, false);
    let (setup, _) = step(setup, line("y"));
    let (path, reason) = used(step(setup, SetupEvent::Exists(false)).1);
    assert_eq!(path, "/home/u/rushdrop_data/files");
    assert!(matches!(reason, DirectoryReason::NoStorage));
}

#[test]
fn a_selection_that_fails_falls_back_to_the_default() {
    let (path, reason) = used(step(at_the_menu(), line("nine")).1);
    assert_eq!(path, "/home/u/rushdrop_data/files");
    assert!(matches!(reason, DirectoryReason::NotSelected(e) if e.message() == "无效数字"));
    let (_, reason) = used(step(at_the_menu(), line("9")).1);
    assert!(matches!(reason, DirectoryReason::NotSelected(e) if e.message() == "无效编号"));
    let unreadable = SetupEvent::Unreadable("eof".to_string());
    let (_, reason) = used(step(at_the_menu(), unreadable).1);
    assert!(matches!(reason, DirectoryReason::NotSelected(e) if e.message() == "eof"));
    let (setup, action) = step(at_the_menu(), line("6"));
    assert!(matches!(action, SetupAction::AskCustomPath));
    let (_, reason) = used(step(setup, line("  ")).1);
    assert!(matches!(reason, DirectoryReason::NotSelected(e) if e.message() == "路径为空"));
}

#[test]
fn a_public_directory_is_chosen() {
    let (setup, action) = step(at_the_menu(), line("2"));
    assert!(matches!(&action, SetupAction::ListDirectory(p) if show(p) == "/home/u/storage/dcim"));
    let (path, reason) = used(step(setup, SetupEvent::Listing(None)).1);
    assert_eq!(path, "/home/u/storage/dcim");
    assert!(matches!(reason, DirectoryReason::Chosen));
    let (setup, _) = step(at_the_menu(), line("2"));
    let listing = SetupEvent::Listing(Some(vec![entry("f", false)]));
    assert_eq!(used(step(setup, listing).1).0, "/home/u/storage/dcim");
}

#[test]
fn a_directory_in_a_public_directory_is_chosen() {
    let choosing = || {
        let (setup, _) = step(at_the_menu(), line("1"));
        let entries = vec![entry("f", false), entry("Camera", true)];
        let (setup, action) = step(setup, SetupEvent::Listing(Some(entries)));
        match action {
            SetupAction::AskSubdirectory(path, names) => {
                assert_eq!(show(&path), "/home/u/storage/pictures");
                assert_eq!(names, ["Camera"]);
            },
            _ => panic!("not asked"),
        }
        setup
    };
    assert_eq!(used(step(choosing(), line("1")).1).0, "/home/u/storage/pictures/Camera");
    assert_eq!(used(step(choosing(), line("2")).1).0, "/home/u/storage/pictures");
    let (_, action) = step(choosing(), SetupEvent::Unreadable("eof".to_string()));
    assert!(matches!(action, SetupAction::Abort(text) if text == "eof"));
}

#[test]
fn a_typed_directory_is_chosen() {
    let (setup, _) = step(at_the_menu(), line("6"));
    let (setup, action) = step(setup, line(" /mnt/x\n"));
    let (path, reason) = used(action);
    assert_eq!(path, "/mnt/x");
    assert!(matches!(reason, DirectoryReason::Chosen));
    assert!(!setup.expects(&line("1")));
}

#[test]
fn a_question_that_cannot_be_asked_ends_the_setup() {
    let (setup, _) = get_files_dir(true, home(), None, false);
    let (_, action) = step(setup, SetupEvent::Unreadable("eof".to_string()));
    assert!(matches!(action, SetupAction::Abort(text) if text == "eof"));
}

#[test]
fn the_number_beside_a_directory_selects_it() {
    let names: Vec<String> = vec!["x".to_string(), "y".to_string(), "z".to_string()];
    let menu = subdirectory_menu("/s", &names);
    for name in &names {
        let shown = menu.lines().find(|l| l.ends_with(&format!(". {}", name))).unwrap();
        let number = shown.trim().split('.').next().unwrap();
        let chosen = choose_subdirectory(&FilePath::parse("/s", false), &names, number, false).unwrap();
        assert_eq!(show(&chosen), format!("/s/{}", name));
    }
}
