use rushdrop::path::{Component, FilePath};
use rushdrop::text::{
    contains, decimal_text, hexadecimal_text, lower, parse_usize, same_but_for_case, same_text, trim,
};
use std::path::Path;

fn of_std(path: &Path) -> Vec<String> {
    path.components()
        .map(|c| match c {
            std::path::Component::Prefix(p) => format!("prefix {}", p.as_os_str().to_string_lossy()),
            std::path::Component::RootDir => "root".to_string(),
            std::path::Component::CurDir => "here".to_string(),
            std::path::Component::ParentDir => "up".to_string(),
            std::path::Component::Normal(n) => format!("name {}", n.to_string_lossy()),
        })
        .collect()
}

fn of_lib(path: &FilePath) -> Vec<String> {
    path.components
        .iter()
        .map(|c| match c {
            Component::Prefix(p) => format!("prefix {}", p),
            Component::RootDir => "root".to_string(),
            Component::CurDir => "here".to_string(),
            Component::ParentDir => "up".to_string(),
            Component::Normal(n) => format!("name {}", n),
        })
        .collect()
}

const TEXTS: [&str; 24] = [
    "", "/", ".", "..", "a", "a/b", "/a/b/", "a//b", "./a", "a/./b", "a/../b", "/.", "/..", "..a",
    "a.b", ".a", "a.b.c", "a.", "..b.c", "a/.b", "/a/b.tar.gz", "./", "a/.", "名/字.txt",
];

#[test]
fn paths_are_read_as_std_reads_them() {
    for text in TEXTS {
        assert_eq!(of_lib(&FilePath::parse(text, false)), of_std(Path::new(text)));
    }
}

#[test]
fn paths_are_joined_as_std_joins_them() {
    for base in TEXTS {
        for text in TEXTS {
            let joined = FilePath::parse(base, false).join(text, false);
            assert_eq!(of_lib(&joined), of_std(&Path::new(base).join(text)));
        }
    }
}

#[test]
fn parts_of_paths_are_those_of_std() {
    for text in TEXTS {
        let path = FilePath::parse(text, false);
        let expected = Path::new(text);
        assert_eq!(path.parent().map(|p| of_lib(&p)), expected.parent().map(of_std));
        let name = expected.file_name().map(|s| s.to_string_lossy().to_string());
        assert_eq!(path.file_name(), name);
        let extension = expected.extension().map(|s| s.to_string_lossy().to_string());
        assert_eq!(path.extension(), extension);
        let mut renamed = expected.to_path_buf();
        renamed.set_extension("webp");
        assert_eq!(of_lib(&path.with_extension("webp")), of_std(&renamed));
        assert_eq!(of_lib(&path.copy()), of_lib(&path));
        for base in TEXTS {
            let inside = path.starts_with(&FilePath::parse(base, false));
            assert_eq!(inside, expected.starts_with(base));
        }
    }
}

#[test]
fn numerals() {
    for n in [0u128, 7, 10, 255, 65536, u64::MAX as u128, u128::MAX] {
        assert_eq!(decimal_text(n), n.to_string());
        assert_eq!(hexadecimal_text(n), format!("{:x}", n));
    }
}

#[test]
fn numbers_are_read_as_std_reads_them() {
    let max = usize::MAX.to_string();
    let more = format!("{}0", usize::MAX);
    let texts = [
        "", "+", "-", "0", "007", "+12", "-1", "1a", "a", " 1", "1 ", "١", "18446744073709551616",
        &max, &more,
    ];
    for text in texts {
        assert_eq!(parse_usize(text), text.parse::<usize>().ok());
    }
}

#[test]
fn white_space_is_trimmed_as_std_trims_it() {
    for text in ["", " ", "a", " a ", "\t\r\na b\u{3000}\u{a0}", "\u{200b}a", "\u{85}x\u{2028}", "\u{1680}\u{2003}"] {
        assert_eq!(trim(text), text.trim());
    }
}

#[test]
fn letters_and_parts() {
    assert_eq!(lower("aBÇ-Z9"), "abÇ-z9");
    assert!(same_but_for_case("JPG", "jpg"));
    assert!(!same_but_for_case("jpg", "jpeg"));
    assert!(same_text("a", "a"));
    assert!(!same_text("a", "A"));
    for (text, part) in [("abc", "bc"), ("abc", ""), ("", ""), ("ab", "abc"), ("abab", "bb"), ("ab", "ab")] {
        assert_eq!(contains(text, part), text.contains(part));
    }
}

#[test]
fn paths_of_windows() {
    let read = |text: &str| of_lib(&FilePath::parse(text, true)).join(", ");
    assert_eq!(read("C:\\a\\b/c"), "prefix C:, root, name a, name b, name c");
    assert_eq!(read("c:a"), "prefix C:, name a");
    assert_eq!(read("C:.\\a"), "prefix C:, name a");
    assert_eq!(read("\\\\s\\h\\x"), "prefix \\\\s\\h, root, name x");
    assert_eq!(read("//s/h"), "prefix \\\\s\\h, root");
    assert_eq!(read("\\\\s"), "root, name s");
    assert_eq!(read("\\a"), "root, name a");
    assert_eq!(read(".\\a\\..\\b"), "here, name a, up, name b");
    assert_eq!(read("1:\\a"), "name 1:, name a");
    assert_eq!(of_lib(&FilePath::parse("C:\\a", false)), ["name C:\\a"]);
}

#[test]
fn paths_are_joined_on_windows() {
    let join = |base: &str, text: &str| of_lib(&FilePath::parse(base, true).join(text, true)).join(", ");
    assert_eq!(join("C:\\a", "b\\c"), "prefix C:, root, name a, name b, name c");
    assert_eq!(join("C:\\a", "\\b"), "prefix C:, root, name b");
    assert_eq!(join("C:\\a", "D:b"), "prefix D:, name b");
    assert_eq!(join("a", "\\b"), "root, name b");
    assert_eq!(join("C:\\a", ".\\b"), "prefix C:, root, name a, name b");
    assert_eq!(join("C:\\a", "..\\b"), "prefix C:, root, name a, up, name b");
    assert_eq!(join("C:", "b"), "prefix C:, name b");
    assert_eq!(join("C:\\a", ""), "prefix C:, root, name a");
    let base = FilePath {
        components: vec![
            Component::Prefix("\\\\?\\C:".to_string()),
            Component::RootDir,
            Component::Normal("a".to_string()),
        ],
    };
    let joined = of_lib(&base.join("..\\.\\b", true)).join(", ");
    assert_eq!(joined, "prefix \\\\?\\C:, root, name b");
    let joined = of_lib(&base.join("\\b", true)).join(", ");
    assert_eq!(joined, "prefix \\\\?\\C:, root, name b");
    assert_eq!(of_lib(&base.child("x")).len(), 4);
}

#[test]
fn paths_of_windows_are_taken_verbatim() {
    let read = |text: &str| of_lib(&FilePath::parse(text, true)).join(", ");
    assert_eq!(read(r"\\?\UNC\server\share"), r"prefix \\?\UNC\server\share");
    assert_eq!(read(r"\\?\UNC\s\h\a\.\..\b"), r"prefix \\?\UNC\s\h, root, name a, here, up, name b");
    assert_eq!(read(r"\\?\UNC\s"), r"prefix \\?\UNC\s");
    assert_eq!(read(r"\\?\UNC\s\"), r"prefix \\?\UNC\s, root");
    assert_eq!(read(r"\\?\unc\s\h"), r"prefix \\?\unc, root, name s, name h");
    assert_eq!(read(r"\\?\c:\a/b"), r"prefix \\?\C:, root, name a/b");
    assert_eq!(read(r"\\?\c:"), r"prefix \\?\C:");
    assert_eq!(read(r"\\?\pics\a"), r"prefix \\?\pics, root, name a");
    assert_eq!(read(r"\\?\cd:\a"), r"prefix \\?\cd:, root, name a");
    assert_eq!(read(r"\\?\"), r"prefix \\?\");
    assert_eq!(read("//?/c:/a"), "prefix //?/c:, root, name a");
    assert_eq!(read(r"/\?\c:/a"), "prefix //?/c:, root, name a");
    assert_eq!(read(r"\\.\COM1"), r"prefix \\.\COM1, root");
    assert_eq!(read("//./COM1/x"), r"prefix \\.\COM1, root, name x");
    assert_eq!(read(r"\\.\"), r"prefix \\.\, root");
    let share = FilePath::parse(r"\\?\UNC\server\share", true);
    assert!(share.parent().is_none());
    assert!(share.file_name().is_none());
    assert!(FilePath::parse(r"\\?\C:", true).parent().is_none());
    assert_eq!(of_lib(&FilePath::parse(r"\\?\C:", false)), [r"name \\?\C:"]);
}

#[test]
fn volumes_that_are_taken_verbatim_are_joined() {
    let join = |base: &str, text: &str| of_lib(&FilePath::parse(base, true).join(text, true)).join(", ");
    assert_eq!(join(r"\\?\C:", "a"), r"prefix \\?\C:, root, name a");
    assert_eq!(join(r"\\?\C:", ""), r"prefix \\?\C:, root");
    assert_eq!(join(r"\\?\C:", "."), r"prefix \\?\C:");
    assert_eq!(join(r"\\?\C:", r"..\a\..\b"), r"prefix \\?\C:, root, name b");
    assert_eq!(join(r"\\?\C:\x", r"\a"), r"prefix \\?\C:, root, name a");
    assert_eq!(join(r"\\?\UNC\s\h", "a/b"), r"prefix \\?\UNC\s\h, root, name a, name b");
    assert_eq!(join(r"C:\x", r"\\?\D:\a"), r"prefix \\?\D:, root, name a");
    let child = FilePath::parse(r"\\?\C:", true).child("a");
    assert_eq!(of_lib(&child).join(", "), r"prefix \\?\C:, root, name a");
    assert!(child.starts_with(&FilePath::parse(r"\\?\c:", true)));
}
