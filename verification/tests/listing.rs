use rushdrop::listing::{device_title, escape_name, index, render_file_list, ListedEntry};

fn entry(name: &str, modified: Option<i128>, size: u64) -> ListedEntry {
    ListedEntry { name: name.to_string(), is_file: true, modified, size }
}

fn names_in(html: &str) -> Vec<String> {
    html.split("data-filename=\"")
        .skip(1)
        .map(|rest| rest.split('"').next().unwrap().to_string())
        .collect()
}

#[test]
fn the_line_of_a_file() {
    let html = render_file_list(&vec![entry("notes.txt", Some(5), 2048)], false);
    assert_eq!(
        html,
        r#"<li>
            
            <a href="/files/notes.txt" download>notes.txt</a>
            <span class="file-size">(2.0 KB)</span>
            <button class="delete-btn" data-filename="notes.txt">🗑️ 删除</button>
        </li>"#
    );
}

#[test]
fn the_line_of_an_image_has_its_thumbnail() {
    let html = render_file_list(&vec![entry("a.PNG", Some(5), 10)], false);
    assert_eq!(
        html,
        r#"<li>
            <img src="/thumb/a.PNG" loading="lazy" width="80" height="80" style="object-fit:cover;border-radius:4px;" onerror="setTimeout(()=>this.src='/thumb/a.PNG?'+Date.now(), 1000); this.onerror=null;">
            <a href="/files/a.PNG" download>a.PNG</a>
            <span class="file-size">(10 B)</span>
            <button class="delete-btn" data-filename="a.PNG">🗑️ 删除</button>
        </li>"#
    );
}

#[test]
fn the_newest_file_comes_first() {
    let entries = vec![
        entry("old", Some(1), 1),
        entry("new", Some(9), 1),
        entry("never", None, 1),
        entry("before", Some(-3), 1),
        entry("middle", Some(5), 1),
    ];
    let html = render_file_list(&entries, false);
    assert_eq!(names_in(&html), ["new", "middle", "old", "never", "before"]);
}

#[test]
fn files_of_one_time_keep_their_order() {
    let entries = vec![
        entry("c", Some(1), 1),
        entry("a", Some(1), 1),
        entry("d", Some(2), 1),
        entry("b", Some(1), 1),
    ];
    assert_eq!(names_in(&render_file_list(&entries, false)), ["d", "c", "a", "b"]);
}

#[test]
fn only_files_are_listed() {
    let mut dir = entry("dir", Some(9), 1);
    dir.is_file = false;
    let entries = vec![dir, entry("file", Some(1), 1)];
    assert_eq!(names_in(&render_file_list(&entries, false)), ["file"]);
    assert_eq!(render_file_list(&vec![], false), "");
}

#[test]
fn names_cannot_end_what_they_stand_in() {
    assert_eq!(escape_name("a\"b<c>d"), "a&quot;b&lt;c&gt;d");
    assert_eq!(escape_name("a&b'c"), "a&b'c");
    assert_eq!(escape_name("名字.txt"), "名字.txt");
    let name = "x\"><script>alert(1)</script>";
    let escaped = escape_name(name);
    assert!(!escaped.contains('"') && !escaped.contains('<') && !escaped.contains('>'));
    let replaced = name.replace('"', "&quot;").replace('<', "&lt;").replace('>', "&gt;");
    assert_eq!(escaped, replaced);
}

#[test]
fn the_title_names_the_system() {
    assert_eq!(device_title("windows"), "Windows 上的文件");
    assert_eq!(device_title("macos"), "Mac 上的文件");
    assert_eq!(device_title("android"), "Android 上的文件");
    assert_eq!(device_title("linux"), "Linux 上的文件");
    assert_eq!(device_title("freebsd"), "设备上的文件");
}

#[test]
fn the_page_is_filled() {
    let entries = vec![entry("b", Some(1), 1), entry("a", Some(2), 1)];
    let page = index(&entries, "linux");
    assert_eq!(page.device_title, "Linux 上的文件");
    assert_eq!(page.file_list, render_file_list(&entries, false));
    assert_eq!(names_in(&page.file_list), ["a", "b"]);
}

#[test]
fn many_files_are_each_listed_once() {
    let mut entries: Vec<ListedEntry> = Vec::new();
    let mut i: i128 = 0;
    while i < 100 {
        entries.push(entry(&format!("f{}", i), Some((i * 37) % 100), 1));
        i = i + 1;
    }
    let names = names_in(&render_file_list(&entries, false));
    assert_eq!(names.len(), 100);
    let mut i: i128 = 0;
    while i < 100 {
        let position: i128 = names.iter().position(|n| *n == format!("f{}", i)).unwrap() as i128;
        assert_eq!(position, 99 - (i * 37) % 100);
        i = i + 1;
    }
}
