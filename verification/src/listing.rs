//! The page that lists the files.

use vstd::prelude::*;
use vstd::relations::{sorted_by, total_ordering};

use crate::size::{format_size, size_text};
use crate::text::{has_part, occurs_at, same_text, to_chars};
use crate::thumbnail::{is_image, is_image_name};

verus! {

/// An entry of the directory of files.
#[derive(Debug)]
pub struct ListedEntry {
    pub name: String,
    pub is_file: bool,
    /// When the file was last changed, in nanoseconds since the epoch, where the
    /// system knows.
    pub modified: Option<i128>,
    pub size: u64,
}

/// A file that the page shows.
pub struct FileView {
    pub modified: i128,
    pub name: Seq<char>,
    pub size: u64,
}

/// The files among the entries, in the order of the directory. A file of which it
/// is not known when it was changed counts as changed at the epoch.
pub open spec fn files_of(entries: Seq<ListedEntry>) -> Seq<FileView>
    decreases entries.len(),
{
    if entries.len() == 0 {
        Seq::empty()
    } else {
        let before = files_of(entries.drop_last());
        let entry = entries.last();
        if entry.is_file {
            before.push(
                FileView {
                    modified: match entry.modified {
                        Some(modified) => modified,
                        None => 0,
                    },
                    name: entry.name@,
                    size: entry.size,
                },
            )
        } else {
            before
        }
    }
}

/// Whether the file at `i` is shown no later than the one at `j`: it was changed
/// later, or at the same time and stands first in the directory.
pub open spec fn shown_first(files: Seq<FileView>, i: usize, j: usize) -> bool {
    ||| files[i as int].modified > files[j as int].modified
    ||| files[i as int].modified == files[j as int].modified && i <= j
}

/// The positions of the files, the file changed last in front.
pub open spec fn display_order(files: Seq<FileView>) -> Seq<usize> {
    Seq::new(files.len(), |i: int| i as usize).sort_by(
        |i: usize, j: usize| shown_first(files, i, j),
    )
}

/// The files, the one changed last in front.
pub open spec fn newest_first(files: Seq<FileView>) -> Seq<FileView> {
    display_order(files).map_values(|i: usize| files[i as int])
}

/// A character as it stands in a page.
pub open spec fn escaped_char(c: char) -> Seq<char> {
    if c == '"' {
        "&quot;"@
    } else if c == '<' {
        "&lt;"@
    } else if c == '>' {
        "&gt;"@
    } else {
        seq![c]
    }
}

/// A file name as it stands in a page.
pub open spec fn escaped(name: Seq<char>) -> Seq<char>
    decreases name.len(),
{
    if name.len() == 0 {
        Seq::empty()
    } else {
        escaped(name.drop_last()) + escaped_char(name.last())
    }
}

/// The thumbnail beside an image, and nothing beside another file.
pub open spec fn thumbnail_html(name: Seq<char>, windows: bool) -> Seq<char> {
    if is_image_name(name, windows) {
        "<img src=\"/thumb/"@ + escaped(name)
            + "\" loading=\"lazy\" width=\"80\" height=\"80\" style=\"object-fit:cover;border-radius:4px;\" onerror=\"setTimeout(()=>this.src='/thumb/"@
            + escaped(name) + "?'+Date.now(), 1000); this.onerror=null;\">"@
    } else {
        Seq::empty()
    }
}

/// The line of one file.
pub open spec fn entry_html(file: FileView, windows: bool) -> Seq<char> {
    "<li>\n            "@ + thumbnail_html(file.name, windows) + "\n            <a href=\"/files/"@ + escaped(
        file.name,
    ) + "\" download>"@ + escaped(file.name) + "</a>\n            <span class=\"file-size\">("@
        + size_text(file.size as nat)
        + ")</span>\n            <button class=\"delete-btn\" data-filename=\""@ + escaped(file.name)
        + "\">🗑️ 删除</button>\n        </li>"@
}

/// The lines of several files.
pub open spec fn entries_html(files: Seq<FileView>, windows: bool) -> Seq<char>
    decreases files.len(),
{
    if files.len() == 0 {
        Seq::empty()
    } else {
        entries_html(files.drop_last(), windows) + entry_html(files.last(), windows)
    }
}

/// The title of the page, by the system that it runs on.
pub open spec fn title_for(os: Seq<char>) -> Seq<char> {
    if os == "windows"@ {
        "Windows 上的文件"@
    } else if os == "macos"@ {
        "Mac 上的文件"@
    } else if os == "android"@ {
        "Android 上的文件"@
    } else if os == "linux"@ {
        "Linux 上的文件"@
    } else {
        "设备上的文件"@
    }
}

/// A file that the page shows.
struct FileEntry {
    modified: i128,
    name: String,
    size: u64,
}

impl View for FileEntry {
    type V = FileView;

    closed spec fn view(&self) -> FileView {
        FileView { modified: self.modified, name: self.name@, size: self.size }
    }
}

spec fn views(files: Seq<FileEntry>) -> Seq<FileView> {
    files.map_values(|f: FileEntry| f@)
}

fn collect_files(entries: &Vec<ListedEntry>) -> (files: Vec<FileEntry>)
    ensures
        views(files@) == files_of(entries@),
{
    let mut files: Vec<FileEntry> = Vec::new();
    let mut i: usize = 0;
    assert(views(files@) == files_of(entries@.take(0)));
    while i < entries.len()
        invariant
            i <= entries@.len(),
            views(files@) == files_of(entries@.take(i as int)),
        decreases entries@.len() - i,
    {
        let entry: &ListedEntry = &entries[i];
        assert(entries@.take(i as int + 1).drop_last() == entries@.take(i as int));
        let ghost before = views(files@);
        if entry.is_file {
            let modified: i128 = match entry.modified {
                Some(modified) => modified,
                None => 0,
            };
            let file = FileEntry { modified, name: entry.name.clone(), size: entry.size };
            let ghost shown = file@;
            files.push(file);
            assert(views(files@) == before.push(shown));
        }
        i = i + 1;
    }
    assert(entries@.take(entries@.len() as int) == entries@);
    files
}

spec fn order_of(files: Seq<FileView>) -> spec_fn(usize, usize) -> bool {
    |i: usize, j: usize| shown_first(files, i, j)
}

proof fn lemma_order_total(files: Seq<FileView>)
    ensures
        total_ordering(order_of(files)),
{
}

fn first_of(files: &Vec<FileEntry>, i: usize, j: usize) -> (first: bool)
    requires
        i < files@.len(),
        j < files@.len(),
    ensures
        first == shown_first(views(files@), i, j),
{
    files[i].modified > files[j].modified || (files[i].modified == files[j].modified && i <= j)
}

/// Merges two lists of positions that are in order.
fn merge(files: &Vec<FileEntry>, a: Vec<usize>, b: Vec<usize>) -> (out: Vec<usize>)
    requires
        forall|i: int| 0 <= i < a@.len() ==> #[trigger] a@[i] < files@.len(),
        forall|i: int| 0 <= i < b@.len() ==> #[trigger] b@[i] < files@.len(),
        sorted_by(a@, order_of(views(files@))),
        sorted_by(b@, order_of(views(files@))),
    ensures
        forall|i: int| 0 <= i < out@.len() ==> #[trigger] out@[i] < files@.len(),
        sorted_by(out@, order_of(views(files@))),
        out@.to_multiset() == a@.to_multiset().add(b@.to_multiset()),
{
    let ghost leq = order_of(views(files@));
    let mut out: Vec<usize> = Vec::new();
    let mut i: usize = 0;
    let mut j: usize = 0;
    proof {
        lemma_order_total(views(files@));
        broadcast use vstd::seq_lib::group_to_multiset_ensures;

        assert(a@.take(0) == Seq::<usize>::empty());
        assert(b@.take(0) == Seq::<usize>::empty());
        assert(out@.to_multiset() == a@.take(0).to_multiset().add(b@.take(0).to_multiset()));
    }
    while i < a.len() || j < b.len()
        invariant
            i <= a@.len(),
            j <= b@.len(),
            leq == order_of(views(files@)),
            total_ordering(leq),
            forall|k: int| 0 <= k < a@.len() ==> #[trigger] a@[k] < files@.len(),
            forall|k: int| 0 <= k < b@.len() ==> #[trigger] b@[k] < files@.len(),
            forall|k: int| 0 <= k < out@.len() ==> #[trigger] out@[k] < files@.len(),
            sorted_by(a@, leq),
            sorted_by(b@, leq),
            sorted_by(out@, leq),
            forall|k: int, l: int| 0 <= k < out@.len() && i <= l < a@.len() ==> leq(out@[k], a@[l]),
            forall|k: int, l: int| 0 <= k < out@.len() && j <= l < b@.len() ==> leq(out@[k], b@[l]),
            out@.to_multiset() == a@.take(i as int).to_multiset().add(
                b@.take(j as int).to_multiset(),
            ),
        decreases a@.len() - i + b@.len() - j,
    {
        broadcast use vstd::seq_lib::group_to_multiset_ensures;

        let ghost before = out@;
        let from_a: bool = j >= b.len() || (i < a.len() && first_of(files, a[i], b[j]));
        if from_a {
            assert(a@.take(i as int + 1) == a@.take(i as int).push(a@[i as int]));
            let ghost x = a@[i as int];
            assert forall|l: int| i < l < a@.len() implies leq(x, a@[l]) by {}
            assert forall|l: int| j <= l < b@.len() implies leq(x, b@[l]) by {
                assert(leq(x, b@[j as int]));
                assert(l == j || leq(b@[j as int], b@[l]));
            }
            out.push(a[i]);
            assert(out@.to_multiset() == a@.take(i as int + 1).to_multiset().add(
                b@.take(j as int).to_multiset(),
            ));
            i = i + 1;
        } else {
            assert(b@.take(j as int + 1) == b@.take(j as int).push(b@[j as int]));
            assert(i < a@.len() ==> leq(b@[j as int], a@[i as int]));
            let ghost x = b@[j as int];
            assert forall|l: int| j < l < b@.len() implies leq(x, b@[l]) by {}
            assert forall|l: int| i <= l < a@.len() implies leq(x, a@[l]) by {
                assert(leq(x, a@[i as int]));
                assert(l == i || leq(a@[i as int], a@[l]));
            }
            out.push(b[j]);
            assert(out@.to_multiset() == a@.take(i as int).to_multiset().add(
                b@.take(j as int + 1).to_multiset(),
            ));
            j = j + 1;
        }
    }
    assert(a@.take(a@.len() as int) == a@);
    assert(b@.take(b@.len() as int) == b@);
    out
}

spec fn positions(from: int, to: int) -> Seq<usize> {
    Seq::new((to - from) as nat, |i: int| (from + i) as usize)
}

/// The positions from `from` up to `to`, in the order in which the files are shown.
fn sort_positions(files: &Vec<FileEntry>, from: usize, to: usize) -> (order: Vec<usize>)
    requires
        from <= to <= files@.len(),
    ensures
        forall|i: int| 0 <= i < order@.len() ==> #[trigger] order@[i] < files@.len(),
        sorted_by(order@, order_of(views(files@))),
        order@.to_multiset() == positions(from as int, to as int).to_multiset(),
    decreases to - from,
{
    if to - from == 0 {
        let order: Vec<usize> = Vec::new();
        assert(order@ == positions(from as int, to as int));
        order
    } else if to - from == 1 {
        let mut order: Vec<usize> = Vec::new();
        order.push(from);
        assert(order@ == positions(from as int, to as int));
        order
    } else {
        let middle: usize = from + (to - from) / 2;
        let a: Vec<usize> = sort_positions(files, from, middle);
        let b: Vec<usize> = sort_positions(files, middle, to);
        proof {
            assert(positions(from as int, to as int) == positions(from as int, middle as int)
                + positions(middle as int, to as int));
            vstd::seq_lib::lemma_multiset_commutative(
                positions(from as int, middle as int),
                positions(middle as int, to as int),
            );
        }
        merge(files, a, b)
    }
}

/// The positions of the files, in the order in which they are shown.
fn sort_files(files: &Vec<FileEntry>) -> (order: Vec<usize>)
    ensures
        order@ == display_order(views(files@)),
        forall|i: int| 0 <= i < order@.len() ==> #[trigger] order@[i] < files@.len(),
{
    let count: usize = files.len();
    let order: Vec<usize> = sort_positions(files, 0, count);
    proof {
        let all = Seq::new(files@.len(), |i: int| i as usize);
        let leq = order_of(views(files@));
        assert(positions(0, files@.len() as int) == all);
        lemma_order_total(views(files@));
        all.lemma_sort_by_ensures(leq);
        vstd::seq_lib::lemma_sorted_unique(order@, all.sort_by(leq), leq);
    }
    order
}

/// A file name as it stands in a page.
pub fn escape_name(name: &str) -> (out: String)
    ensures
        out@ == escaped(name@),
{
    let chars: Vec<char> = to_chars(name);
    let mut out = String::new();
    let mut i: usize = 0;
    while i < chars.len()
        invariant
            i <= chars@.len(),
            out@ == escaped(chars@.take(i as int)),
        decreases chars@.len() - i,
    {
        let c: char = chars[i];
        assert(chars@.take(i as int + 1).drop_last() == chars@.take(i as int));
        if c == '"' {
            out.append("&quot;");
        } else if c == '<' {
            out.append("&lt;");
        } else if c == '>' {
            out.append("&gt;");
        } else {
            out.push(c);
            assert(escaped(chars@.take(i as int)).push(c) == escaped(chars@.take(i as int))
                + seq![c]);
        }
        i = i + 1;
    }
    assert(chars@.take(chars@.len() as int) == chars@);
    out
}

fn render_thumbnail(name: &str, windows: bool) -> (html: String)
    ensures
        html@ == thumbnail_html(name@, windows),
{
    if is_image(name, windows) {
        let safe: String = escape_name(name);
        let mut html: String = "<img src=\"/thumb/".to_owned();
        html.append(safe.as_str());
        html.append(
            "\" loading=\"lazy\" width=\"80\" height=\"80\" style=\"object-fit:cover;border-radius:4px;\" onerror=\"setTimeout(()=>this.src='/thumb/",
        );
        html.append(safe.as_str());
        html.append("?'+Date.now(), 1000); this.onerror=null;\">");
        html
    } else {
        String::new()
    }
}

fn render_entry(file: &FileEntry, windows: bool) -> (html: String)
    ensures
        html@ == entry_html(file@, windows),
{
    let safe: String = escape_name(file.name.as_str());
    let mut html: String = "<li>\n            ".to_owned();
    html.append(render_thumbnail(file.name.as_str(), windows).as_str());
    html.append("\n            <a href=\"/files/");
    html.append(safe.as_str());
    html.append("\" download>");
    html.append(safe.as_str());
    html.append("</a>\n            <span class=\"file-size\">(");
    html.append(format_size(file.size).as_str());
    html.append(")</span>\n            <button class=\"delete-btn\" data-filename=\"");
    html.append(safe.as_str());
    html.append("\">🗑️ 删除</button>\n        </li>");
    html
}

/// The lines of the files among the entries, the one changed last in front.
pub fn render_file_list(entries: &Vec<ListedEntry>, windows: bool) -> (html: String)
    ensures
        html@ == entries_html(newest_first(files_of(entries@)), windows),
{
    let files: Vec<FileEntry> = collect_files(entries);
    let order: Vec<usize> = sort_files(&files);
    let ghost shown = newest_first(views(files@));
    let mut html = String::new();
    let mut i: usize = 0;
    while i < order.len()
        invariant
            i <= order@.len(),
            forall|k: int| 0 <= k < order@.len() ==> #[trigger] order@[k] < files@.len(),
            shown == newest_first(views(files@)),
            order@ == display_order(views(files@)),
            html@ == entries_html(shown.take(i as int), windows),
        decreases order@.len() - i,
    {
        let at: usize = order[i];
        assert(at < files@.len());
        html.append(render_entry(&files[at], windows).as_str());
        assert(shown[i as int] == files@[at as int]@);
        assert(shown.take(i as int + 1).drop_last() == shown.take(i as int));
        i = i + 1;
    }
    assert(shown.take(shown.len() as int) == shown);
    html
}

/// The title of the page, by the system that it runs on.
pub fn device_title(os: &str) -> (title: &'static str)
    ensures
        title@ == title_for(os@),
{
    if same_text(os, "windows") {
        "Windows 上的文件"
    } else if same_text(os, "macos") {
        "Mac 上的文件"
    } else if same_text(os, "android") {
        "Android 上的文件"
    } else if same_text(os, "linux") {
        "Linux 上的文件"
    } else {
        "设备上的文件"
    }
}

/// What the page is filled with.
#[derive(Debug)]
pub struct IndexTemplate {
    pub device_title: String,
    pub file_list: String,
}

/// The page for the directory of files, on a system of that name.
pub fn index(entries: &Vec<ListedEntry>, os: &str) -> (page: IndexTemplate)
    ensures
        page.device_title@ == title_for(os@),
        page.file_list@ == entries_html(newest_first(files_of(entries@)), os@ == "windows"@),
{
    IndexTemplate {
        device_title: device_title(os).to_owned(),
        file_list: render_file_list(entries, same_text(os, "windows")),
    }
}

/// Every file is shown once: the files that are shown are the files that there
/// are, in an order in which no file stands behind one that was changed earlier,
/// and files changed at the same time keep the order of the directory.
pub proof fn lemma_newest_first(files: Seq<FileView>)
    requires
        files.len() <= usize::MAX,
    ensures
        newest_first(files).len() == files.len(),
        display_order(files).no_duplicates(),
        forall|i: int|
            0 <= i < files.len() ==> (#[trigger] display_order(files)[i]) < files.len()
                && newest_first(files)[i] == files[display_order(files)[i] as int],
        forall|i: int, j: int|
            0 <= i < j < files.len() ==> {
                ||| (#[trigger] newest_first(files)[i]).modified > (#[trigger] newest_first(
                    files,
                )[j]).modified
                ||| newest_first(files)[i].modified == newest_first(files)[j].modified
                    && display_order(files)[i] < display_order(files)[j]
            },
{
    let all = Seq::new(files.len(), |i: int| i as usize);
    let leq = order_of(files);
    let order = display_order(files);
    lemma_order_total(files);
    all.lemma_sort_by_ensures(leq);
    assert(order == all.sort_by(leq));
    all.to_multiset_ensures();
    order.to_multiset_ensures();
    assert(order.len() == all.len());
    assert(all.no_duplicates());
    all.lemma_multiset_has_no_duplicates();
    order.lemma_multiset_has_no_duplicates_conv();
    assert forall|i: int| 0 <= i < files.len() implies (#[trigger] order[i]) < files.len() by {
        assert(order.contains(order[i]));
        assert(all.contains(order[i]));
    }
    assert forall|i: int, j: int| 0 <= i < j < files.len() implies {
        ||| (#[trigger] newest_first(files)[i]).modified > (#[trigger] newest_first(files)[j]).modified
        ||| newest_first(files)[i].modified == newest_first(files)[j].modified && order[i] < order[j]
    } by {
        assert(leq(order[i], order[j]));
        assert(order[i] != order[j]);
    }
}

/// A name in a page holds no character that would end what it stands in: neither
/// a quotation mark nor an angle bracket.
pub proof fn lemma_escaped_is_inert(name: Seq<char>)
    ensures
        !escaped(name).contains('"'),
        !escaped(name).contains('<'),
        !escaped(name).contains('>'),
    decreases name.len(),
{
    reveal_strlit("&quot;");
    reveal_strlit("&lt;");
    reveal_strlit("&gt;");
    if name.len() > 0 {
        lemma_escaped_is_inert(name.drop_last());
        let before = escaped(name.drop_last());
        let last = escaped_char(name.last());
        let out = escaped(name);
        assert forall|i: int| 0 <= i < out.len() implies out[i] != '"' && out[i] != '<' && out[i]
            != '>' by {
            if i < before.len() {
                assert(before.contains(before[i]));
                assert(out[i] == before[i]);
            } else {
                assert(out[i] == last[i - before.len()]);
            }
        }
    }
}

/// A name without such characters stands in a page as it is.
pub proof fn lemma_plain_name_not_escaped(name: Seq<char>)
    requires
        !name.contains('"'),
        !name.contains('<'),
        !name.contains('>'),
    ensures
        escaped(name) == name,
    decreases name.len(),
{
    if name.len() > 0 {
        let shorter = name.drop_last();
        assert forall|c: char| shorter.contains(c) implies name.contains(c) by {
            let i = choose|i: int| 0 <= i < shorter.len() && shorter[i] == c;
            assert(name[i] == c);
        }
        assert(name.contains(name.last()));
        lemma_plain_name_not_escaped(shorter);
        assert(shorter + seq![name.last()] == name);
    } else {
        assert(name == Seq::<char>::empty());
    }
}

/// The file of an entry stands among the files where the entry stands among the
/// entries that are files.
proof fn lemma_place_of_entry(entries: Seq<ListedEntry>, i: int)
    requires
        0 <= i < entries.len(),
        entries[i].is_file,
    ensures
        files_of(entries.take(i)).len() < files_of(entries).len() <= entries.len(),
        files_of(entries)[files_of(entries.take(i)).len() as int].name == entries[i].name@,
        files_of(entries)[files_of(entries.take(i)).len() as int].size == entries[i].size,
        files_of(entries)[files_of(entries.take(i)).len() as int].modified
            == match entries[i].modified {
            Some(modified) => modified,
            None => 0,
        },
    decreases entries.len(),
{
    let before = entries.drop_last();
    lemma_files_no_more_than_entries(entries);
    if i < before.len() {
        assert(before.take(i) == entries.take(i));
        lemma_place_of_entry(before, i);
    } else {
        assert(entries.take(i) == before);
    }
}

proof fn lemma_files_no_more_than_entries(entries: Seq<ListedEntry>)
    ensures
        files_of(entries).len() <= entries.len(),
    decreases entries.len(),
{
    if entries.len() > 0 {
        lemma_files_no_more_than_entries(entries.drop_last());
    }
}

proof fn lemma_places_ascend(entries: Seq<ListedEntry>, i: int, j: int)
    requires
        0 <= i < j < entries.len(),
        entries[i].is_file,
    ensures
        files_of(entries.take(i)).len() < files_of(entries.take(j)).len(),
{
    let before = entries.take(j);
    assert(before.take(i) == entries.take(i));
    lemma_place_of_entry(before, i);
}

proof fn lemma_every_position_shown(files: Seq<FileView>, i: int) -> (p: int)
    requires
        files.len() <= usize::MAX,
        0 <= i < files.len(),
    ensures
        0 <= p < files.len(),
        display_order(files)[p] == i,
        newest_first(files)[p] == files[i],
{
    let all = Seq::new(files.len(), |k: int| k as usize);
    let leq = order_of(files);
    let order = display_order(files);
    lemma_newest_first(files);
    lemma_order_total(files);
    all.lemma_sort_by_ensures(leq);
    assert(order == all.sort_by(leq));
    all.to_multiset_ensures();
    order.to_multiset_ensures();
    assert(all[i] == i as usize);
    assert(all.contains(i as usize));
    assert(all.to_multiset().count(i as usize) > 0);
    assert(order.to_multiset().count(i as usize) > 0);
    assert(order.contains(i as usize));
    choose|p: int| 0 <= p < order.len() && order[p] == i as usize
}

/// Of two files among the entries, at any positions, the one whose entry gives the
/// later time of change is shown before the other, and of two changed at the same
/// time the one that stands first in the directory. An entry that gives no time counts
/// as changed at the epoch. Each is shown under the name and with the size of its entry.
/// The result is where they are shown.
pub proof fn lemma_newer_file_shown_first(entries: Seq<ListedEntry>, i: int, j: int) -> (places: (
    int,
    int,
))
    requires
        entries.len() <= usize::MAX,
        0 <= i < entries.len(),
        0 <= j < entries.len(),
        entries[i].is_file,
        entries[j].is_file,
        ({
            let first: int = match entries[i].modified {
                Some(modified) => modified as int,
                None => 0,
            };
            let second: int = match entries[j].modified {
                Some(modified) => modified as int,
                None => 0,
            };
            first > second || (first == second && i < j)
        }),
    ensures
        ({
            let shown = newest_first(files_of(entries));
            &&& 0 <= places.0 < places.1 < shown.len()
            &&& shown[places.0].name == entries[i].name@
            &&& shown[places.0].size == entries[i].size
            &&& shown[places.1].name == entries[j].name@
            &&& shown[places.1].size == entries[j].size
            &&& entries[i].modified matches Some(modified) ==> shown[places.0].modified == modified
            &&& entries[j].modified matches Some(modified) ==> shown[places.1].modified == modified
        }),
{
    let files = files_of(entries);
    let a = files_of(entries.take(i)).len() as int;
    let b = files_of(entries.take(j)).len() as int;
    lemma_place_of_entry(entries, i);
    lemma_place_of_entry(entries, j);
    if i < j {
        lemma_places_ascend(entries, i, j);
    } else if j < i {
        lemma_places_ascend(entries, j, i);
    }
    lemma_newest_first(files);
    let p = lemma_every_position_shown(files, a);
    let q = lemma_every_position_shown(files, b);
    let shown = newest_first(files);
    assert(shown[p] == files[a] && shown[q] == files[b]);
    assert(p < q) by {
        if q < p {
            assert(shown[q].modified > shown[p].modified || (shown[q].modified == shown[p].modified
                && display_order(files)[q] < display_order(files)[p]));
        }
    }
    (p, q)
}

/// Whether one of the entries is a file of that name and size.
pub open spec fn has_file(entries: Seq<ListedEntry>, name: Seq<char>, size: u64) -> bool {
    exists|i: int|
        0 <= i < entries.len() && (#[trigger] entries[i]).is_file && entries[i].name@ == name
            && entries[i].size == size
}

/// The page shows the files among the entries and nothing else: as many lines as there
/// are files, each for an entry that is a file.
pub proof fn lemma_only_files_shown(entries: Seq<ListedEntry>)
    requires
        entries.len() <= usize::MAX,
    ensures
        newest_first(files_of(entries)).len() == entries.filter(|e: ListedEntry| e.is_file).len(),
        forall|p: int|
            0 <= p < newest_first(files_of(entries)).len() ==> has_file(
                entries,
                (#[trigger] newest_first(files_of(entries))[p]).name,
                newest_first(files_of(entries))[p].size,
            ),
{
    let files = files_of(entries);
    lemma_files_no_more_than_entries(entries);
    lemma_newest_first(files);
    lemma_files_are_entries(entries);
}

proof fn lemma_files_are_entries(entries: Seq<ListedEntry>)
    ensures
        files_of(entries).len() == entries.filter(|e: ListedEntry| e.is_file).len(),
        forall|k: int|
            0 <= k < files_of(entries).len() ==> has_file(
                entries,
                (#[trigger] files_of(entries)[k]).name,
                files_of(entries)[k].size,
            ),
    decreases entries.len(),
{
    reveal(Seq::filter);
    if entries.len() > 0 {
        let before = entries.drop_last();
        let files = files_of(entries);
        lemma_files_are_entries(before);
        assert forall|k: int| 0 <= k < files_of(entries).len() implies has_file(
            entries,
            (#[trigger] files_of(entries)[k]).name,
            files_of(entries)[k].size,
        ) by {
            if k < files_of(before).len() {
                let file = files_of(before)[k];
                assert(files[k] == file);
                let i = choose|i: int|
                    0 <= i < before.len() && (#[trigger] before[i]).is_file && before[i].name@
                        == file.name && before[i].size == file.size;
                assert(entries[i] == before[i]);
            } else {
                assert(entries[entries.len() - 1].is_file);
            }
        }
    }
}

/// The page is the lines of the files, one behind the other: where the files are taken
/// in two parts, so is the page, and the page of one file is its line.
pub proof fn lemma_page_is_lines(files: Seq<FileView>, more: Seq<FileView>, windows: bool)
    ensures
        entries_html(files + more, windows) == entries_html(files, windows) + entries_html(
            more,
            windows,
        ),
        forall|file: FileView|
            entries_html(seq![file], windows) == #[trigger] entry_html(file, windows),
        entries_html(Seq::empty(), windows).len() == 0,
    decreases more.len(),
{
    if more.len() > 0 {
        lemma_page_is_lines(files, more.drop_last(), windows);
        assert((files + more).drop_last() == files + more.drop_last());
        assert((files + more).last() == more.last());
    } else {
        assert(files + more == files);
    }
    assert forall|file: FileView| entries_html(seq![file], windows) == #[trigger] entry_html(
        file,
        windows,
    ) by {
        let none = Seq::<FileView>::empty();
        assert(seq![file].drop_last() == none);
        assert(entries_html(none, windows) == Seq::<char>::empty());
        assert(entries_html(seq![file], windows) == Seq::<char>::empty() + entry_html(
            file,
            windows,
        ));
    }
}

/// A name is escaped character by character: a quotation mark and the angle brackets
/// by their entities, and every other character by itself.
pub proof fn lemma_escaped_by_character(a: Seq<char>, b: Seq<char>, c: char)
    ensures
        escaped(a + b) == escaped(a) + escaped(b),
        escaped(seq!['"']) == "&quot;"@,
        escaped(seq!['<']) == "&lt;"@,
        escaped(seq!['>']) == "&gt;"@,
        c != '"' && c != '<' && c != '>' ==> escaped(seq![c]) == seq![c],
    decreases b.len(),
{
    if b.len() > 0 {
        lemma_escaped_by_character(a, b.drop_last(), c);
        assert((a + b).drop_last() == a + b.drop_last());
        assert((a + b).last() == b.last());
    } else {
        assert(a + b == a);
    }
    let none = Seq::<char>::empty();
    assert(escaped(none) == none);
    assert forall|d: char| #[trigger] escaped(seq![d]) == escaped_char(d) by {
        assert(seq![d].drop_last() == none);
    }
}

/// A line links to the file by its name, shows the name and the size, and has a button
/// that deletes the file of that name.
pub proof fn lemma_line_is_of_its_file(file: FileView, windows: bool)
    ensures
        ({
            let html = entry_html(file, windows);
            let name = escaped(file.name);
            &&& "<li>"@.is_prefix_of(html)
            &&& "</li>"@.is_suffix_of(html)
            &&& has_part(html, "<a href=\"/files/"@ + name + "\" download>"@ + name + "</a>"@)
            &&& has_part(html, "<span class=\"file-size\">("@ + size_text(file.size as nat) + ")</span>"@)
            &&& has_part(html, "<button class=\"delete-btn\" data-filename=\""@ + name + "\">"@)
        }),
{
    reveal_strlit("<li>");
    reveal_strlit("</li>");
    reveal_strlit("<li>\n            ");
    reveal_strlit("\n            <a href=\"/files/");
    reveal_strlit("<a href=\"/files/");
    reveal_strlit("\" download>");
    reveal_strlit("</a>");
    reveal_strlit("</a>\n            <span class=\"file-size\">(");
    reveal_strlit("<span class=\"file-size\">(");
    reveal_strlit(")</span>");
    reveal_strlit(")</span>\n            <button class=\"delete-btn\" data-filename=\"");
    reveal_strlit("<button class=\"delete-btn\" data-filename=\"");
    reveal_strlit("\">");
    reveal_strlit("\">🗑️ 删除</button>\n        </li>");
    let html = entry_html(file, windows);
    let name = escaped(file.name);
    let size = size_text(file.size as nat);
    let head = "<li>\n            "@ + thumbnail_html(file.name, windows);
    let open = "\n            <a href=\"/files/"@;
    let span = "</a>\n            <span class=\"file-size\">("@;
    let button = ")</span>\n            <button class=\"delete-btn\" data-filename=\""@;
    let tail = "\">🗑️ 删除</button>\n        </li>"@;
    let link = "<a href=\"/files/"@ + name + "\" download>"@ + name + "</a>"@;
    let shown = "<span class=\"file-size\">("@ + size + ")</span>"@;
    let delete = "<button class=\"delete-btn\" data-filename=\""@ + name + "\">"@;
    assert("<li>"@.is_prefix_of(html));
    assert("</li>"@.is_suffix_of(html));
    let at = head.len() as int + open.len() - 16;
    assert(html.subrange(at, at + link.len()) == link);
    assert(occurs_at(html, link, at));
    let at = head.len() + open.len() + name.len() + 11 + name.len() + span.len() - 25;
    assert(html.subrange(at, at + shown.len()) == shown);
    assert(occurs_at(html, shown, at));
    let at = head.len() + open.len() + name.len() + 11 + name.len() + span.len() + size.len()
        + button.len() - 42;
    assert(html.subrange(at, at + delete.len()) == delete);
    assert(occurs_at(html, delete, at));
}

/// There is a thumbnail beside a file exactly where the file is an image, and it is the
/// one that is asked for by the name of the file, also where it is asked for again because
/// it was not ready. But for the name it is the same beside every image.
pub proof fn lemma_thumbnail_beside_image(name: Seq<char>, other: Seq<char>, windows: bool)
    ensures
        (thumbnail_html(name, windows).len() > 0) == is_image_name(name, windows),
        is_image_name(name, windows) ==> ("<img src=\"/thumb/"@ + escaped(name)
            + "\" loading=\"lazy\" width=\"80\" height=\"80\" "@).is_prefix_of(
            thumbnail_html(name, windows),
        ),
        is_image_name(name, windows) ==> ("setTimeout(()=>this.src='/thumb/"@ + escaped(name)
            + "?'+Date.now(), 1000); this.onerror=null;\">"@).is_suffix_of(
            thumbnail_html(name, windows),
        ),
        is_image_name(name, windows) && is_image_name(other, windows) ==> thumbnail_html(
            name,
            windows,
        ).len() - 2 * escaped(name).len() == thumbnail_html(other, windows).len() - 2 * escaped(
            other,
        ).len(),
{
    reveal_strlit("<img src=\"/thumb/");
    reveal_strlit("\" loading=\"lazy\" width=\"80\" height=\"80\" ");
    reveal_strlit(
        "\" loading=\"lazy\" width=\"80\" height=\"80\" style=\"object-fit:cover;border-radius:4px;\" onerror=\"setTimeout(()=>this.src='/thumb/",
    );
    reveal_strlit("setTimeout(()=>this.src='/thumb/");
    reveal_strlit("?'+Date.now(), 1000); this.onerror=null;\">");
    if is_image_name(name, windows) {
        let html = thumbnail_html(name, windows);
        let start = "<img src=\"/thumb/"@ + escaped(name)
            + "\" loading=\"lazy\" width=\"80\" height=\"80\" "@;
        let end = "setTimeout(()=>this.src='/thumb/"@ + escaped(name)
            + "?'+Date.now(), 1000); this.onerror=null;\">"@;
        assert(html.take(start.len() as int) == start);
        assert(html.skip(html.len() - end.len()) == end);
    }
}

/// Each of the systems that the page knows has a title of its own, and every other
/// system has the one that fits any device. Every title says that it is about files.
pub proof fn lemma_titles(os: Seq<char>)
    ensures
        "上的文件"@.is_suffix_of(title_for(os)),
        os == "windows"@ ==> title_for(os) == "Windows 上的文件"@,
        os == "macos"@ ==> title_for(os) == "Mac 上的文件"@,
        os == "android"@ ==> title_for(os) == "Android 上的文件"@,
        os == "linux"@ ==> title_for(os) == "Linux 上的文件"@,
        os != "windows"@ && os != "macos"@ && os != "android"@ && os != "linux"@ ==> title_for(os)
            == "设备上的文件"@,
{
    reveal_strlit("windows");
    reveal_strlit("macos");
    reveal_strlit("android");
    reveal_strlit("linux");
    reveal_strlit("上的文件");
    reveal_strlit("Windows 上的文件");
    reveal_strlit("Mac 上的文件");
    reveal_strlit("Android 上的文件");
    reveal_strlit("Linux 上的文件");
    reveal_strlit("设备上的文件");
    assert("windows"@[0] != "macos"@[0] && "windows"@[0] != "android"@[0] && "windows"@[0]
        != "linux"@[0]);
    assert("macos"@[0] != "android"@[0] && "macos"@[0] != "linux"@[0]);
    assert("android"@[0] != "linux"@[0]);
    assert("上的文件"@ == "Windows 上的文件"@.skip(8));
    assert("上的文件"@ == "Mac 上的文件"@.skip(4));
    assert("上的文件"@ == "Android 上的文件"@.skip(8));
    assert("上的文件"@ == "Linux 上的文件"@.skip(6));
    assert("上的文件"@ == "设备上的文件"@.skip(2));
}

} // verus!
