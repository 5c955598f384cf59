//! File paths as sequences of components.
//!
//! Two paths are the same where their components are: repeated separators, a
//! separator at the end and a `.` inside a path do not count. Text is read by the
//! rules of the system: on Windows `\` separates too, and a path can begin with a
//! volume, which is a drive, a share or a device. Behind `\\?\` a text is taken
//! verbatim: only `\` separates, and every `.` counts.

use vstd::prelude::*;

use crate::text::{
    ascii_lower, ascii_lowered, ascii_upper, from_chars, same_text, to_chars, upper_char,
};

verus! {

/// One component of a path.
#[derive(Debug)]
pub enum Component {
    /// A volume, on systems that have them.
    Prefix(String),
    /// The root directory.
    RootDir,
    /// The current directory, at the start of a path.
    CurDir,
    /// The directory above.
    ParentDir,
    /// A directory or file of that name.
    Normal(String),
}

/// The mathematical value of a [`Component`].
pub enum ComponentView {
    Prefix(Seq<char>),
    RootDir,
    CurDir,
    ParentDir,
    Normal(Seq<char>),
}

impl View for Component {
    type V = ComponentView;

    open spec fn view(&self) -> ComponentView {
        match self {
            Component::Prefix(s) => ComponentView::Prefix(s@),
            Component::RootDir => ComponentView::RootDir,
            Component::CurDir => ComponentView::CurDir,
            Component::ParentDir => ComponentView::ParentDir,
            Component::Normal(s) => ComponentView::Normal(s@),
        }
    }
}

/// A path: its components, in order.
#[derive(Debug)]
pub struct FilePath {
    pub components: Vec<Component>,
}

impl View for FilePath {
    type V = Seq<ComponentView>;

    open spec fn view(&self) -> Seq<ComponentView> {
        self.components@.map_values(|c: Component| c@)
    }
}

/// Whether the character separates components.
pub open spec fn is_separator(c: char, windows: bool) -> bool {
    c == '/' || (windows && c == '\\')
}

/// What separates the components in a text.
#[derive(Debug, Clone, Copy, PartialEq, Eq, Structural)]
pub enum Separators {
    /// `/` alone.
    Slash,
    /// `/` and `\`.
    Either,
    /// `\` alone.
    Backslash,
}

/// Whether the character separates components by that rule.
pub open spec fn splits(c: char, rule: Separators) -> bool {
    match rule {
        Separators::Slash => c == '/',
        Separators::Either => c == '/' || c == '\\',
        Separators::Backslash => c == '\\',
    }
}

/// Whether a text begins with `\\?\`.
pub open spec fn is_verbatim_text(text: Seq<char>) -> bool {
    text.len() >= 4 && text[0] == '\\' && text[1] == '\\' && text[2] == '?' && text[3] == '\\'
}

/// What separates the components in that text.
pub open spec fn separators_of(text: Seq<char>, windows: bool) -> Separators {
    if !windows {
        Separators::Slash
    } else if is_verbatim_text(text) {
        Separators::Backslash
    } else {
        Separators::Either
    }
}

/// The pieces of `text` between its separators: one more than there are
/// separators.
pub open spec fn segments(text: Seq<char>, rule: Separators) -> Seq<Seq<char>>
    decreases text.len(),
{
    if text.len() == 0 {
        seq![Seq::<char>::empty()]
    } else {
        let before = segments(text.drop_last(), rule);
        if splits(text.last(), rule) {
            before.push(Seq::<char>::empty())
        } else {
            before.drop_last().push(before.last().push(text.last()))
        }
    }
}

/// The component that a segment stands for. An empty segment stands for none, and so
/// does `.` where it does not count.
pub open spec fn segment_component(segment: Seq<char>, counts: bool) -> Option<ComponentView> {
    if segment.len() == 0 {
        None
    } else if segment == seq!['.'] {
        if counts {
            Some(ComponentView::CurDir)
        } else {
            None
        }
    } else if segment == seq!['.', '.'] {
        Some(ComponentView::ParentDir)
    } else {
        Some(ComponentView::Normal(segment))
    }
}

/// The components that a list of segments stands for. A `.` counts at their start if
/// they are `bare`, which is to say that no volume comes before them, and everywhere
/// if they are taken `verbatim`.
pub open spec fn segment_components(parts: Seq<Seq<char>>, bare: bool, verbatim: bool) -> Seq<
    ComponentView,
>
    decreases parts.len(),
{
    if parts.len() == 0 {
        Seq::empty()
    } else {
        let before = segment_components(parts.drop_last(), bare, verbatim);
        match segment_component(parts.last(), verbatim || (bare && parts.len() == 1)) {
            Some(c) => before.push(c),
            None => before,
        }
    }
}

/// Where the piece that begins at `from` ends: at the next separator, or with the
/// text.
pub open spec fn piece_end(text: Seq<char>, from: int, rule: Separators) -> int
    decreases text.len() - from,
{
    if from >= text.len() || splits(text[from], rule) {
        from
    } else {
        piece_end(text, from + 1, rule)
    }
}

/// Whether a text begins with a drive: a letter and a colon.
pub open spec fn begins_with_drive(text: Seq<char>) -> bool {
    &&& text.len() >= 2
    &&& 'A' <= text[0] <= 'Z' || 'a' <= text[0] <= 'z'
    &&& text[1] == ':'
}

/// Whether a text names a share behind `\\?\UNC\`.
pub open spec fn names_share(text: Seq<char>) -> bool {
    &&& is_verbatim_text(text)
    &&& text.len() >= 8
    &&& text[4] == 'U' && text[5] == 'N' && text[6] == 'C' && text[7] == '\\'
}

/// The end of a server and a share, of which the name of the server begins at `from`.
/// The share can be missing.
pub open spec fn share_end(text: Seq<char>, from: int, rule: Separators) -> int {
    let server = piece_end(text, from, rule);
    let share = piece_end(text, server + 1, rule);
    if server + 1 < share <= text.len() {
        share
    } else {
        server
    }
}

/// The length of the volume that a text begins with, on Windows. That is a drive; a
/// share, which is two separators, the name of a server, a separator and a name; a
/// device, which is `\\.\` and a name; or `\\?\` and a name, or `UNC`, a server and a
/// share behind that.
pub open spec fn volume_len(text: Seq<char>, windows: bool) -> int {
    let either = Separators::Either;
    if !windows {
        0
    } else if begins_with_drive(text) {
        2
    } else if names_share(text) {
        share_end(text, 8, Separators::Backslash)
    } else if is_verbatim_text(text) {
        piece_end(text, 4, Separators::Backslash)
    } else if text.len() >= 2 && splits(text[0], either) && splits(text[1], either) {
        let server = piece_end(text, 2, either);
        let end = share_end(text, 2, either);
        if text.len() >= 4 && text[2] == '.' && splits(text[3], either) {
            piece_end(text, 4, either)
        } else if 2 < server < end {
            end
        } else {
            0
        }
    } else {
        0
    }
}

/// A volume in the one form that it has as a component: a drive in upper case, and
/// a share or a device with `\` for separators. A share of a server of the name `?` has
/// `/` instead, since with `\` it would be another volume.
pub open spec fn volume_text(volume: Seq<char>) -> Seq<char> {
    let backward = volume.map_values(|c: char| if c == '/' { '\\' } else { c });
    if volume.len() == 2 {
        seq![ascii_upper(volume[0]), ':']
    } else if !is_verbatim_text(volume) {
        if is_verbatim_text(backward) {
            volume.map_values(|c: char| if c == '\\' { '/' } else { c })
        } else {
            backward
        }
    } else if volume.len() == 6 && begins_with_drive(volume.skip(4)) {
        volume.update(4, ascii_upper(volume[4]))
    } else {
        volume
    }
}

/// The volume and the root that a text begins with. A share or a device is rooted
/// always, but for one behind `\\?\`.
pub open spec fn path_head(text: Seq<char>, windows: bool) -> Seq<ComponentView> {
    let n = volume_len(text, windows);
    let rule = separators_of(text, windows);
    let rooted = (n > 2 && rule != Separators::Backslash) || (n < text.len() && splits(
        text[n],
        rule,
    ));
    let volume = if n > 0 {
        seq![ComponentView::Prefix(volume_text(text.take(n)))]
    } else {
        Seq::empty()
    };
    if rooted {
        volume.push(ComponentView::RootDir)
    } else {
        volume
    }
}

/// The path that `text` writes down.
pub open spec fn path_of(text: Seq<char>, windows: bool) -> Seq<ComponentView> {
    let n = volume_len(text, windows);
    let rule = separators_of(text, windows);
    path_head(text, windows) + segment_components(
        segments(text.skip(n), rule),
        n == 0,
        rule == Separators::Backslash,
    )
}

/// Whether the volume of a path is one behind `\\?\`.
pub open spec fn is_verbatim(path: Seq<ComponentView>) -> bool {
    path.len() > 0 && (path[0] matches ComponentView::Prefix(volume) && is_verbatim_text(volume))
}

/// A path as it is where something follows it: a volume behind `\\?\` gets a root.
pub open spec fn opened(path: Seq<ComponentView>) -> Seq<ComponentView> {
    if is_verbatim(path) && path.len() == 1 {
        path.push(ComponentView::RootDir)
    } else {
        path
    }
}

/// The path of the file or directory of that name directly in a directory.
pub open spec fn child_of(dir: Seq<ComponentView>, name: Seq<char>) -> Seq<ComponentView> {
    opened(dir).push(ComponentView::Normal(name))
}

/// `base` followed by `path`, where `.` and `..` are carried out and not kept.
pub open spec fn walked(base: Seq<ComponentView>, path: Seq<ComponentView>) -> Seq<ComponentView>
    decreases path.len(),
{
    if path.len() == 0 {
        base
    } else {
        let before = walked(base, path.drop_last());
        match path.last() {
            ComponentView::RootDir => before.take(1).push(ComponentView::RootDir),
            ComponentView::CurDir => before,
            ComponentView::ParentDir => if before.len() > 0 && before.last() is Normal {
                before.drop_last()
            } else {
                before
            },
            c => before.push(c),
        }
    }
}

/// `base`, which has a volume behind `\\?\`, followed by `path`, where `.` and `..` are
/// carried out.
pub open spec fn walked_on(base: Seq<ComponentView>, path: Seq<ComponentView>) -> Seq<
    ComponentView,
> {
    let end = walked(base, path);
    if base.len() == 1 && end.len() > 1 && !(end[1] is RootDir) {
        opened(base) + end.skip(1)
    } else {
        end
    }
}

/// `base` followed by the path that `text` writes down. That takes the place of
/// `base` where it has a volume, and of all but the volume of `base` where it starts
/// at the root.
pub open spec fn joined(base: Seq<ComponentView>, text: Seq<char>, windows: bool) -> Seq<
    ComponentView,
> {
    let path = path_of(text, windows);
    if path.len() > 0 && path[0] is Prefix {
        path
    } else if is_verbatim(base) {
        if text.len() == 0 {
            opened(base)
        } else {
            walked_on(base, path)
        }
    } else if path.len() > 0 && path[0] is RootDir {
        if windows && base.len() > 0 && base[0] is Prefix {
            base.take(1) + path
        } else {
            path
        }
    } else if base.len() > 0 && path.len() > 0 && path[0] is CurDir {
        base + path.skip(1)
    } else {
        base + path
    }
}

/// The path without its last component, which must not be a root or a volume.
pub open spec fn parent_of(path: Seq<ComponentView>) -> Option<Seq<ComponentView>> {
    if path.len() == 0 || path.last() is RootDir || path.last() is Prefix {
        None
    } else {
        Some(path.drop_last())
    }
}

/// The name of the file or directory that the path ends in.
pub open spec fn name_of(path: Seq<ComponentView>) -> Option<Seq<char>> {
    if path.len() > 0 {
        match path.last() {
            ComponentView::Normal(name) => Some(name),
            _ => None,
        }
    } else {
        None
    }
}

/// The position of the dot before which a file name has its stem, and after
/// which its extension: the last dot, unless the name begins with it.
pub open spec fn is_extension_dot(name: Seq<char>, at: int) -> bool {
    0 < at < name.len() && name[at] == '.' && forall|i: int|
        at < i < name.len() ==> #[trigger] name[i] != '.'
}

/// What follows the last dot of a file name.
pub open spec fn name_extension(name: Seq<char>) -> Option<Seq<char>> {
    if exists|at: int| is_extension_dot(name, at) {
        Some(name.skip((choose|at: int| is_extension_dot(name, at)) + 1))
    } else {
        None
    }
}

/// A file name without its extension and the dot before that.
pub open spec fn name_stem(name: Seq<char>) -> Seq<char> {
    if exists|at: int| is_extension_dot(name, at) {
        name.take(choose|at: int| is_extension_dot(name, at))
    } else {
        name
    }
}

/// The extension of the file that a path ends in.
pub open spec fn extension_of(path: Seq<ComponentView>) -> Option<Seq<char>> {
    match name_of(path) {
        Some(name) => name_extension(name),
        None => None,
    }
}

/// The path with the extension of its file replaced, or added where it has
/// none. A path that does not end in a name stays as it is.
pub open spec fn with_extension_of(path: Seq<ComponentView>, extension: Seq<char>) -> Seq<
    ComponentView,
>
    recommends
        extension.len() > 0,
{
    match name_of(path) {
        Some(name) => path.drop_last().push(
            ComponentView::Normal(name_stem(name) + seq!['.'] + extension),
        ),
        None => path,
    }
}

/// Whether `path` lies in `base` or is `base` itself: its components begin with
/// those of `base`.
pub open spec fn lies_in(path: Seq<ComponentView>, base: Seq<ComponentView>) -> bool {
    base.len() <= path.len() && path.take(base.len() as int) == base
}

impl Component {
    /// Another component of the same value.
    pub fn copy(&self) -> (c: Component)
        ensures
            c@ == self@,
    {
        match self {
            Component::Prefix(s) => Component::Prefix(s.clone()),
            Component::RootDir => Component::RootDir,
            Component::CurDir => Component::CurDir,
            Component::ParentDir => Component::ParentDir,
            Component::Normal(s) => Component::Normal(s.clone()),
        }
    }

    /// Whether the two components have the same value.
    pub fn same(&self, other: &Component) -> (same: bool)
        ensures
            same == (self@ == other@),
    {
        match (self, other) {
            (Component::Prefix(a), Component::Prefix(b)) => same_text(a.as_str(), b.as_str()),
            (Component::RootDir, Component::RootDir) => true,
            (Component::CurDir, Component::CurDir) => true,
            (Component::ParentDir, Component::ParentDir) => true,
            (Component::Normal(a), Component::Normal(b)) => same_text(a.as_str(), b.as_str()),
            _ => false,
        }
    }
}

/// The position of the dot before the extension of a file name.
fn extension_dot(name: &Vec<char>) -> (dot: Option<usize>)
    ensures
        match dot {
            Some(at) => is_extension_dot(name@, at as int),
            None => !(exists|at: int| is_extension_dot(name@, at)),
        },
{
    let mut i: usize = name.len();
    while i > 1
        invariant
            i <= name@.len(),
            forall|j: int| i <= j < name@.len() ==> #[trigger] name@[j] != '.',
        decreases i,
    {
        i = i - 1;
        if name[i] == '.' {
            return Some(i);
        }
    }
    None
}

/// A file name has one dot before its extension.
pub proof fn lemma_extension_dot_unique(name: Seq<char>, a: int, b: int)
    requires
        is_extension_dot(name, a),
        is_extension_dot(name, b),
    ensures
        a == b,
{
    if a < b {
        assert(name[b] != '.');
    } else if b < a {
        assert(name[a] != '.');
    }
}

/// Whether the character separates components by that rule.
fn separates(c: char, rule: Separators) -> (separator: bool)
    ensures
        separator == splits(c, rule),
{
    match rule {
        Separators::Slash => c == '/',
        Separators::Either => c == '/' || c == '\\',
        Separators::Backslash => c == '\\',
    }
}

/// Whether a text begins with `\\?\`.
fn begins_verbatim(text: &Vec<char>) -> (verbatim: bool)
    ensures
        verbatim == is_verbatim_text(text@),
{
    text.len() >= 4 && text[0] == '\\' && text[1] == '\\' && text[2] == '?' && text[3] == '\\'
}

/// What separates the components in that text.
fn find_separators(text: &Vec<char>, windows: bool) -> (rule: Separators)
    ensures
        rule == separators_of(text@, windows),
{
    if !windows {
        Separators::Slash
    } else if begins_verbatim(text) {
        Separators::Backslash
    } else {
        Separators::Either
    }
}

fn find_piece_end(text: &Vec<char>, from: usize, rule: Separators) -> (end: usize)
    requires
        from <= text@.len(),
    ensures
        end == piece_end(text@, from as int, rule),
        from <= end <= text@.len(),
{
    let mut end: usize = from;
    while end < text.len() && !separates(text[end], rule)
        invariant
            from <= end <= text@.len(),
            piece_end(text@, from as int, rule) == piece_end(text@, end as int, rule),
        decreases text@.len() - end,
    {
        end = end + 1;
    }
    end
}

fn find_share_end(text: &Vec<char>, from: usize, rule: Separators) -> (end: usize)
    requires
        from <= text@.len(),
    ensures
        end == share_end(text@, from as int, rule),
        from <= end <= text@.len(),
{
    let server: usize = find_piece_end(text, from, rule);
    if server == text.len() {
        return server;
    }
    let share: usize = find_piece_end(text, server + 1, rule);
    if server + 1 < share {
        share
    } else {
        server
    }
}

proof fn lemma_piece_end(text: Seq<char>, from: int, rule: Separators)
    requires
        0 <= from,
    ensures
        from <= piece_end(text, from, rule),
        from <= text.len() ==> piece_end(text, from, rule) <= text.len(),
    decreases text.len() - from,
{
    if from < text.len() && !splits(text[from], rule) {
        lemma_piece_end(text, from + 1, rule);
    }
}

proof fn lemma_volume_len(text: Seq<char>, windows: bool)
    ensures
        volume_len(text, windows) == 0 || 2 <= volume_len(text, windows) <= text.len(),
        volume_len(text, windows) != 0 && is_verbatim_text(text) ==> volume_len(text, windows) >= 4,
{
    if text.len() >= 2 {
        lemma_piece_end(text, 2, Separators::Either);
        lemma_piece_end(text, 4, Separators::Either);
        lemma_piece_end(text, 4, Separators::Backslash);
        lemma_piece_end(text, 8, Separators::Backslash);
    }
}

/// The length of the volume that a text begins with.
fn find_volume(text: &Vec<char>, windows: bool) -> (n: usize)
    ensures
        n == volume_len(text@, windows),
        n == 0 || 2 <= n <= text@.len(),
{
    proof {
        lemma_volume_len(text@, windows);
    }
    let either = Separators::Either;
    if !windows || text.len() < 2 {
        return 0;
    }
    let letter: char = text[0];
    if ('A' <= letter && letter <= 'Z' || 'a' <= letter && letter <= 'z') && text[1] == ':' {
        return 2;
    }
    if begins_verbatim(text) {
        if text.len() >= 8 && text[4] == 'U' && text[5] == 'N' && text[6] == 'C' && text[7] == '\\' {
            return find_share_end(text, 8, Separators::Backslash);
        }
        return find_piece_end(text, 4, Separators::Backslash);
    }
    if !separates(letter, either) || !separates(text[1], either) {
        return 0;
    }
    if text.len() >= 4 && text[2] == '.' && separates(text[3], either) {
        return find_piece_end(text, 4, either);
    }
    let server: usize = find_piece_end(text, 2, either);
    let end: usize = find_share_end(text, 2, either);
    if 2 < server && server < end {
        end
    } else {
        0
    }
}

/// A volume in the form that it has as a component.
fn write_volume(text: &Vec<char>, n: usize) -> (volume: String)
    requires
        2 <= n <= text@.len(),
        is_verbatim_text(text@) ==> n >= 4,
    ensures
        volume@ == volume_text(text@.take(n as int)),
{
    let mut out = String::new();
    if n == 2 {
        out.push(upper_char(text[0]));
        out.push(':');
        assert(out@ == volume_text(text@.take(2)));
        return out;
    }
    let ghost given = text@.take(n as int);
    let verbatim: bool = begins_verbatim(text);
    let letter: bool = n == 6 && ('A' <= text[4] && text[4] <= 'Z' || 'a' <= text[4] && text[4]
        <= 'z') && text[5] == ':';
    let either = Separators::Either;
    let forward: bool = !verbatim && n >= 4 && text[2] == '?' && separates(text[0], either)
        && separates(text[1], either) && separates(text[3], either);
    assert(is_verbatim_text(given) == verbatim);
    assert(forward == (!verbatim && is_verbatim_text(
        given.map_values(|c: char| if c == '/' { '\\' } else { c }),
    )));
    assert(letter == (n == 6 && begins_with_drive(given.skip(4))));
    let mut i: usize = 0;
    while i < n
        invariant
            2 < n <= text@.len(),
            i <= n,
            given == text@.take(n as int),
            verbatim == is_verbatim_text(given),
            letter == (n == 6 && begins_with_drive(given.skip(4))),
            forward == (!verbatim && is_verbatim_text(
                given.map_values(|c: char| if c == '/' { '\\' } else { c }),
            )),
            out@ == volume_text(given).take(i as int),
        decreases n - i,
    {
        let c: char = if verbatim && letter && i == 4 {
            upper_char(text[i])
        } else if forward && text[i] == '\\' {
            '/'
        } else if !verbatim && !forward && text[i] == '/' {
            '\\'
        } else {
            text[i]
        };
        out.push(c);
        assert(c == volume_text(given)[i as int]);
        assert(volume_text(given).take(i as int + 1) == volume_text(given).take(i as int).push(
            volume_text(given)[i as int],
        ));
        i = i + 1;
    }
    assert(volume_text(given).take(n as int) == volume_text(given));
    out
}

fn write_head(text: &Vec<char>, n: usize, windows: bool) -> (head: Vec<Component>)
    requires
        n == volume_len(text@, windows),
        n == 0 || 2 <= n <= text@.len(),
    ensures
        head@.map_values(|c: Component| c@) == path_head(text@, windows),
{
    proof {
        lemma_volume_len(text@, windows);
    }
    let rule: Separators = find_separators(text, windows);
    let mut head: Vec<Component> = Vec::new();
    if n > 0 {
        head.push(Component::Prefix(write_volume(text, n)));
    }
    let ghost volume = head@.map_values(|c: Component| c@);
    assert(volume == if n > 0 {
        seq![ComponentView::Prefix(volume_text(text@.take(n as int)))]
    } else {
        Seq::empty()
    });
    if (n > 2 && rule != Separators::Backslash) || (n < text.len() && separates(text[n], rule)) {
        head.push(Component::RootDir);
        assert(head@.map_values(|c: Component| c@) == volume.push(ComponentView::RootDir));
    }
    head
}

impl FilePath {
    /// Reads a path.
    pub fn parse(text: &str, windows: bool) -> (path: FilePath)
        ensures
            path@ == path_of(text@, windows),
    {
        let chars: Vec<char> = to_chars(text);
        let n: usize = find_volume(&chars, windows);
        let rule: Separators = find_separators(&chars, windows);
        let mut components: Vec<Component> = write_head(&chars, n, windows);
        let ghost head = components@.map_values(|c: Component| c@);
        let ghost rest = chars@.skip(n as int);
        let bare: bool = n == 0;
        let verbatim: bool = rule == Separators::Backslash;
        assert(rest.take(0) == Seq::<char>::empty());
        assert(segments(rest.take(0), rule).drop_last() == Seq::<Seq<char>>::empty());
        assert(head + segment_components(Seq::<Seq<char>>::empty(), bare, verbatim) == head);
        let mut start: usize = n;
        let mut i: usize = n;
        let mut first: bool = true;
        while i < chars.len()
            invariant
                n <= start <= i <= chars@.len(),
                rest == chars@.skip(n as int),
                segments(rest.take(i - n), rule).len() > 0,
                first == (segments(rest.take(i - n), rule).len() == 1),
                segments(rest.take(i - n), rule).last() == chars@.subrange(start as int, i as int),
                components@.map_values(|c: Component| c@) == head + segment_components(
                    segments(rest.take(i - n), rule).drop_last(),
                    bare,
                    verbatim,
                ),
            decreases chars@.len() - i,
        {
            let ghost before = segments(rest.take(i - n), rule);
            assert(rest.take(i - n + 1).drop_last() == rest.take(i - n));
            assert(rest.take(i - n + 1).last() == chars@[i as int]);
            let ghost after = segments(rest.take(i - n + 1), rule);
            if separates(chars[i], rule) {
                let counts: bool = verbatim || (bare && first);
                push_segment(&mut components, from_chars(&chars, start, i), counts);
                start = i + 1;
                first = false;
                assert(after.drop_last() == before);
            } else {
                assert(after.drop_last() == before.drop_last());
                assert(chars@.subrange(start as int, i as int + 1) == chars@.subrange(
                    start as int,
                    i as int,
                ).push(chars@[i as int]));
            }
            i = i + 1;
        }
        assert(rest.take(chars@.len() - n) == rest);
        push_segment(
            &mut components,
            from_chars(&chars, start, i),
            verbatim || (bare && first),
        );
        assert(path_of(text@, windows) == head + segment_components(
            segments(rest, rule),
            bare,
            verbatim,
        ));
        FilePath { components }
    }
}

/// Appends the component that a segment stands for.
fn push_segment(components: &mut Vec<Component>, segment: String, counts: bool)
    ensures
        final(components)@.map_values(|c: Component| c@) == match segment_component(
            segment@,
            counts,
        ) {
            Some(c) => old(components)@.map_values(|c: Component| c@).push(c),
            None => old(components)@.map_values(|c: Component| c@),
        },
{
    proof {
        reveal_strlit(".");
        reveal_strlit("..");
        assert("."@ == seq!['.']);
        assert(".."@ == seq!['.', '.']);
    }
    if segment.as_str().is_empty() {
    } else if same_text(segment.as_str(), ".") {
        if counts {
            components.push(Component::CurDir);
        }
    } else if same_text(segment.as_str(), "..") {
        components.push(Component::ParentDir);
    } else {
        components.push(Component::Normal(segment));
    }
}

/// Copies of the components, in order.
fn copy_components(from: &Vec<Component>, count: usize) -> (to: Vec<Component>)
    requires
        count <= from@.len(),
    ensures
        to@.map_values(|c: Component| c@) == from@.map_values(|c: Component| c@).take(count as int),
{
    let mut to: Vec<Component> = Vec::new();
    let mut i: usize = 0;
    while i < count
        invariant
            i <= count <= from@.len(),
            to@.map_values(|c: Component| c@) == from@.map_values(|c: Component| c@).take(i as int),
        decreases count - i,
    {
        to.push(from[i].copy());
        assert(from@.map_values(|c: Component| c@).take(i as int + 1) == from@.map_values(
            |c: Component| c@,
        ).take(i as int).push(from@[i as int]@));
        i = i + 1;
    }
    to
}

impl FilePath {
    /// Another path of the same value.
    pub fn copy(&self) -> (path: FilePath)
        ensures
            path@ == self@,
    {
        FilePath { components: copy_components(&self.components, self.components.len()) }
    }

    /// This path as it is where something follows it.
    fn open(&self) -> (path: FilePath)
        ensures
            path@ == opened(self@),
    {
        let mut path: FilePath = self.copy();
        if self.components.len() == 1 && self.stays_verbatim() {
            path.components.push(Component::RootDir);
            assert(path@ == self@.push(ComponentView::RootDir));
        }
        path
    }

    /// The file or directory of that name directly in this directory.
    pub fn child(&self, name: &str) -> (path: FilePath)
        ensures
            path@ == child_of(self@, name@),
    {
        let mut components: Vec<Component> = self.open().components;
        let ghost before = components@.map_values(|c: Component| c@);
        components.push(Component::Normal(name.to_owned()));
        assert(components@.map_values(|c: Component| c@) == before.push(
            ComponentView::Normal(name@),
        ));
        FilePath { components }
    }

    /// The first components of this path and then those of `tail` from `from` on.
    fn extended(&self, kept: usize, tail: &FilePath, from: usize) -> (path: FilePath)
        requires
            kept <= self.components@.len(),
            from <= tail.components@.len(),
        ensures
            path@ == self@.take(kept as int) + tail@.skip(from as int),
    {
        let mut components: Vec<Component> = copy_components(&self.components, kept);
        let ghost base = self@.take(kept as int);
        let mut i: usize = from;
        assert(base + tail@.subrange(from as int, from as int) == base);
        while i < tail.components.len()
            invariant
                from <= i <= tail.components@.len(),
                components@.map_values(|c: Component| c@) == base + tail@.subrange(
                    from as int,
                    i as int,
                ),
            decreases tail.components@.len() - i,
        {
            let ghost before = components@.map_values(|c: Component| c@);
            components.push(tail.components[i].copy());
            assert(components@.map_values(|c: Component| c@) == before.push(tail@[i as int]));
            assert(tail@.subrange(from as int, i as int + 1) == tail@.subrange(
                from as int,
                i as int,
            ).push(tail@[i as int]));
            i = i + 1;
        }
        assert(tail@.subrange(from as int, tail@.len() as int) == tail@.skip(from as int));
        FilePath { components }
    }

    /// The path after one more component, where `.` and `..` are carried out.
    fn walk_on(self, component: &Component) -> (path: FilePath)
        requires
            self.components@.len() > 0,
        ensures
            path@ == match component@ {
                ComponentView::RootDir => self@.take(1).push(ComponentView::RootDir),
                ComponentView::CurDir => self@,
                ComponentView::ParentDir => if self@.len() > 0 && self@.last() is Normal {
                    self@.drop_last()
                } else {
                    self@
                },
                c => self@.push(c),
            },
    {
        let count: usize = self.components.len();
        assert(self@.take(count as int) == self@);
        match component {
            Component::CurDir => self,
            Component::ParentDir => {
                if count > 0 && matches!(self.components[count - 1], Component::Normal(_)) {
                    assert(self@.take(count - 1) == self@.drop_last());
                    FilePath { components: copy_components(&self.components, count - 1) }
                } else {
                    self
                }
            },
            other => {
                let kept: usize = match other {
                    Component::RootDir => 1,
                    _ => count,
                };
                let mut components: Vec<Component> = copy_components(&self.components, kept);
                let ghost before = components@.map_values(|c: Component| c@);
                components.push(other.copy());
                assert(components@.map_values(|c: Component| c@) == before.push(other@));
                FilePath { components }
            },
        }
    }

    fn walk(&self, tail: &FilePath) -> (path: FilePath)
        requires
            is_verbatim(self@),
        ensures
            path@ == walked(self@, tail@),
    {
        let mut path: FilePath = self.copy();
        let mut i: usize = 0;
        assert(tail@.take(0) == Seq::<ComponentView>::empty());
        while i < tail.components.len()
            invariant
                i <= tail.components@.len(),
                is_verbatim(self@),
                path@ == walked(self@, tail@.take(i as int)),
                path@.len() > 0,
                path@[0] is Prefix,
            decreases tail.components@.len() - i,
        {
            assert(tail@.take(i as int + 1).drop_last() == tail@.take(i as int));
            assert(tail@.take(i as int + 1).last() == tail.components@[i as int]@);
            path = path.walk_on(&tail.components[i]);
            i = i + 1;
        }
        assert(tail@.take(tail@.len() as int) == tail@);
        path
    }

    fn walk_through(&self, tail: &FilePath) -> (path: FilePath)
        requires
            is_verbatim(self@),
        ensures
            path@ == walked_on(self@, tail@),
    {
        let end: FilePath = self.walk(tail);
        let lone: bool = self.components.len() == 1;
        if lone && end.components.len() > 1 && !matches!(end.components[1], Component::RootDir) {
            let base: FilePath = self.open();
            let count: usize = base.components.len();
            assert(base@.take(count as int) == base@);
            base.extended(count, &end, 1)
        } else {
            end
        }
    }

    fn stays_verbatim(&self) -> (verbatim: bool)
        ensures
            verbatim == is_verbatim(self@),
    {
        if self.components.len() == 0 {
            return false;
        }
        assert(self@[0] == self.components@[0]@);
        match &self.components[0] {
            Component::Prefix(volume) => {
                begins_verbatim(&to_chars(volume.as_str()))
            },
            _ => false,
        }
    }

    fn begins_with(&self) -> (first: Option<&Component>)
        ensures
            match first {
                Some(c) => self@.len() > 0 && self@[0] == c@,
                None => self@.len() == 0,
            },
    {
        if self.components.len() == 0 {
            None
        } else {
            Some(&self.components[0])
        }
    }

    /// This path followed by the one that `text` writes down.
    pub fn join(&self, text: &str, windows: bool) -> (path: FilePath)
        ensures
            path@ == joined(self@, text@, windows),
    {
        let tail: FilePath = FilePath::parse(text, windows);
        let count: usize = self.components.len();
        assert(self@.take(count as int) == self@);
        assert(tail@.skip(0) == tail@);
        if let Some(Component::Prefix(_)) = tail.begins_with() {
            return tail;
        }
        if self.stays_verbatim() {
            return if text.is_empty() {
                self.open()
            } else {
                self.walk_through(&tail)
            };
        }
        match tail.begins_with() {
            Some(Component::RootDir) => {
                if windows {
                    if let Some(Component::Prefix(_)) = self.begins_with() {
                        return self.extended(1, &tail, 0);
                    }
                }
                tail
            },
            Some(Component::CurDir) => {
                if count > 0 {
                    self.extended(count, &tail, 1)
                } else {
                    self.extended(count, &tail, 0)
                }
            },
            _ => self.extended(count, &tail, 0),
        }
    }

    /// The path without its last component.
    pub fn parent(&self) -> (path: Option<FilePath>)
        ensures
            match path {
                Some(p) => parent_of(self@) == Some(p@),
                None => parent_of(self@) is None,
            },
    {
        if self.components.len() == 0 {
            return None;
        }
        let last: usize = self.components.len() - 1;
        match &self.components[last] {
            Component::RootDir => None,
            Component::Prefix(_) => None,
            _ => Some(FilePath { components: copy_components(&self.components, last) }),
        }
    }

    /// The name of the file or directory that the path ends in.
    pub fn file_name(&self) -> (name: Option<String>)
        ensures
            match name {
                Some(n) => name_of(self@) == Some(n@),
                None => name_of(self@) is None,
            },
    {
        if self.components.len() == 0 {
            return None;
        }
        match &self.components[self.components.len() - 1] {
            Component::Normal(name) => Some(name.clone()),
            _ => None,
        }
    }

    /// The extension of the file that the path ends in.
    pub fn extension(&self) -> (extension: Option<String>)
        ensures
            match extension {
                Some(e) => extension_of(self@) == Some(e@),
                None => extension_of(self@) is None,
            },
    {
        match self.file_name() {
            Some(name) => {
                let chars: Vec<char> = to_chars(name.as_str());
                let count: usize = chars.len();
                match extension_dot(&chars) {
                    Some(at) => {
                        proof {
                            lemma_extension_dot_unique(
                                name@,
                                at as int,
                                choose|k: int| is_extension_dot(name@, k),
                            );
                        }
                        assert(name@.skip(at + 1) == name@.subrange(at + 1, name@.len() as int));
                        Some(from_chars(&chars, at + 1, count))
                    },
                    None => None,
                }
            },
            None => None,
        }
    }

    /// The path with the extension of its file replaced or added.
    pub fn with_extension(&self, extension: &str) -> (path: FilePath)
        requires
            extension@.len() > 0,
        ensures
            path@ == with_extension_of(self@, extension@),
    {
        match self.file_name() {
            Some(name) => {
                let chars: Vec<char> = to_chars(name.as_str());
                let end: usize = match extension_dot(&chars) {
                    Some(at) => {
                        proof {
                            lemma_extension_dot_unique(
                                name@,
                                at as int,
                                choose|k: int| is_extension_dot(name@, k),
                            );
                        }
                        at
                    },
                    None => chars.len(),
                };
                assert(name@.take(end as int) == name@.subrange(0, end as int));
                assert(name@.take(name@.len() as int) == name@);
                let mut renamed: String = from_chars(&chars, 0, end);
                renamed.push('.');
                renamed.append(extension);
                assert(renamed@ == name_stem(name@) + seq!['.'] + extension@);
                let mut components: Vec<Component> = copy_components(
                    &self.components,
                    self.components.len() - 1,
                );
                components.push(Component::Normal(renamed));
                FilePath { components }
            },
            None => self.copy(),
        }
    }

    /// Whether the path lies in `base` or is `base` itself.
    pub fn starts_with(&self, base: &FilePath) -> (inside: bool)
        ensures
            inside == lies_in(self@, base@),
    {
        if base.components.len() > self.components.len() {
            return false;
        }
        let mut i: usize = 0;
        while i < base.components.len()
            invariant
                i <= base.components@.len() <= self.components@.len(),
                forall|j: int| 0 <= j < i ==> self@[j] == #[trigger] base@[j],
            decreases base.components@.len() - i,
        {
            if !self.components[i].same(&base.components[i]) {
                assert(self@.take(base@.len() as int)[i as int] != base@[i as int]);
                return false;
            }
            i = i + 1;
        }
        assert(self@.take(base@.len() as int) == base@);
        true
    }
}

/// Whether `name` can be the name of a file: it has no separator and no volume, and
/// is neither empty nor one of the two names that directories have for themselves
/// and for the one above.
pub open spec fn is_plain_name(name: Seq<char>, windows: bool) -> bool {
    &&& name.len() > 0
    &&& forall|i: int| 0 <= i < name.len() ==> !is_separator(#[trigger] name[i], windows)
    &&& !(windows && begins_with_drive(name))
    &&& name != seq!['.']
    &&& name != seq!['.', '.']
}

proof fn lemma_single_segment(text: Seq<char>, rule: Separators)
    requires
        forall|i: int| 0 <= i < text.len() ==> !splits(#[trigger] text[i], rule),
    ensures
        segments(text, rule) == seq![text],
    decreases text.len(),
{
    if text.len() > 0 {
        let before = text.drop_last();
        assert forall|i: int| 0 <= i < before.len() implies !splits(#[trigger] before[i], rule) by {
            assert(before[i] == text[i]);
        }
        lemma_single_segment(before, rule);
        assert(!splits(text[text.len() - 1], rule));
        assert(before.push(text.last()) == text);
        assert(segments(text, rule) == seq![text]);
    } else {
        assert(text == Seq::<char>::empty());
    }
}

/// A plain name, read as a path, is that one name.
pub proof fn lemma_plain_name_path(name: Seq<char>, windows: bool)
    requires
        is_plain_name(name, windows),
    ensures
        path_of(name, windows) == seq![ComponentView::Normal(name)],
{
    let rule = separators_of(name, windows);
    assert(!is_separator(name[0], windows));
    assert forall|i: int| 0 <= i < name.len() implies !splits(#[trigger] name[i], rule) by {
        assert(!is_separator(name[i], windows));
    }
    lemma_single_segment(name, rule);
    assert(volume_len(name, windows) == 0);
    assert(name.skip(0) == name);
    let parts = seq![name];
    assert(parts.drop_last() == Seq::<Seq<char>>::empty());
    reveal_with_fuel(segment_components, 2);
    assert(segment_components(parts, true, false) == Seq::<ComponentView>::empty().push(
        ComponentView::Normal(name),
    ));
    assert(path_head(name, windows) == Seq::<ComponentView>::empty());
}

/// Joining a plain name to a directory gives the file of that name directly in
/// that directory, which gets a root where it is a volume behind `\\?\`.
pub proof fn lemma_join_plain_name(base: Seq<ComponentView>, name: Seq<char>, windows: bool)
    requires
        is_plain_name(name, windows),
    ensures
        joined(base, name, windows) == child_of(base, name),
        parent_of(joined(base, name, windows)) == Some(opened(base)),
        name_of(joined(base, name, windows)) == Some(name),
        lies_in(joined(base, name, windows), base),
{
    lemma_plain_name_path(name, windows);
    let path = seq![ComponentView::Normal(name)];
    assert(base + path == base.push(ComponentView::Normal(name)));
    assert(child_of(base, name).drop_last() == opened(base));
    assert(child_of(base, name).take(base.len() as int) == base);
    reveal_with_fuel(walked, 2);
    assert(path.drop_last() == Seq::<ComponentView>::empty());
    let end = base.push(ComponentView::Normal(name));
    if is_verbatim(base) && base.len() == 1 {
        assert(opened(base) + end.skip(1) == child_of(base, name));
    }
}

/// Joining the empty text changes nothing, but that a volume behind `\\?\` gets a root.
pub proof fn lemma_join_nothing(base: Seq<ComponentView>, text: Seq<char>, windows: bool)
    requires
        text.len() == 0,
    ensures
        joined(base, text, windows) == opened(base),
{
    let rest = text.skip(0);
    let parts = segments(rest, separators_of(text, windows));
    assert(parts.drop_last() == Seq::<Seq<char>>::empty());
    reveal_with_fuel(segment_components, 2);
    assert(path_of(text, windows) == Seq::<ComponentView>::empty());
    assert(base + Seq::<ComponentView>::empty() == base);
}

/// A path that gets an extension has it, where the extension holds no dot.
pub proof fn lemma_with_extension(path: Seq<ComponentView>, extension: Seq<char>)
    requires
        name_of(path) matches Some(name) && name.len() > 0,
        !extension.contains('.'),
    ensures
        extension_of(with_extension_of(path, extension)) == Some(extension),
        parent_of(with_extension_of(path, extension)) == parent_of(path),
{
    let name = name_of(path).unwrap();
    let stem = name_stem(name);
    let renamed = stem + seq!['.'] + extension;
    let at = stem.len() as int;
    assert(stem.len() > 0);
    assert(is_extension_dot(renamed, at)) by {
        assert forall|i: int| at < i < renamed.len() implies #[trigger] renamed[i] != '.' by {
            if renamed[i] == '.' {
                assert(extension[i - at - 1] == '.');
                assert(extension.contains('.'));
            }
        }
    }
    lemma_extension_dot_unique(renamed, at, choose|k: int| is_extension_dot(renamed, k));
    assert(renamed.skip(at + 1) == extension);
    assert(with_extension_of(path, extension).drop_last() == path.drop_last());
}

/// Two texts that differ in the case of their letters alone have extensions that do,
/// where both or neither name a share behind `\\?\UNC\`, which must be in upper case.
pub proof fn lemma_extension_whatever_case(text: Seq<char>, other: Seq<char>, windows: bool)
    requires
        ascii_lowered(text) == ascii_lowered(other),
        windows ==> names_share(text) == names_share(other),
    ensures
        match (extension_of(path_of(text, windows)), extension_of(path_of(other, windows))) {
            (Some(a), Some(b)) => ascii_lowered(a) == ascii_lowered(b),
            (None, None) => true,
            _ => false,
        },
{
    lemma_same_shape(text, other);
    lemma_volume_whatever_case(text, other, windows);
    lemma_volume_len(text, windows);
    let n = volume_len(text, windows);
    let rule = separators_of(text, windows);
    let verbatim = rule == Separators::Backslash;
    let a = text.skip(n);
    let b = other.skip(n);
    assert(same_shape(a, b)) by {
        assert forall|i: int| 0 <= i < a.len() implies ascii_lower(#[trigger] a[i]) == ascii_lower(
            b[i],
        ) by {
            assert(ascii_lower(text[i + n]) == ascii_lower(other[i + n]));
        }
    }
    lemma_segments_whatever_case(a, b, rule);
    let parts = segments(a, rule);
    let others = segments(b, rule);
    lemma_last_name_whatever_case(parts, others, n == 0, verbatim);
    let x = segment_components(parts, n == 0, verbatim);
    let y = segment_components(others, n == 0, verbatim);
    let head = path_head(text, windows);
    let other_head = path_head(other, windows);
    assert(path_of(text, windows) == head + x);
    assert(path_of(other, windows) == other_head + y);
    if x.len() == 0 {
        assert(head + x == head);
        assert(other_head + y == other_head);
        assert(name_of(head) is None);
        assert(name_of(other_head) is None);
    } else {
        assert((head + x).last() == x.last());
        assert((other_head + y).last() == y.last());
        if let ComponentView::Normal(m) = x.last() {
            if let ComponentView::Normal(k) = y.last() {
                lemma_name_extension_whatever_case(m, k);
            }
        }
    }
}

spec fn same_shape(a: Seq<char>, b: Seq<char>) -> bool {
    a.len() == b.len() && forall|i: int|
        0 <= i < a.len() ==> ascii_lower(#[trigger] a[i]) == ascii_lower(b[i])
}

proof fn lemma_same_shape(a: Seq<char>, b: Seq<char>)
    requires
        ascii_lowered(a) == ascii_lowered(b),
    ensures
        same_shape(a, b),
{
    assert(a.len() == ascii_lowered(a).len());
    assert(b.len() == ascii_lowered(b).len());
    assert forall|i: int| 0 <= i < a.len() implies ascii_lower(#[trigger] a[i]) == ascii_lower(
        b[i],
    ) by {
        assert(ascii_lowered(a)[i] == ascii_lower(a[i]));
        assert(ascii_lowered(b)[i] == ascii_lower(b[i]));
    }
}

proof fn lemma_piece_end_whatever_case(a: Seq<char>, b: Seq<char>, from: int, rule: Separators)
    requires
        same_shape(a, b),
        0 <= from,
    ensures
        piece_end(a, from, rule) == piece_end(b, from, rule),
    decreases a.len() - from,
{
    if from < a.len() {
        assert(ascii_lower(a[from]) == ascii_lower(b[from]));
        if !splits(a[from], rule) {
            lemma_piece_end_whatever_case(a, b, from + 1, rule);
        }
    }
}

proof fn lemma_share_end_whatever_case(a: Seq<char>, b: Seq<char>, from: int, rule: Separators)
    requires
        same_shape(a, b),
        0 <= from,
    ensures
        share_end(a, from, rule) == share_end(b, from, rule),
{
    lemma_piece_end(a, from, rule);
    lemma_piece_end_whatever_case(a, b, from, rule);
    lemma_piece_end_whatever_case(a, b, piece_end(a, from, rule) + 1, rule);
}

proof fn lemma_volume_whatever_case(a: Seq<char>, b: Seq<char>, windows: bool)
    requires
        same_shape(a, b),
        windows ==> names_share(a) == names_share(b),
    ensures
        separators_of(a, windows) == separators_of(b, windows),
        volume_len(a, windows) == volume_len(b, windows),
        path_head(a, windows).len() == path_head(b, windows).len(),
        !(name_of(path_head(a, windows)) is Some),
        !(name_of(path_head(b, windows)) is Some),
{
    let either = Separators::Either;
    if a.len() >= 2 {
        assert(ascii_lower(a[0]) == ascii_lower(b[0]));
        assert(ascii_lower(a[1]) == ascii_lower(b[1]));
        if a.len() >= 4 {
            assert(ascii_lower(a[2]) == ascii_lower(b[2]));
            assert(ascii_lower(a[3]) == ascii_lower(b[3]));
        }
        lemma_share_end_whatever_case(a, b, 2, either);
        lemma_share_end_whatever_case(a, b, 8, Separators::Backslash);
        lemma_piece_end_whatever_case(a, b, 2, either);
        lemma_piece_end_whatever_case(a, b, 4, either);
        lemma_piece_end_whatever_case(a, b, 4, Separators::Backslash);
    }
    let n = volume_len(a, windows);
    lemma_volume_len(a, windows);
    assert(n == volume_len(b, windows));
    if n < a.len() {
        assert(ascii_lower(a[n]) == ascii_lower(b[n]));
    }
}

spec fn same_shapes(a: Seq<Seq<char>>, b: Seq<Seq<char>>) -> bool {
    a.len() == b.len() && forall|i: int| 0 <= i < a.len() ==> same_shape(#[trigger] a[i], b[i])
}

proof fn lemma_segments_whatever_case(a: Seq<char>, b: Seq<char>, rule: Separators)
    requires
        same_shape(a, b),
    ensures
        segments(a, rule).len() > 0,
        same_shapes(segments(a, rule), segments(b, rule)),
    decreases a.len(),
{
    if a.len() > 0 {
        let c = a.drop_last();
        let d = b.drop_last();
        assert forall|i: int| 0 <= i < c.len() implies ascii_lower(#[trigger] c[i]) == ascii_lower(
            d[i],
        ) by {
            assert(c[i] == a[i]);
        }
        lemma_segments_whatever_case(c, d, rule);
        assert(ascii_lower(a[a.len() - 1]) == ascii_lower(b[b.len() - 1]));
        let before = segments(c, rule);
        let other = segments(d, rule);
        assert(same_shape(before.last(), other.last())) by {
            assert(same_shape(before[before.len() - 1], other[before.len() - 1]));
        }
        let x = segments(a, rule);
        let y = segments(b, rule);
        assert forall|i: int| 0 <= i < x.len() implies same_shape(#[trigger] x[i], y[i]) by {
            if i < before.len() - 1 {
                assert(same_shape(before[i], other[i]));
            } else if splits(a.last(), rule) {
                if i == before.len() - 1 {
                    assert(x[i] == before.last());
                }
            } else {
                assert(x[i] == before.last().push(a.last()));
                assert(y[i] == other.last().push(b.last()));
            }
        }
    }
}

proof fn lemma_last_name_whatever_case(
    parts: Seq<Seq<char>>,
    others: Seq<Seq<char>>,
    bare: bool,
    verbatim: bool,
)
    requires
        same_shapes(parts, others),
    ensures
        segment_components(parts, bare, verbatim).len() == segment_components(others, bare, verbatim).len(),
        segment_components(parts, bare, verbatim).len() > 0 ==> match (
            segment_components(parts, bare, verbatim).last(),
            segment_components(others, bare, verbatim).last(),
        ) {
            (ComponentView::Normal(a), ComponentView::Normal(b)) => same_shape(a, b),
            (ComponentView::Normal(_), _) => false,
            (_, ComponentView::Normal(_)) => false,
            _ => true,
        },
    decreases parts.len(),
{
    if parts.len() > 0 {
        let before = parts.drop_last();
        let other = others.drop_last();
        assert forall|i: int| 0 <= i < before.len() implies same_shape(
            #[trigger] before[i],
            other[i],
        ) by {
            assert(same_shape(parts[i], others[i]));
        }
        lemma_last_name_whatever_case(before, other, bare, verbatim);
        let a = parts.last();
        let b = others.last();
        assert(same_shape(parts[parts.len() - 1], others[parts.len() - 1]));
        assert((a == seq!['.']) == (b == seq!['.'])) by {
            if a.len() == 1 {
                assert(ascii_lower(a[0]) == ascii_lower(b[0]));
                if a[0] == '.' {
                    assert(a =~= seq!['.']);
                    assert(b =~= seq!['.']);
                }
            }
        }
        assert((a == seq!['.', '.']) == (b == seq!['.', '.'])) by {
            if a.len() == 2 {
                assert(ascii_lower(a[0]) == ascii_lower(b[0]));
                assert(ascii_lower(a[1]) == ascii_lower(b[1]));
                if a[0] == '.' && a[1] == '.' {
                    assert(a =~= seq!['.', '.']);
                    assert(b =~= seq!['.', '.']);
                }
            }
        }
    }
}

proof fn lemma_name_extension_whatever_case(name: Seq<char>, other: Seq<char>)
    requires
        same_shape(name, other),
    ensures
        match (name_extension(name), name_extension(other)) {
            (Some(a), Some(b)) => ascii_lowered(a) == ascii_lowered(b),
            (None, None) => true,
            _ => false,
        },
{
    assert forall|i: int| 0 <= i < name.len() implies (#[trigger] name[i] == '.') == (other[i]
        == '.') by {
        assert(ascii_lower(name[i]) == ascii_lower(other[i]));
    }
    assert forall|at: int| #[trigger] is_extension_dot(name, at) == is_extension_dot(other, at) by {
        if is_extension_dot(name, at) {
            assert forall|i: int| at < i < other.len() implies #[trigger] other[i] != '.' by {
                assert(name[i] != '.');
            }
        }
        if is_extension_dot(other, at) {
            assert(name[at] == '.');
        }
    }
    if exists|at: int| is_extension_dot(name, at) {
        let a = choose|at: int| is_extension_dot(name, at);
        assert(is_extension_dot(other, a));
        let b = choose|at: int| is_extension_dot(other, at);
        lemma_extension_dot_unique(other, a, b);
        let e1 = name.skip(a + 1);
        let e2 = other.skip(a + 1);
        assert forall|i: int| 0 <= i < e1.len() implies ascii_lowered(e1)[i] == ascii_lowered(
            e2,
        )[i] by {
            assert(ascii_lower(name[i + a + 1]) == ascii_lower(other[i + a + 1]));
        }
        assert(ascii_lowered(e1) == ascii_lowered(e2));
    } else if exists|at: int| is_extension_dot(other, at) {
        let b = choose|at: int| is_extension_dot(other, at);
        assert(is_extension_dot(name, b));
    }
}

/// What follows the last dot of a file name is its extension, and what comes before
/// that dot its stem, where the stem is not empty. That holds in whatever directory the
/// file is.
pub proof fn lemma_extension_follows_dot(
    dir: Seq<ComponentView>,
    stem: Seq<char>,
    extension: Seq<char>,
)
    requires
        stem.len() > 0,
        !extension.contains('.'),
    ensures
        name_extension(stem + seq!['.'] + extension) == Some(extension),
        name_stem(stem + seq!['.'] + extension) == stem,
        extension_of(dir.push(ComponentView::Normal(stem + seq!['.'] + extension))) == Some(
            extension,
        ),
{
    let name = stem + seq!['.'] + extension;
    let at = stem.len() as int;
    assert(is_extension_dot(name, at)) by {
        assert forall|i: int| at < i < name.len() implies #[trigger] name[i] != '.' by {
            if name[i] == '.' {
                assert(extension[i - at - 1] == '.');
                assert(extension.contains('.'));
            }
        }
    }
    lemma_extension_dot_unique(name, at, choose|k: int| is_extension_dot(name, k));
    assert(name.skip(at + 1) == extension);
    assert(name.take(at) == stem);
    let path = dir.push(ComponentView::Normal(name));
    assert(path.last() == ComponentView::Normal(name));
}

/// A file name without a dot has no extension, and neither has one whose only dot it
/// begins with. Nor has a path that does not end in a name.
pub proof fn lemma_no_dot_no_extension(path: Seq<ComponentView>, name: Seq<char>)
    requires
        forall|i: int| 0 < i < name.len() ==> #[trigger] name[i] != '.',
    ensures
        name_extension(name) is None,
        name_stem(name) == name,
        extension_of(path.push(ComponentView::Normal(name))) is None,
        path.len() == 0 || !(path.last() is Normal) ==> extension_of(path) is None,
{
    assert forall|at: int| !is_extension_dot(name, at) by {}
    assert(path.push(ComponentView::Normal(name)).last() == ComponentView::Normal(name));
}

/// A path lies in a directory exactly where it is the directory followed by something
/// or nothing.
pub proof fn lemma_lies_in(path: Seq<ComponentView>, base: Seq<ComponentView>)
    ensures
        forall|rest: Seq<ComponentView>| #[trigger] lies_in(base + rest, base),
        lies_in(path, base) ==> path == base + path.skip(base.len() as int),
        lies_in(path, base) && lies_in(base, path) ==> path == base,
{
    assert forall|rest: Seq<ComponentView>| #[trigger] lies_in(base + rest, base) by {
        assert((base + rest).take(base.len() as int) == base);
    }
    if lies_in(path, base) {
        assert(path == path.take(base.len() as int) + path.skip(base.len() as int));
        if lies_in(base, path) {
            assert(path.take(path.len() as int) == path);
        }
    }
}

proof fn lemma_segments_split(text: Seq<char>, separator: char, more: Seq<char>, rule: Separators)
    requires
        splits(separator, rule),
    ensures
        segments(text, rule).len() > 0,
        segments(text.push(separator) + more, rule) == segments(text, rule) + segments(more, rule),
    decreases more.len(),
{
    lemma_segments_exist(text, rule);
    let whole = text.push(separator) + more;
    if more.len() == 0 {
        assert(whole == text.push(separator));
        assert(whole.drop_last() == text);
        assert(segments(more, rule) == seq![Seq::<char>::empty()]);
        assert(segments(whole, rule) == segments(text, rule).push(Seq::<char>::empty()));
    } else {
        let shorter = more.drop_last();
        lemma_segments_split(text, separator, shorter, rule);
        lemma_segments_exist(shorter, rule);
        assert(whole.drop_last() == text.push(separator) + shorter);
        assert(whole.last() == more.last());
        let a = segments(text, rule);
        let b = segments(shorter, rule);
        assert((a + b).last() == b.last());
        assert((a + b).drop_last() == a + b.drop_last());
    }
}

proof fn lemma_segments_exist(text: Seq<char>, rule: Separators)
    ensures
        segments(text, rule).len() > 0,
    decreases text.len(),
{
    if text.len() > 0 {
        lemma_segments_exist(text.drop_last(), rule);
    }
}

proof fn lemma_components_split(
    parts: Seq<Seq<char>>,
    others: Seq<Seq<char>>,
    bare: bool,
    verbatim: bool,
)
    requires
        parts.len() > 0,
    ensures
        segment_components(parts + others, bare, verbatim) == segment_components(
            parts,
            bare,
            verbatim,
        ) + segment_components(others, false, verbatim),
    decreases others.len(),
{
    if others.len() == 0 {
        assert(parts + others == parts);
    } else {
        lemma_components_split(parts, others.drop_last(), bare, verbatim);
        assert((parts + others).drop_last() == parts + others.drop_last());
        assert((parts + others).last() == others.last());
    }
}

proof fn lemma_components_bare(parts: Seq<Seq<char>>)
    requires
        parts.len() > 0,
    ensures
        segment_components(parts, true, false) == (if parts[0] == seq!['.'] {
            seq![ComponentView::CurDir]
        } else {
            Seq::empty()
        }) + segment_components(parts, false, false),
    decreases parts.len(),
{
    let first = if parts[0] == seq!['.'] {
        seq![ComponentView::CurDir]
    } else {
        Seq::empty()
    };
    if parts.len() == 1 {
        let none = Seq::<Seq<char>>::empty();
        assert(parts.drop_last() == none);
        assert(segment_components(none, true, false) == Seq::<ComponentView>::empty());
        assert(segment_components(none, false, false) == Seq::<ComponentView>::empty());
    } else {
        let before = parts.drop_last();
        lemma_components_bare(before);
        assert(before[0] == parts[0]);
        let rest = segment_components(before, false, false);
        match segment_component(parts.last(), false) {
            Some(c) => {
                assert((first + rest).push(c) == first + rest.push(c));
            },
            None => {},
        }
    }
}

/// What a piece of a path between two separators stands for, inside the path.
spec fn piece_components(piece: Seq<char>) -> Seq<ComponentView> {
    if piece.len() == 0 || piece == seq!['.'] {
        Seq::empty()
    } else if piece == seq!['.', '.'] {
        seq![ComponentView::ParentDir]
    } else {
        seq![ComponentView::Normal(piece)]
    }
}

proof fn lemma_one_piece(piece: Seq<char>)
    ensures
        segment_components(seq![piece], false, false) == piece_components(piece),
{
    let none = Seq::<Seq<char>>::empty();
    assert(seq![piece].drop_last() == none);
    assert(segment_components(none, false, false) == Seq::<ComponentView>::empty());
    reveal_with_fuel(segment_components, 2);
}

proof fn lemma_slash_path(text: Seq<char>)
    ensures
        path_of(text, false) == (if text.len() > 0 && text[0] == '/' {
            seq![ComponentView::RootDir]
        } else {
            Seq::empty()
        }) + segment_components(segments(text, Separators::Slash), true, false),
{
    assert(text.skip(0) == text);
    let none = Seq::<ComponentView>::empty();
    assert(none.push(ComponentView::RootDir) == seq![ComponentView::RootDir]);
}

/// A path is read piece by piece: where a piece without a separator follows a text
/// behind `/`, an empty piece and `.` add nothing to the path, `..` adds the
/// directory above, and everything else adds its name.
pub proof fn lemma_path_goes_on(text: Seq<char>, piece: Seq<char>)
    requires
        text.len() > 0,
        !piece.contains('/'),
    ensures
        ({
            let before = path_of(text, false);
            let path = path_of(text.push('/') + piece, false);
            &&& piece.len() == 0 || piece == seq!['.'] ==> path == before
            &&& piece == seq!['.', '.'] ==> path == before.push(ComponentView::ParentDir)
            &&& piece.len() > 0 && piece != seq!['.'] && piece != seq!['.', '.'] ==> path
                == before.push(ComponentView::Normal(piece))
        }),
{
    let rule = Separators::Slash;
    let whole = text.push('/') + piece;
    assert forall|i: int| 0 <= i < piece.len() implies !splits(#[trigger] piece[i], rule) by {
        assert(piece.contains(piece[i]));
    }
    lemma_single_segment(piece, rule);
    lemma_segments_split(text, '/', piece, rule);
    lemma_components_split(segments(text, rule), seq![piece], true, false);
    lemma_one_piece(piece);
    lemma_slash_path(text);
    lemma_slash_path(whole);
    assert(whole[0] == text[0]);
    let before = path_of(text, false);
    let head = if text[0] == '/' {
        seq![ComponentView::RootDir]
    } else {
        Seq::empty()
    };
    let parts = segment_components(segments(text, rule), true, false);
    assert(path_of(whole, false) == head + (parts + piece_components(piece)));
    assert(head + (parts + piece_components(piece)) == before + piece_components(piece));
    assert(piece != seq!['.'] || piece != seq!['.', '.']) by {
        assert(seq!['.'].len() != seq!['.', '.'].len());
    }
}

/// A path begins at the root where its text begins with `/`, at the directory above
/// where it is `..`, at the current directory where it is `.`, and with a name
/// otherwise. The empty text is the empty path.
pub proof fn lemma_path_begins(piece: Seq<char>)
    requires
        !piece.contains('/'),
    ensures
        piece.len() == 0 ==> path_of(piece, false).len() == 0,
        piece == seq!['.'] ==> path_of(piece, false) == seq![ComponentView::CurDir],
        piece == seq!['.', '.'] ==> path_of(piece, false) == seq![ComponentView::ParentDir],
        piece.len() > 0 && piece != seq!['.'] && piece != seq!['.', '.'] ==> path_of(piece, false)
            == seq![ComponentView::Normal(piece)],
        path_of(seq!['/'], false) == seq![ComponentView::RootDir],
        piece.len() > 0 && piece != seq!['.'] && piece != seq!['.', '.'] ==> path_of(
            seq!['/'] + piece,
            false,
        ) == seq![ComponentView::RootDir, ComponentView::Normal(piece)],
{
    let rule = Separators::Slash;
    let none = Seq::<char>::empty();
    assert forall|i: int| 0 <= i < piece.len() implies !splits(#[trigger] piece[i], rule) by {
        assert(piece.contains(piece[i]));
    }
    lemma_single_segment(piece, rule);
    lemma_slash_path(piece);
    lemma_components_bare(seq![piece]);
    lemma_one_piece(piece);
    assert(seq!['.'].len() != seq!['.', '.'].len());
    if piece.len() > 0 {
        assert(piece.contains(piece[0]));
    }
    let rooted = none.push('/') + piece;
    assert(rooted == seq!['/'] + piece);
    lemma_segments_split(none, '/', piece, rule);
    lemma_slash_path(rooted);
    lemma_single_segment(none, rule);
    lemma_components_split(seq![none], seq![piece], true, false);
    lemma_components_bare(seq![none]);
    lemma_one_piece(none);
    assert(none != seq!['.']) by {
        assert(seq!['.'].len() == 1);
    }
    assert(segment_components(seq![none], true, false) == Seq::<ComponentView>::empty());
    assert(path_of(rooted, false) == seq![ComponentView::RootDir] + piece_components(piece));
    let slash = none.push('/') + none;
    assert(slash == seq!['/']);
    lemma_segments_split(none, '/', none, rule);
    lemma_slash_path(slash);
    lemma_components_split(seq![none], seq![none], true, false);
    assert(path_of(slash, false) == seq![ComponentView::RootDir]);
}

/// Joining two paths gives the path that is written with `/` between them, and one that
/// starts at the root takes the place of the other.
pub proof fn lemma_join_is_written(text: Seq<char>, more: Seq<char>)
    requires
        text.len() > 0,
    ensures
        more.len() > 0 && more[0] == '/' ==> joined(path_of(text, false), more, false) == path_of(
            more,
            false,
        ),
        more.len() == 0 || more[0] != '/' ==> joined(path_of(text, false), more, false) == path_of(
            text.push('/') + more,
            false,
        ),
{
    let rule = Separators::Slash;
    let base = path_of(text, false);
    let path = path_of(more, false);
    let whole = text.push('/') + more;
    let parts = segments(text, rule);
    let others = segments(more, rule);
    lemma_slash_path(text);
    lemma_slash_path(more);
    lemma_slash_path(whole);
    lemma_segments_split(text, '/', more, rule);
    lemma_segments_exist(more, rule);
    lemma_components_split(parts, others, true, false);
    lemma_components_bare(others);
    lemma_components_plain(parts, true, false);
    lemma_components_plain(others, false, false);
    lemma_path_not_empty(text);
    let head = if text[0] == '/' {
        seq![ComponentView::RootDir]
    } else {
        Seq::empty()
    };
    let here = segment_components(parts, true, false);
    let there = segment_components(others, false, false);
    let none = Seq::<ComponentView>::empty();
    assert(none + here == here);
    assert(base == head + here);
    assert(whole[0] == text[0]);
    assert(path_of(whole, false) == head + (here + there));
    assert(head + (here + there) == base + there);
    assert(!(base[0] is Prefix)) by {
        if text[0] != '/' {
            assert(base[0] == here[0]);
        }
    }
    if more.len() > 0 && more[0] == '/' {
        assert(path[0] is RootDir);
    } else {
        let bare = segment_components(others, true, false);
        assert(none + bare == bare);
        assert(path == bare);
        if others[0] == seq!['.'] {
            assert(path[0] is CurDir);
            assert(path.skip(1) == there);
        } else {
            assert(none + there == there);
            assert(path == there);
            if path.len() > 0 {
                lemma_no_dot_inside(others);
            }
        }
    }
}

proof fn lemma_components_plain(parts: Seq<Seq<char>>, bare: bool, verbatim: bool)
    ensures
        forall|i: int|
            0 <= i < segment_components(parts, bare, verbatim).len() ==> !((
            #[trigger] segment_components(parts, bare, verbatim)[i]) is Prefix) && !(
            segment_components(parts, bare, verbatim)[i] is RootDir),
    decreases parts.len(),
{
    if parts.len() > 0 {
        lemma_components_plain(parts.drop_last(), bare, verbatim);
    }
}

proof fn lemma_no_dot_inside(parts: Seq<Seq<char>>)
    ensures
        forall|i: int|
            0 <= i < segment_components(parts, false, false).len() ==> !((
            #[trigger] segment_components(parts, false, false)[i]) is CurDir),
    decreases parts.len(),
{
    if parts.len() > 0 {
        lemma_no_dot_inside(parts.drop_last());
    }
}

proof fn lemma_first_segment(text: Seq<char>, rule: Separators)
    requires
        text.len() > 0,
        !splits(text[0], rule),
    ensures
        segments(text, rule).len() > 0,
        segments(text, rule)[0].len() > 0,
    decreases text.len(),
{
    let before = text.drop_last();
    lemma_segments_exist(before, rule);
    if before.len() > 0 {
        lemma_first_segment(before, rule);
    }
}

proof fn lemma_path_not_empty(text: Seq<char>)
    requires
        text.len() > 0,
    ensures
        path_of(text, false).len() > 0,
{
    let rule = Separators::Slash;
    lemma_slash_path(text);
    if text[0] != '/' {
        let parts = segments(text, rule);
        lemma_first_segment(text, rule);
        lemma_components_bare(parts);
        lemma_one_piece(parts[0]);
        let rest = parts.skip(1);
        assert(seq![parts[0]] + rest == parts);
        lemma_components_split(seq![parts[0]], rest, false, false);
    }
}

proof fn lemma_segments_alike(text: Seq<char>, other: Seq<char>, rule: Separators, second: Separators)
    requires
        text.len() == other.len(),
        forall|i: int|
            0 <= i < text.len() ==> splits(#[trigger] text[i], rule) == splits(other[i], second)
                && (text[i] == other[i] || splits(text[i], rule)),
    ensures
        segments(text, rule) == segments(other, second),
    decreases text.len(),
{
    if text.len() > 0 {
        let a = text.drop_last();
        let b = other.drop_last();
        assert forall|i: int| 0 <= i < a.len() implies splits(#[trigger] a[i], rule) == splits(
            b[i],
            second,
        ) && (a[i] == b[i] || splits(a[i], rule)) by {
            assert(a[i] == text[i]);
        }
        lemma_segments_alike(a, b, rule, second);
        assert(splits(text[text.len() - 1], rule) == splits(other[text.len() - 1], second));
    }
}

/// On Windows, where there is no volume, a path is read as elsewhere, with `\` and `/`
/// alike: a text with one in place of the other writes down the same path.
pub proof fn lemma_windows_path_without_volume(text: Seq<char>, other: Seq<char>)
    requires
        volume_len(text, true) == 0,
        text.len() == other.len(),
        forall|i: int|
            0 <= i < text.len() ==> #[trigger] text[i] == other[i] || (text[i] == '\\' && other[i]
                == '/'),
        !other.contains('\\'),
    ensures
        path_of(text, true) == path_of(other, false),
{
    lemma_piece_end(text, 4, Separators::Backslash);
    assert(!is_verbatim_text(text)) by {
        if is_verbatim_text(text) {
            lemma_volume_len(text, true);
            if names_share(text) {
                lemma_piece_end(text, 8, Separators::Backslash);
            }
        }
    }
    let either = Separators::Either;
    assert(separators_of(text, true) == either);
    assert forall|i: int| 0 <= i < text.len() implies splits(#[trigger] text[i], either) == splits(
        other[i],
        Separators::Slash,
    ) && (text[i] == other[i] || splits(text[i], either)) by {
        assert(other.contains(other[i]));
    }
    lemma_segments_alike(text, other, either, Separators::Slash);
    assert(text.skip(0) == text);
    assert(other.skip(0) == other);
    if text.len() > 0 {
        assert(splits(text[0], either) == splits(other[0], Separators::Slash));
    }
}

/// On Windows a path behind a drive is the volume, named by the letter in upper case and
/// a colon, and the path that follows: with a root where a separator follows the drive.
#[verifier::spinoff_prover]
pub proof fn lemma_windows_drive(letter: char, rest: Seq<char>)
    requires
        'a' <= letter <= 'z' || 'A' <= letter <= 'Z',
        rest.len() > 0,
        rest[0] == '/' || rest[0] == '\\',
        volume_len(rest, true) == 0,
    ensures
        path_of(seq![letter, ':'] + rest, true) == seq![
            ComponentView::Prefix(seq![ascii_upper(letter), ':']),
        ] + path_of(rest, true),
{
    let text = seq![letter, ':'] + rest;
    let either = Separators::Either;
    assert(begins_with_drive(text));
    assert(text.skip(2) == rest);
    assert(text.take(2) == seq![letter, ':']);
    assert(rest.skip(0) == rest);
    lemma_piece_end(rest, 4, Separators::Backslash);
    assert(!is_verbatim_text(rest)) by {
        if is_verbatim_text(rest) && names_share(rest) {
            lemma_volume_len(rest, true);
            lemma_piece_end(rest, 8, Separators::Backslash);
        }
    }
    let parts = segments(rest, either);
    let none = Seq::<char>::empty();
    let tail = rest.skip(1);
    assert(rest == none.push(rest[0]) + tail);
    lemma_segments_split(none, rest[0], tail, either);
    lemma_single_segment(none, either);
    assert(parts[0] == none);
    lemma_components_bare(parts);
    assert(none != seq!['.']) by {
        assert(seq!['.'].len() == 1);
    }
    let components = segment_components(parts, false, false);
    assert(Seq::<ComponentView>::empty() + components == components);
    let volume = ComponentView::Prefix(seq![ascii_upper(letter), ':']);
    assert(volume_len(text, true) == 2);
    assert(text[1] == ':');
    assert(separators_of(text, true) == either);
    assert(separators_of(rest, true) == either);
    assert(text[2] == rest[0]);
    assert(volume_text(seq![letter, ':']) == seq![ascii_upper(letter), ':']);
    assert(path_head(text, true) == seq![volume].push(ComponentView::RootDir));
    assert(path_head(rest, true) == Seq::<ComponentView>::empty().push(ComponentView::RootDir));
    assert(path_of(text, true) == path_head(text, true) + components);
    assert(path_of(rest, true) == path_head(rest, true) + components);
    assert(path_of(text, true) == seq![volume] + path_of(rest, true));
}

proof fn lemma_piece_ends_at(text: Seq<char>, from: int, end: int, rule: Separators)
    requires
        0 <= from <= end <= text.len(),
        forall|i: int| from <= i < end ==> !splits(#[trigger] text[i], rule),
        end == text.len() || splits(text[end], rule),
    ensures
        piece_end(text, from, rule) == end,
    decreases end - from,
{
    if from < end {
        assert(!splits(text[from], rule));
        lemma_piece_ends_at(text, from + 1, end, rule);
    }
}

/// A text has no volume outside Windows, and on Windows none unless it begins with a
/// letter and a colon, or with two separators.
pub proof fn lemma_no_volume(text: Seq<char>, windows: bool)
    requires
        windows ==> text.len() < 2 || (text[1] != ':' && !(text[1] == '/' || text[1] == '\\')),
    ensures
        volume_len(text, windows) == 0,
        forall|i: int|
            0 <= i < path_of(text, windows).len() ==> !((#[trigger] path_of(text, windows)[i]) is Prefix),
{
    let rule = separators_of(text, windows);
    let parts = segments(text.skip(0), rule);
    lemma_components_plain(parts, true, rule == Separators::Backslash);
    let head = path_head(text, windows);
    let rest = segment_components(parts, true, rule == Separators::Backslash);
    assert(path_of(text, windows) == head + rest);
    assert forall|i: int| 0 <= i < (head + rest).len() implies !((#[trigger] (head + rest)[i]) is Prefix) by {
        if i >= head.len() {
            assert((head + rest)[i] == rest[i - head.len()]);
        }
    }
}

/// On Windows two `\`, the name of a server, a `\` and the name of a share are a volume,
/// and that is always rooted.
pub proof fn lemma_windows_share(server: Seq<char>, share: Seq<char>, rest: Seq<char>)
    requires
        server.len() > 0,
        share.len() > 0,
        forall|i: int| 0 <= i < server.len() ==> !is_separator(#[trigger] server[i], true),
        forall|i: int| 0 <= i < share.len() ==> !is_separator(#[trigger] share[i], true),
        server != seq!['.'],
        server != seq!['?'],
        rest.len() > 0 ==> is_separator(rest[0], true),
    ensures
        ({
            let volume = seq!['\\', '\\'] + server + seq!['\\'] + share;
            &&& volume_len(volume + rest, true) == volume.len()
            &&& path_of(volume + rest, true).len() >= 2
            &&& path_of(volume + rest, true)[0] == ComponentView::Prefix(volume)
            &&& path_of(volume + rest, true)[1] == ComponentView::RootDir
        }),
{
    let volume = seq!['\\', '\\'] + server + seq!['\\'] + share;
    let text = volume + rest;
    let either = Separators::Either;
    let middle = 2 + server.len() as int;
    let end = volume.len() as int;
    assert(text[0] == '\\' && text[1] == '\\' && text[middle] == '\\');
    assert forall|i: int| 2 <= i < middle implies !splits(#[trigger] text[i], either) by {
        assert(text[i] == server[i - 2]);
        assert(!is_separator(server[i - 2], true));
    }
    assert forall|i: int| middle < i < end implies !splits(#[trigger] text[i], either) by {
        assert(text[i] == share[i - middle - 1]);
        assert(!is_separator(share[i - middle - 1], true));
    }
    assert(end == text.len() || splits(text[end], either)) by {
        if rest.len() > 0 {
            assert(text[end] == rest[0]);
        }
    }
    lemma_piece_ends_at(text, 2, middle, either);
    lemma_piece_ends_at(text, middle + 1, end, either);
    assert(!splits(text[2], either));
    assert(!is_verbatim_text(text)) by {
        if is_verbatim_text(text) {
            assert(splits(text[3], either));
            assert(server.len() == 1);
            assert(server[0] == text[2]);
            assert(server == seq!['?']);
        }
    }
    assert(!(text[2] == '.' && splits(text[3], either))) by {
        if text[2] == '.' && splits(text[3], either) {
            assert(server.len() == 1);
            assert(server[0] == text[2]);
            assert(server == seq!['.']);
        }
    }
    assert(text.take(end) == volume);
    assert(!is_verbatim_text(volume)) by {
        if is_verbatim_text(volume) {
            assert(text[2] == volume[2] && text[3] == volume[3]);
        }
    }
    let backward = volume.map_values(|c: char| if c == '/' { '\\' } else { c });
    assert(backward == volume) by {
        assert forall|i: int| 0 <= i < volume.len() implies backward[i] == volume[i] by {
            assert(text[i] == volume[i]);
            if 2 <= i < middle || middle < i {
                assert(!splits(text[i], either));
            }
        }
    }
    let head = path_head(text, true);
    assert(head == seq![ComponentView::Prefix(volume)].push(ComponentView::RootDir));
}

/// A path that ends in anything but a root or a volume lies in the path before that. A root
/// and a volume lie in nothing, and neither does the empty path.
pub proof fn lemma_parent(dir: Seq<ComponentView>, last: ComponentView, path: Seq<ComponentView>)
    ensures
        !(last is RootDir) && !(last is Prefix) ==> parent_of(dir.push(last)) == Some(dir),
        last is RootDir || last is Prefix ==> parent_of(dir.push(last)) is None,
        path.len() == 0 ==> parent_of(path) is None,
        parent_of(path) matches Some(parent) ==> lies_in(path, parent) && path.len() == parent.len()
            + 1,
{
    assert(dir.push(last).drop_last() == dir);
    if path.len() > 0 {
        assert(path.take(path.len() - 1) == path.drop_last());
    }
}

/// A name in a directory comes directly behind the directory, but for a directory that is a
/// volume behind `\\?\` and nothing else, which gets a root first.
pub proof fn lemma_child(dir: Seq<ComponentView>, name: Seq<char>)
    ensures
        name_of(child_of(dir, name)) == Some(name),
        dir.len() != 1 || !(dir[0] is Prefix) ==> child_of(dir, name) == dir.push(
            ComponentView::Normal(name),
        ),
        dir.len() == 1 && is_verbatim(dir) ==> child_of(dir, name) == seq![
            dir[0],
            ComponentView::RootDir,
            ComponentView::Normal(name),
        ],
        dir.len() == 1 && !is_verbatim(dir) ==> child_of(dir, name) == seq![
            dir[0],
            ComponentView::Normal(name),
        ],
{
    assert(child_of(dir, name).last() == ComponentView::Normal(name));
    if dir.len() == 1 {
        assert(dir == seq![dir[0]]);
        assert(dir.push(ComponentView::Normal(name)) == seq![dir[0], ComponentView::Normal(name)]);
        assert(dir.push(ComponentView::RootDir).push(ComponentView::Normal(name)) == seq![
            dir[0],
            ComponentView::RootDir,
            ComponentView::Normal(name),
        ]);
    }
}

/// A path that gets an extension keeps its directory and the stem of its name, and the
/// extension that it had is gone.
pub proof fn lemma_extension_replaced(
    dir: Seq<ComponentView>,
    stem: Seq<char>,
    before: Seq<char>,
    bare: Seq<char>,
    after: Seq<char>,
)
    requires
        stem.len() > 0,
        !before.contains('.'),
        forall|i: int| 0 < i < bare.len() ==> #[trigger] bare[i] != '.',
    ensures
        with_extension_of(dir.push(ComponentView::Normal(stem + seq!['.'] + before)), after)
            == dir.push(ComponentView::Normal(stem + seq!['.'] + after)),
        with_extension_of(dir.push(ComponentView::Normal(bare)), after) == dir.push(
            ComponentView::Normal(bare + seq!['.'] + after),
        ),
        dir.len() == 0 || !(dir.last() is Normal) ==> with_extension_of(dir, after) == dir,
{
    lemma_extension_follows_dot(dir, stem, before);
    lemma_no_dot_no_extension(dir, bare);
    let named = dir.push(ComponentView::Normal(stem + seq!['.'] + before));
    assert(named.drop_last() == dir);
    assert(dir.push(ComponentView::Normal(bare)).drop_last() == dir);
}

/// Behind a volume that is taken verbatim, a path is walked component by component: a name
/// leads into a directory, `..` out of the last one, `.` nowhere, and a root to the root of
/// the volume.
pub proof fn lemma_walk(
    base: Seq<ComponentView>,
    path: Seq<ComponentView>,
    more: Seq<ComponentView>,
    name: Seq<char>,
)
    ensures
        walked(base, path + more) == walked(walked(base, path), more),
        walked(base, Seq::empty()) == base,
        walked(base, seq![ComponentView::Normal(name)]) == base.push(ComponentView::Normal(name)),
        walked(base, seq![ComponentView::CurDir]) == base,
        walked(base.push(ComponentView::Normal(name)), seq![ComponentView::ParentDir]) == base,
        base.len() == 0 || !(base.last() is Normal) ==> walked(base, seq![ComponentView::ParentDir])
            == base,
        base.len() > 0 ==> walked(base, seq![ComponentView::RootDir]) == seq![
            base[0],
            ComponentView::RootDir,
        ],
    decreases more.len(),
{
    if more.len() > 0 {
        lemma_walk(base, path, more.drop_last(), name);
        assert((path + more).drop_last() == path + more.drop_last());
        assert((path + more).last() == more.last());
    } else {
        assert(path + more == path);
    }
    let none = Seq::<ComponentView>::empty();
    assert forall|c: ComponentView| #[trigger] seq![c].drop_last() == none by {}
    assert(walked(base, none) == base);
    let inside = base.push(ComponentView::Normal(name));
    assert(walked(inside, none) == inside);
    assert(inside.drop_last() == base);
    assert(seq![ComponentView::Normal(name)].last() == ComponentView::Normal(name));
    assert(seq![ComponentView::CurDir].last() == ComponentView::CurDir);
    assert(seq![ComponentView::ParentDir].last() == ComponentView::ParentDir);
    assert(seq![ComponentView::RootDir].last() == ComponentView::RootDir);
    assert(seq![ComponentView::CurDir].drop_last() == none);
    assert(seq![ComponentView::ParentDir].drop_last() == none);
    assert(seq![ComponentView::RootDir].drop_last() == none);
    assert(seq![ComponentView::Normal(name)].drop_last() == none);
    if base.len() > 0 {
        assert(base.take(1) == seq![base[0]]);
        assert(seq![base[0]].push(ComponentView::RootDir) == seq![base[0], ComponentView::RootDir]);
    }
}

/// A volume as a component is the volume as it is written, but for the separators in it and
/// the letter of a drive, which is in upper case.
pub proof fn lemma_volume_as_written(volume: Seq<char>, i: int)
    requires
        volume.len() >= 2,
        volume.len() == 2 ==> volume[1] == ':',
        0 <= i < volume.len(),
    ensures
        volume_text(volume).len() == volume.len(),
        volume_text(volume)[i] == volume[i] || (is_separator(volume[i], true) && is_separator(
            volume_text(volume)[i],
            true,
        )) || volume_text(volume)[i] == ascii_upper(volume[i]),
        volume.len() == 2 ==> volume_text(volume) == seq![ascii_upper(volume[0]), ':'],
        is_verbatim_text(volume) && i != 4 ==> volume_text(volume)[i] == volume[i],
{
}

/// A device on Windows, which is `\\.\` and a name, is a volume, and so is what follows
/// `\\?\` up to the next `\`, unless that is `UNC`. The one has a root always, and the other
/// where a `\` follows.
pub proof fn lemma_windows_device(name: Seq<char>, rest: Seq<char>)
    requires
        forall|i: int| 0 <= i < name.len() ==> !is_separator(#[trigger] name[i], true),
        rest.len() > 0 ==> rest[0] == '\\',
        name != seq!['U', 'N', 'C'],
    ensures
        ({
            let device = seq!['\\', '\\', '.', '\\'] + name;
            let verbatim = seq!['\\', '\\', '?', '\\'] + name;
            &&& volume_len(device + rest, true) == device.len()
            &&& path_head(device + rest, true) == seq![
                ComponentView::Prefix(device),
                ComponentView::RootDir,
            ]
            &&& volume_len(verbatim + rest, true) == verbatim.len()
            &&& path_head(verbatim + rest, true).len() == if rest.len() > 0 {
                2nat
            } else {
                1nat
            }
            &&& is_verbatim(path_of(verbatim + rest, true))
        }),
{
    let either = Separators::Either;
    let device = seq!['\\', '\\', '.', '\\'] + name;
    let text = device + rest;
    let end = device.len() as int;
    assert(text[0] == '\\' && text[1] == '\\' && text[2] == '.' && text[3] == '\\');
    assert forall|i: int| 4 <= i < end implies !splits(#[trigger] text[i], either) by {
        assert(text[i] == name[i - 4]);
        assert(!is_separator(name[i - 4], true));
    }
    if rest.len() > 0 {
        assert(text[end] == rest[0]);
    }
    lemma_piece_ends_at(text, 4, end, either);
    assert(text.take(end) == device);
    let backward = device.map_values(|c: char| if c == '/' { '\\' } else { c });
    assert(backward == device) by {
        assert forall|i: int| 0 <= i < device.len() implies backward[i] == device[i] by {
            assert(text[i] == device[i]);
            if i >= 4 {
                assert(!splits(text[i], either));
            }
        }
    }
    assert(device[2] == '.');
    assert(path_head(text, true) == seq![ComponentView::Prefix(device)].push(
        ComponentView::RootDir,
    ));
    assert(seq![ComponentView::Prefix(device)].push(ComponentView::RootDir) == seq![
        ComponentView::Prefix(device),
        ComponentView::RootDir,
    ]);
    let verbatim = seq!['\\', '\\', '?', '\\'] + name;
    let whole = verbatim + rest;
    let rule = Separators::Backslash;
    assert(whole[0] == '\\' && whole[1] == '\\' && whole[2] == '?' && whole[3] == '\\');
    assert forall|i: int| 4 <= i < end implies !splits(#[trigger] whole[i], rule) by {
        assert(whole[i] == name[i - 4]);
        assert(!is_separator(name[i - 4], true));
    }
    if rest.len() > 0 {
        assert(whole[end] == rest[0]);
    }
    lemma_piece_ends_at(whole, 4, end, rule);
    assert(!names_share(whole)) by {
        if names_share(whole) {
            if name.len() > 3 {
                assert(whole[7] == name[3]);
                assert(!splits(whole[7], rule));
            } else if name.len() < 3 {
                assert(end < 7);
                assert(whole[end] == '\\');
            } else {
                assert(whole[4] == name[0] && whole[5] == name[1] && whole[6] == name[2]);
                assert(name == seq!['U', 'N', 'C']);
            }
        }
    }
    assert(whole.take(end) == verbatim);
    assert(verbatim[0] == '\\' && verbatim[1] == '\\' && verbatim[2] == '?' && verbatim[3] == '\\');
    assert(is_verbatim_text(volume_text(verbatim)));
    assert(path_of(whole, true)[0] == path_head(whole, true)[0]);
}

/// The components of a path are those that it holds, in order.
pub proof fn lemma_path_components(path: FilePath, i: int)
    requires
        0 <= i < path.components@.len(),
    ensures
        path@.len() == path.components@.len(),
        match path.components@[i] {
            Component::Prefix(s) => path@[i] == ComponentView::Prefix(s@),
            Component::RootDir => path@[i] == ComponentView::RootDir,
            Component::CurDir => path@[i] == ComponentView::CurDir,
            Component::ParentDir => path@[i] == ComponentView::ParentDir,
            Component::Normal(s) => path@[i] == ComponentView::Normal(s@),
        },
{
}

/// A drive behind `\\?\` is the same volume in whatever case its letter is written.
pub proof fn lemma_verbatim_drive(letter: char, rest: Seq<char>)
    requires
        'a' <= letter <= 'z' || 'A' <= letter <= 'Z',
        rest.len() > 0 ==> rest[0] == '\\',
    ensures
        path_of(seq!['\\', '\\', '?', '\\', letter, ':'] + rest, true).len() > 0,
        path_of(seq!['\\', '\\', '?', '\\', letter, ':'] + rest, true)[0] == ComponentView::Prefix(
            seq!['\\', '\\', '?', '\\', ascii_upper(letter), ':'],
        ),
{
    let name = seq![letter, ':'];
    let verbatim = seq!['\\', '\\', '?', '\\'] + name;
    let text = seq!['\\', '\\', '?', '\\', letter, ':'] + rest;
    assert(verbatim + rest == text);
    assert(name != seq!['U', 'N', 'C']) by {
        assert(seq!['U', 'N', 'C'].len() == 3);
    }
    lemma_windows_device(name, rest);
    assert(text.take(6) == verbatim);
    assert(verbatim.skip(4) == name);
    assert(begins_with_drive(verbatim.skip(4)));
    assert(verbatim[0] == '\\' && verbatim[1] == '\\' && verbatim[2] == '?' && verbatim[3] == '\\');
    assert(volume_text(verbatim) == verbatim.update(4, ascii_upper(letter)));
    assert(verbatim.update(4, ascii_upper(letter)) == seq![
        '\\',
        '\\',
        '?',
        '\\',
        ascii_upper(letter),
        ':',
    ]);
    assert(path_of(text, true)[0] == path_head(text, true)[0]);
}

/// Joining a path to another gives the path itself where it has a volume. One that starts at
/// the root keeps no more of the other than its volume, and any other follows it, without
/// the `.` that it may begin with. Behind a volume that is taken verbatim the path is
/// walked.
pub proof fn lemma_join_by_start(base: Seq<ComponentView>, text: Seq<char>, windows: bool)
    requires
        base.len() > 0,
    ensures
        ({
            let path = path_of(text, windows);
            let end = joined(base, text, windows);
            &&& path.len() > 0 && path[0] is Prefix ==> end == path
            &&& !is_verbatim(base) && path.len() > 0 && path[0] is RootDir ==> end == (if windows
                && base[0] is Prefix {
                seq![base[0]] + path
            } else {
                path
            })
            &&& !is_verbatim(base) && path.len() > 0 && path[0] is CurDir ==> base + path == end.take(
                base.len() as int,
            ) + seq![ComponentView::CurDir] + end.skip(base.len() as int)
            &&& !is_verbatim(base) && path.len() > 0 && (path[0] is Normal || path[0] is ParentDir)
                ==> end == base + path
            &&& is_verbatim(base) && base.len() > 1 && text.len() > 0 && path.len() > 0 && !(
            path[0] is Prefix) ==> end == walked(base, path)
        }),
{
    let path = path_of(text, windows);
    let end = joined(base, text, windows);
    assert(base.take(1) == seq![base[0]]);
    if !is_verbatim(base) && path.len() > 0 && path[0] is CurDir {
        assert(end == base + path.skip(1));
        assert(end.take(base.len() as int) == base);
        assert(end.skip(base.len() as int) == path.skip(1));
        assert(path == seq![ComponentView::CurDir] + path.skip(1));
        assert(base + path == base + seq![ComponentView::CurDir] + path.skip(1));
    }
}

} // verus!
