//! Where files are kept.
//!
//! On most systems that is a directory under the home of the user. On a phone the
//! user may choose a directory that other programs can see; a [`StorageSetup`]
//! then decides what to ask and what to look up, and what comes of the answers.

use vstd::prelude::*;

use crate::path::{child_of, joined, opened, path_of, Component, ComponentView, FilePath};
use crate::text::{
    all_digits, ascii_lowered, contains, decimal, decimal_text, digits_value, has_part, is_digit,
    is_white_space, lemma_number_as_typed, lemma_number_read_back, lemma_part_between,
    lemma_trimmed_between, parse_usize, parsed_number, parsed_usize, same_text, texts, trim, trimmed,
};

verus! {

/// The question whether to keep files where other programs can see them.
pub const PUBLIC_STORAGE_PROMPT: &'static str =
    "\n📱 检测到 Termux 环境。是否将文件保存到公共存储目录（如图库、下载等）？\n这将使文件在系统文件管理器中直接可见。\n输入 y/yes 确认，其他任意键跳过: ";

/// The question for the path of a directory.
pub const CUSTOM_PATH_PROMPT: &'static str = "请输入完整路径: ";

/// The public directories of a phone: what they are called, and their names under
/// the storage directory.
pub open spec fn preset_dirs() -> Seq<(Seq<char>, Seq<char>)> {
    seq![
        ("Pictures"@, "pictures"@),
        ("DCIM"@, "dcim"@),
        ("Downloads"@, "downloads"@),
        ("Music"@, "music"@),
        ("Movies"@, "movies"@),
    ]
}

/// What the public directories are called.
pub open spec fn preset_names() -> Seq<Seq<char>> {
    preset_dirs().map_values(|dir: (Seq<char>, Seq<char>)| dir.0)
}

/// Whether the program runs in Termux: its version is set in the environment, or
/// the prefix of the installation is one of Termux.
pub open spec fn runs_in_termux(version_is_set: bool, prefix: Option<Seq<char>>) -> bool {
    version_is_set || (prefix matches Some(p) && has_part(p, "com.termux"@))
}

/// Whether the program runs in Termux.
pub fn is_termux(version_is_set: bool, prefix: Option<&str>) -> (termux: bool)
    ensures
        termux == runs_in_termux(
            version_is_set,
            match prefix {
                Some(p) => Some(p@),
                None => None,
            },
        ),
{
    if version_is_set {
        true
    } else {
        match prefix {
            Some(p) => contains(p, "com.termux"),
            None => false,
        }
    }
}

/// The directory where files are kept unless another is chosen: under the home of
/// the user, or else under the current directory.
pub open spec fn default_dir(
    home: Option<Seq<ComponentView>>,
    current: Option<Seq<ComponentView>>,
) -> Seq<ComponentView> {
    match home {
        Some(h) => child_of(child_of(h, "rushdrop_data"@), "files"@),
        None => match current {
            Some(c) => child_of(c, "files"@),
            None => seq![ComponentView::CurDir, ComponentView::Normal("files"@)],
        },
    }
}

/// The value of an optional path.
pub open spec fn optional_path(path: Option<FilePath>) -> Option<Seq<ComponentView>> {
    match path {
        Some(p) => Some(p@),
        None => None,
    }
}

/// The value of an optional path.
pub open spec fn optional_path_ref(path: Option<&FilePath>) -> Option<Seq<ComponentView>> {
    match path {
        Some(p) => Some(p@),
        None => None,
    }
}

/// The directory where files are kept unless another is chosen.
pub fn default_files_dir(home: Option<&FilePath>, current: Option<&FilePath>) -> (dir: FilePath)
    ensures
        dir@ == default_dir(optional_path_ref(home), optional_path_ref(current)),
{
    match home {
        Some(h) => h.child("rushdrop_data").child("files"),
        None => match current {
            Some(c) => c.child("files"),
            None => {
                let mut components: Vec<Component> = Vec::new();
                components.push(Component::CurDir);
                let here = FilePath { components };
                assert(here@ == seq![ComponentView::CurDir]);
                here.child("files")
            },
        },
    }
}

/// Whether an answer is a yes.
pub open spec fn is_yes(line: Seq<char>) -> bool {
    trimmed(line) == "y"@ || trimmed(line) == "yes"@
}

/// Whether the user wants to keep files where other programs can see them, from
/// the line that was typed.
pub fn confirm_use_public_storage(line: &str) -> (confirmed: bool)
    ensures
        confirmed == is_yes(line@),
{
    let input: String = trim(line);
    same_text(input.as_str(), "y") || same_text(input.as_str(), "yes")
}

/// A line of a menu.
pub open spec fn menu_line(number: nat, name: Seq<char>) -> Seq<char> {
    "  "@ + decimal(number) + ". "@ + name + "\n"@
}

/// The lines of a menu, numbered from one.
pub open spec fn menu_lines(names: Seq<Seq<char>>) -> Seq<char>
    decreases names.len(),
{
    if names.len() == 0 {
        Seq::empty()
    } else {
        menu_lines(names.drop_last()) + menu_line(names.len(), names.last())
    }
}

/// A menu: its heading, the names, and one more choice.
pub open spec fn menu(heading: Seq<char>, names: Seq<Seq<char>>, other: Seq<char>) -> Seq<char> {
    heading + menu_lines(names.push(other))
}

fn push_menu_line(out: &mut String, number: usize, name: &str)
    ensures
        final(out)@ == old(out)@ + menu_line(number as nat, name@),
{
    let mut line: String = "  ".to_owned();
    line.append(decimal_text(number as u128).as_str());
    line.append(". ");
    line.append(name);
    line.append("\n");
    out.append(line.as_str());
}

fn build_menu(heading: &str, names: &Vec<String>, other: &str) -> (out: String)
    requires
        names@.len() < usize::MAX,
    ensures
        out@ == menu(heading@, texts(names@), other@),
{
    let mut out: String = heading.to_owned();
    let ghost all = texts(names@).push(other@);
    assert(heading@ + menu_lines(all.take(0)) == heading@);
    let mut i: usize = 0;
    while i < names.len()
        invariant
            i <= names@.len() < usize::MAX,
            all == texts(names@).push(other@),
            out@ == heading@ + menu_lines(all.take(i as int)),
        decreases names@.len() - i,
    {
        push_menu_line(&mut out, i + 1, names[i].as_str());
        assert(all.take(i as int + 1).drop_last() == all.take(i as int));
        assert(all.take(i as int + 1).last() == names@[i as int]@);
        assert(heading@ + menu_lines(all.take(i as int + 1)) == heading@ + menu_lines(
            all.take(i as int),
        ) + menu_line((i + 1) as nat, names@[i as int]@));
        i = i + 1;
    }
    push_menu_line(&mut out, i + 1, other);
    assert(all.drop_last() == all.take(i as int));
    assert(heading@ + menu_lines(all) == heading@ + menu_lines(all.take(i as int)) + menu_line(
        (i + 1) as nat,
        other@,
    ));
    out
}

fn preset_dir(i: usize) -> (dir: (&'static str, &'static str))
    requires
        i < preset_dirs().len(),
    ensures
        (dir.0@, dir.1@) == preset_dirs()[i as int],
{
    if i == 0 {
        ("Pictures", "pictures")
    } else if i == 1 {
        ("DCIM", "dcim")
    } else if i == 2 {
        ("Downloads", "downloads")
    } else if i == 3 {
        ("Music", "music")
    } else {
        ("Movies", "movies")
    }
}

/// The menu of public directories.
pub fn preset_menu() -> (out: String)
    ensures
        out@ == menu("\n请选择保存目录（输入编号）：\n"@, preset_names(), "自定义路径"@),
{
    let mut names: Vec<String> = Vec::new();
    let mut i: usize = 0;
    while i < 5
        invariant
            i <= 5,
            texts(names@) == preset_names().take(i as int),
        decreases 5 - i,
    {
        let ghost before = texts(names@);
        names.push(preset_dir(i).0.to_owned());
        assert(texts(names@) == before.push(preset_names()[i as int]));
        assert(preset_names().take(i as int + 1) == before.push(preset_names()[i as int]));
        i = i + 1;
    }
    assert(preset_names().take(5) == preset_names());
    assert(texts(names@).len() == 5);
    build_menu("\n请选择保存目录（输入编号）：\n", &names, "自定义路径")
}

/// The menu of the directories in `dir`.
pub fn subdirectory_menu(dir: &str, names: &Vec<String>) -> (out: String)
    requires
        names@.len() < usize::MAX,
    ensures
        out@ == menu(
            "\n检测到 "@ + dir@ + " 下有以下子目录：\n"@,
            texts(names@),
            "使用根目录"@,
        ),
{
    let mut heading: String = "\n检测到 ".to_owned();
    heading.append(dir);
    heading.append(" 下有以下子目录：\n");
    build_menu(heading.as_str(), names, "使用根目录")
}

/// Why no directory was selected.
#[derive(Debug)]
pub enum SelectionError {
    /// What was typed is not a number.
    InvalidNumber,
    /// The menu has no such number.
    InvalidChoice,
    /// The path that was typed is empty.
    EmptyPath,
    /// Nothing could be read. The text says why.
    Unreadable(String),
}

impl SelectionError {
    /// The text of the error.
    pub open spec fn text(&self) -> Seq<char> {
        match self {
            SelectionError::InvalidNumber => "无效数字"@,
            SelectionError::InvalidChoice => "无效编号"@,
            SelectionError::EmptyPath => "路径为空"@,
            SelectionError::Unreadable(text) => text@,
        }
    }

    /// The text of the error.
    pub fn message(&self) -> (message: String)
        ensures
            message@ == self.text(),
    {
        match self {
            SelectionError::InvalidNumber => "无效数字".to_owned(),
            SelectionError::InvalidChoice => "无效编号".to_owned(),
            SelectionError::EmptyPath => "路径为空".to_owned(),
            SelectionError::Unreadable(text) => text.clone(),
        }
    }
}

/// What was selected from the menu of public directories.
#[derive(Debug)]
pub enum SelectedDir {
    /// A public directory.
    Preset(FilePath),
    /// A directory whose path is to be typed.
    Custom,
}

/// What a line typed at the menu of public directories selects.
pub enum SelectionView {
    Preset(Seq<ComponentView>),
    Custom,
    InvalidNumber,
    InvalidChoice,
}

/// What a line typed at the menu of public directories selects: the numbers from
/// one are those of the directories, and the next stands for a path to be typed.
pub open spec fn selection(storage_dir: Seq<ComponentView>, line: Seq<char>) -> SelectionView {
    match parsed_usize(trimmed(line)) {
        Some(number) => if 1 <= number <= preset_dirs().len() {
            SelectionView::Preset(child_of(storage_dir, preset_dirs()[number - 1].1))
        } else if number == preset_dirs().len() + 1 {
            SelectionView::Custom
        } else {
            SelectionView::InvalidChoice
        },
        None => SelectionView::InvalidNumber,
    }
}

/// The value of the outcome of a selection.
pub open spec fn selection_view(selected: Result<SelectedDir, SelectionError>) -> Option<
    SelectionView,
> {
    match selected {
        Ok(SelectedDir::Preset(path)) => Some(SelectionView::Preset(path@)),
        Ok(SelectedDir::Custom) => Some(SelectionView::Custom),
        Err(SelectionError::InvalidNumber) => Some(SelectionView::InvalidNumber),
        Err(SelectionError::InvalidChoice) => Some(SelectionView::InvalidChoice),
        Err(_) => None,
    }
}

/// What a line typed at the menu of public directories selects.
pub fn select_preset_or_custom_directory(storage_dir: &FilePath, line: &str) -> (selected: Result<
    SelectedDir,
    SelectionError,
>)
    ensures
        selection_view(selected) == Some(selection(storage_dir@, line@)),
{
    let input: String = trim(line);
    match parse_usize(input.as_str()) {
        Some(number) => if 1 <= number && number <= 5 {
            Ok(SelectedDir::Preset(storage_dir.child(preset_dir(number - 1).1)))
        } else if number == 6 {
            Ok(SelectedDir::Custom)
        } else {
            Err(SelectionError::InvalidChoice)
        },
        None => Err(SelectionError::InvalidNumber),
    }
}

/// The directory whose path was typed.
pub fn custom_directory(line: &str, windows: bool) -> (dir: Result<FilePath, SelectionError>)
    ensures
        match dir {
            Ok(path) => trimmed(line@).len() > 0 && path@ == path_of(trimmed(line@), windows),
            Err(error) => trimmed(line@).len() == 0 && error is EmptyPath,
        },
{
    let input: String = trim(line);
    if input.as_str().is_empty() {
        Err(SelectionError::EmptyPath)
    } else {
        Ok(FilePath::parse(input.as_str(), windows))
    }
}

/// An entry of a directory.
#[derive(Debug)]
pub struct DirectoryEntry {
    pub name: String,
    pub is_dir: bool,
}

/// The names of the directories among the entries, in order.
pub open spec fn directory_names(entries: Seq<DirectoryEntry>) -> Seq<Seq<char>>
    decreases entries.len(),
{
    if entries.len() == 0 {
        Seq::empty()
    } else if entries.last().is_dir {
        directory_names(entries.drop_last()).push(entries.last().name@)
    } else {
        directory_names(entries.drop_last())
    }
}

/// The names of the directories among the entries, in order.
pub fn subdirectories(entries: &Vec<DirectoryEntry>) -> (names: Vec<String>)
    ensures
        texts(names@) == directory_names(entries@),
{
    let mut names: Vec<String> = Vec::new();
    let mut i: usize = 0;
    assert(texts(names@) == directory_names(entries@.take(0)));
    while i < entries.len()
        invariant
            i <= entries@.len(),
            texts(names@) == directory_names(entries@.take(i as int)),
        decreases entries@.len() - i,
    {
        assert(entries@.take(i as int + 1).drop_last() == entries@.take(i as int));
        let ghost before = texts(names@);
        if entries[i].is_dir {
            names.push(entries[i].name.clone());
            assert(texts(names@) == before.push(entries@[i as int].name@));
        }
        i = i + 1;
    }
    assert(entries@.take(entries@.len() as int) == entries@);
    names
}

/// The directory that a line typed at the menu of directories in `dir` selects. Any
/// line but the number of one of them selects none.
pub open spec fn chosen_subdirectory(
    dir: Seq<ComponentView>,
    names: Seq<Seq<char>>,
    line: Seq<char>,
    windows: bool,
) -> Option<Seq<ComponentView>> {
    match parsed_usize(trimmed(line)) {
        Some(number) => if 1 <= number <= names.len() {
            Some(joined(dir, names[number - 1], windows))
        } else {
            None
        },
        None => None,
    }
}

/// The directory that a line typed at the menu of directories in `dir` selects.
pub fn choose_subdirectory(
    dir: &FilePath,
    names: &Vec<String>,
    line: &str,
    windows: bool,
) -> (chosen: Option<FilePath>)
    ensures
        optional_path(chosen) == chosen_subdirectory(dir@, texts(names@), line@, windows),
{
    let input: String = trim(line);
    match parse_usize(input.as_str()) {
        Some(number) => if 1 <= number && number <= names.len() {
            assert(texts(names@)[number - 1] == names@[number - 1]@);
            Some(dir.join(names[number - 1].as_str(), windows))
        } else {
            None
        },
        None => None,
    }
}

/// Why files are kept in a directory.
#[derive(Debug)]
pub enum DirectoryReason {
    /// The program does not run in Termux.
    NotTermux,
    /// The user does not want to keep files where other programs can see them.
    Declined,
    /// The user has no home.
    NoHome,
    /// The phone does not give access to its storage.
    NoStorage,
    /// No directory was selected.
    NotSelected(SelectionError),
    /// The user chose the directory.
    Chosen,
}

/// The mathematical value of a [`DirectoryReason`]: why, and for a selection that
/// failed its text.
pub enum ReasonView {
    NotTermux,
    Declined,
    NoHome,
    NoStorage,
    NotSelected(Seq<char>),
    Chosen,
}

impl View for DirectoryReason {
    type V = ReasonView;

    open spec fn view(&self) -> ReasonView {
        match self {
            DirectoryReason::NotTermux => ReasonView::NotTermux,
            DirectoryReason::Declined => ReasonView::Declined,
            DirectoryReason::NoHome => ReasonView::NoHome,
            DirectoryReason::NoStorage => ReasonView::NoStorage,
            DirectoryReason::NotSelected(error) => ReasonView::NotSelected(error.text()),
            DirectoryReason::Chosen => ReasonView::Chosen,
        }
    }
}

/// What is to be done next.
#[derive(Debug)]
pub enum SetupAction {
    /// Ask whether to keep files where other programs can see them.
    AskConsent,
    /// Look whether there is such a directory.
    CheckExists(FilePath),
    /// Show the menu of public directories and read a line.
    AskDirectory,
    /// Ask for the path of a directory.
    AskCustomPath,
    /// List the directory.
    ListDirectory(FilePath),
    /// Show the menu of the directories in this one and read a line.
    AskSubdirectory(FilePath, Vec<String>),
    /// Keep files in the directory.
    UseDirectory(FilePath, DirectoryReason),
    /// Give up. The text says why.
    Abort(String),
}

/// The mathematical value of a [`SetupAction`].
pub enum SetupActionView {
    AskConsent,
    CheckExists(Seq<ComponentView>),
    AskDirectory,
    AskCustomPath,
    ListDirectory(Seq<ComponentView>),
    AskSubdirectory(Seq<ComponentView>, Seq<Seq<char>>),
    UseDirectory(Seq<ComponentView>, ReasonView),
    Abort(Seq<char>),
}

impl View for SetupAction {
    type V = SetupActionView;

    open spec fn view(&self) -> SetupActionView {
        match self {
            SetupAction::AskConsent => SetupActionView::AskConsent,
            SetupAction::CheckExists(path) => SetupActionView::CheckExists(path@),
            SetupAction::AskDirectory => SetupActionView::AskDirectory,
            SetupAction::AskCustomPath => SetupActionView::AskCustomPath,
            SetupAction::ListDirectory(path) => SetupActionView::ListDirectory(path@),
            SetupAction::AskSubdirectory(path, names) => SetupActionView::AskSubdirectory(
                path@,
                texts(names@),
            ),
            SetupAction::UseDirectory(path, reason) => SetupActionView::UseDirectory(
                path@,
                reason@,
            ),
            SetupAction::Abort(text) => SetupActionView::Abort(text@),
        }
    }
}

/// What happened.
#[derive(Debug)]
pub enum SetupEvent {
    /// The user typed a line.
    Line(String),
    /// No line could be read. The text says why.
    Unreadable(String),
    /// Whether there is such a directory.
    Exists(bool),
    /// What the directory holds, where it could be listed.
    Listing(Option<Vec<DirectoryEntry>>),
}

/// The mathematical value of a [`SetupEvent`].
pub enum SetupEventView {
    Line(Seq<char>),
    Unreadable(Seq<char>),
    Exists(bool),
    /// The names of the directories in the directory, where it could be listed.
    Listing(Option<Seq<Seq<char>>>),
}

impl View for SetupEvent {
    type V = SetupEventView;

    open spec fn view(&self) -> SetupEventView {
        match self {
            SetupEvent::Line(line) => SetupEventView::Line(line@),
            SetupEvent::Unreadable(text) => SetupEventView::Unreadable(text@),
            SetupEvent::Exists(exists_there) => SetupEventView::Exists(*exists_there),
            SetupEvent::Listing(listing) => SetupEventView::Listing(
                match listing {
                    Some(entries) => Some(directory_names(entries@)),
                    None => None,
                },
            ),
        }
    }
}

/// What the setup waits for.
#[derive(Debug)]
pub enum SetupState {
    Consent,
    StorageCheck(FilePath),
    Selection(FilePath),
    CustomPath,
    Listing(FilePath),
    Subdirectory(FilePath, Vec<String>),
    Finished,
}

/// The mathematical value of a [`SetupState`].
pub enum SetupStateView {
    Consent,
    StorageCheck(Seq<ComponentView>),
    Selection(Seq<ComponentView>),
    CustomPath,
    Listing(Seq<ComponentView>),
    Subdirectory(Seq<ComponentView>, Seq<Seq<char>>),
    Finished,
}

impl View for SetupState {
    type V = SetupStateView;

    open spec fn view(&self) -> SetupStateView {
        match self {
            SetupState::Consent => SetupStateView::Consent,
            SetupState::StorageCheck(path) => SetupStateView::StorageCheck(path@),
            SetupState::Selection(path) => SetupStateView::Selection(path@),
            SetupState::CustomPath => SetupStateView::CustomPath,
            SetupState::Listing(path) => SetupStateView::Listing(path@),
            SetupState::Subdirectory(path, names) => SetupStateView::Subdirectory(
                path@,
                texts(names@),
            ),
            SetupState::Finished => SetupStateView::Finished,
        }
    }
}

/// The choice of the directory where files are kept.
#[derive(Debug)]
pub struct StorageSetup {
    default: FilePath,
    home: Option<FilePath>,
    windows: bool,
    state: SetupState,
}

/// The mathematical value of a [`StorageSetup`].
pub struct SetupView {
    pub default: Seq<ComponentView>,
    pub home: Option<Seq<ComponentView>>,
    pub windows: bool,
    pub state: SetupStateView,
}

impl View for StorageSetup {
    type V = SetupView;

    closed spec fn view(&self) -> SetupView {
        SetupView {
            default: self.default@,
            home: optional_path(self.home),
            windows: self.windows,
            state: self.state@,
        }
    }
}

/// A step of the setup: what it waits for afterwards, and what is to be done.
pub struct SetupStep {
    pub state: SetupStateView,
    pub action: SetupActionView,
}

/// The setup ends with a directory.
pub open spec fn settled(path: Seq<ComponentView>, reason: ReasonView) -> SetupStep {
    SetupStep {
        state: SetupStateView::Finished,
        action: SetupActionView::UseDirectory(path, reason),
    }
}

/// The setup ends without a directory.
pub open spec fn aborted(text: Seq<char>) -> SetupStep {
    SetupStep { state: SetupStateView::Finished, action: SetupActionView::Abort(text) }
}

impl SetupStateView {
    /// Whether the event can happen now.
    pub open spec fn expects(self, event: SetupEventView) -> bool {
        match self {
            SetupStateView::Consent => event is Line || event is Unreadable,
            SetupStateView::StorageCheck(_) => event is Exists,
            SetupStateView::Selection(_) => event is Line || event is Unreadable,
            SetupStateView::CustomPath => event is Line || event is Unreadable,
            SetupStateView::Listing(_) => event is Listing,
            SetupStateView::Subdirectory(_, _) => event is Line || event is Unreadable,
            SetupStateView::Finished => false,
        }
    }
}

impl SetupView {
    /// What follows from an event that can happen.
    pub open spec fn step(self, event: SetupEventView) -> SetupStep {
        match (self.state, event) {
            (SetupStateView::Consent, SetupEventView::Line(line)) => if !is_yes(line) {
                settled(self.default, ReasonView::Declined)
            } else {
                match self.home {
                    None => settled(self.default, ReasonView::NoHome),
                    Some(home) => SetupStep {
                        state: SetupStateView::StorageCheck(child_of(home, "storage"@)),
                        action: SetupActionView::CheckExists(child_of(home, "storage"@)),
                    },
                }
            },
            (SetupStateView::StorageCheck(storage), SetupEventView::Exists(there)) => if there {
                SetupStep {
                    state: SetupStateView::Selection(storage),
                    action: SetupActionView::AskDirectory,
                }
            } else {
                settled(self.default, ReasonView::NoStorage)
            },
            (SetupStateView::Selection(storage), SetupEventView::Line(line)) => match selection(
                storage,
                line,
            ) {
                SelectionView::Preset(path) => SetupStep {
                    state: SetupStateView::Listing(path),
                    action: SetupActionView::ListDirectory(path),
                },
                SelectionView::Custom => SetupStep {
                    state: SetupStateView::CustomPath,
                    action: SetupActionView::AskCustomPath,
                },
                SelectionView::InvalidNumber => settled(
                    self.default,
                    ReasonView::NotSelected(SelectionError::InvalidNumber.text()),
                ),
                SelectionView::InvalidChoice => settled(
                    self.default,
                    ReasonView::NotSelected(SelectionError::InvalidChoice.text()),
                ),
            },
            (SetupStateView::CustomPath, SetupEventView::Line(line)) => if trimmed(line).len()
                == 0 {
                settled(
                    self.default,
                    ReasonView::NotSelected(SelectionError::EmptyPath.text()),
                )
            } else {
                settled(path_of(trimmed(line), self.windows), ReasonView::Chosen)
            },
            (SetupStateView::Selection(_), SetupEventView::Unreadable(text)) => settled(
                self.default,
                ReasonView::NotSelected(text),
            ),
            (SetupStateView::CustomPath, SetupEventView::Unreadable(text)) => settled(
                self.default,
                ReasonView::NotSelected(text),
            ),
            (SetupStateView::Listing(path), SetupEventView::Listing(Some(names))) => if names.len()
                == 0 {
                settled(path, ReasonView::Chosen)
            } else {
                SetupStep {
                    state: SetupStateView::Subdirectory(path, names),
                    action: SetupActionView::AskSubdirectory(path, names),
                }
            },
            (SetupStateView::Listing(path), _) => settled(path, ReasonView::Chosen),
            (SetupStateView::Subdirectory(path, names), SetupEventView::Line(line)) =>
                match chosen_subdirectory(path, names, line, self.windows) {
                    Some(chosen) => settled(chosen, ReasonView::Chosen),
                    None => settled(path, ReasonView::Chosen),
                },
            (_, SetupEventView::Unreadable(text)) => aborted(text),
            _ => aborted(Seq::empty()),
        }
    }
}

/// Begins the choice of the directory where files are kept. Only in Termux is
/// anything asked.
pub fn get_files_dir(
    termux: bool,
    home: Option<FilePath>,
    current: Option<FilePath>,
    windows: bool,
) -> (begun: (StorageSetup, SetupAction))
    ensures
        begun.0@.default == default_dir(optional_path(home), optional_path(current)),
        begun.0@.home == optional_path(home),
        begun.0@.windows == windows,
        !termux ==> begun.0@.state is Finished && begun.1@ == SetupActionView::UseDirectory(
            default_dir(optional_path(home), optional_path(current)),
            ReasonView::NotTermux,
        ),
        termux ==> begun.0@.state is Consent && begun.1@ is AskConsent,
{
    let default: FilePath = default_files_dir(home.as_ref(), current.as_ref());
    if !termux {
        let path: FilePath = default.copy();
        let setup = StorageSetup { default, home, windows, state: SetupState::Finished };
        return (setup, SetupAction::UseDirectory(path, DirectoryReason::NotTermux));
    }
    let setup = StorageSetup { default, home, windows, state: SetupState::Consent };
    (setup, SetupAction::AskConsent)
}

impl StorageSetup {
    /// Whether the event can happen now.
    pub fn expects(&self, event: &SetupEvent) -> (expected: bool)
        ensures
            expected == self@.state.expects(event@),
    {
        match (&self.state, event) {
            (SetupState::Consent, SetupEvent::Line(_)) => true,
            (SetupState::Consent, SetupEvent::Unreadable(_)) => true,
            (SetupState::StorageCheck(_), SetupEvent::Exists(_)) => true,
            (SetupState::Selection(_), SetupEvent::Line(_)) => true,
            (SetupState::Selection(_), SetupEvent::Unreadable(_)) => true,
            (SetupState::CustomPath, SetupEvent::Line(_)) => true,
            (SetupState::CustomPath, SetupEvent::Unreadable(_)) => true,
            (SetupState::Listing(_), SetupEvent::Listing(_)) => true,
            (SetupState::Subdirectory(_, _), SetupEvent::Line(_)) => true,
            (SetupState::Subdirectory(_, _), SetupEvent::Unreadable(_)) => true,
            _ => false,
        }
    }

    fn settle(
        default: FilePath,
        home: Option<FilePath>,
        windows: bool,
        path: FilePath,
        reason: DirectoryReason,
    ) -> (next: (StorageSetup, SetupAction))
        ensures
            next.0@ == (SetupView {
                default: default@,
                home: optional_path(home),
                windows,
                state: SetupStateView::Finished,
            }),
            next.1@ == SetupActionView::UseDirectory(path@, reason@),
    {
        let setup = StorageSetup { default, home, windows, state: SetupState::Finished };
        (setup, SetupAction::UseDirectory(path, reason))
    }

    fn fall_back(
        default: FilePath,
        home: Option<FilePath>,
        windows: bool,
        reason: DirectoryReason,
    ) -> (next: (StorageSetup, SetupAction))
        ensures
            next.0@ == (SetupView {
                default: default@,
                home: optional_path(home),
                windows,
                state: SetupStateView::Finished,
            }),
            next.1@ == SetupActionView::UseDirectory(default@, reason@),
    {
        let path: FilePath = default.copy();
        StorageSetup::settle(default, home, windows, path, reason)
    }

    /// Takes note of what happened and says what is to be done next.
    pub fn step(self, event: SetupEvent) -> (next: (StorageSetup, SetupAction))
        requires
            self@.state.expects(event@),
        ensures
            next.0@.default == self@.default,
            next.0@.home == self@.home,
            next.0@.windows == self@.windows,
            (SetupStep { state: next.0@.state, action: next.1@ }) == self@.step(event@),
    {
        let StorageSetup { default, home, windows, state } = self;
        match (state, event) {
            (SetupState::Consent, SetupEvent::Line(line)) => {
                if !confirm_use_public_storage(line.as_str()) {
                    return StorageSetup::fall_back(default, home, windows, DirectoryReason::Declined);
                }
                let storage: FilePath = match &home {
                    None => {
                        return StorageSetup::fall_back(default, None, windows, DirectoryReason::NoHome);
                    },
                    Some(h) => h.child("storage"),
                };
                let looked_up: FilePath = storage.copy();
                let setup = StorageSetup { default, home, windows, state: SetupState::StorageCheck(storage) };
                (setup, SetupAction::CheckExists(looked_up))
            },
            (SetupState::StorageCheck(storage), SetupEvent::Exists(there)) => {
                if there {
                    let setup = StorageSetup {
                        default,
                        home,
                        windows,
                        state: SetupState::Selection(storage),
                    };
                    (setup, SetupAction::AskDirectory)
                } else {
                    StorageSetup::fall_back(default, home, windows, DirectoryReason::NoStorage)
                }
            },
            (SetupState::Selection(storage), SetupEvent::Line(line)) => {
                match select_preset_or_custom_directory(&storage, line.as_str()) {
                    Ok(SelectedDir::Preset(path)) => {
                        let listed: FilePath = path.copy();
                        let setup = StorageSetup { default, home, windows, state: SetupState::Listing(path) };
                        (setup, SetupAction::ListDirectory(listed))
                    },
                    Ok(SelectedDir::Custom) => {
                        let setup = StorageSetup { default, home, windows, state: SetupState::CustomPath };
                        (setup, SetupAction::AskCustomPath)
                    },
                    Err(error) => StorageSetup::fall_back(
                        default,
                        home,
                        windows,
                        DirectoryReason::NotSelected(error),
                    ),
                }
            },
            (SetupState::CustomPath, SetupEvent::Line(line)) => {
                match custom_directory(line.as_str(), windows) {
                    Ok(path) => StorageSetup::settle(default, home, windows, path, DirectoryReason::Chosen),
                    Err(error) => StorageSetup::fall_back(
                        default,
                        home,
                        windows,
                        DirectoryReason::NotSelected(error),
                    ),
                }
            },
            (SetupState::Selection(_), SetupEvent::Unreadable(text)) => StorageSetup::fall_back(
                default,
                home,
                windows,
                DirectoryReason::NotSelected(SelectionError::Unreadable(text)),
            ),
            (SetupState::CustomPath, SetupEvent::Unreadable(text)) => StorageSetup::fall_back(
                default,
                home,
                windows,
                DirectoryReason::NotSelected(SelectionError::Unreadable(text)),
            ),
            (SetupState::Listing(path), SetupEvent::Listing(Some(entries))) => {
                let names: Vec<String> = subdirectories(&entries);
                assert(texts(names@).len() == names@.len());
                if names.len() == 0 {
                    return StorageSetup::settle(default, home, windows, path, DirectoryReason::Chosen);
                }
                let shown_path: FilePath = path.copy();
                let shown_names: Vec<String> = subdirectories(&entries);
                let setup = StorageSetup {
                    default,
                    home,
                    windows,
                    state: SetupState::Subdirectory(path, names),
                };
                (setup, SetupAction::AskSubdirectory(shown_path, shown_names))
            },
            (SetupState::Listing(path), _) => StorageSetup::settle(
                default,
                home,
                windows,
                path,
                DirectoryReason::Chosen,
            ),
            (SetupState::Subdirectory(path, names), SetupEvent::Line(line)) => {
                match choose_subdirectory(&path, &names, line.as_str(), windows) {
                    Some(chosen) => StorageSetup::settle(
                        default,
                        home,
                        windows,
                        chosen,
                        DirectoryReason::Chosen,
                    ),
                    None => StorageSetup::settle(default, home, windows, path, DirectoryReason::Chosen),
                }
            },
            (_, SetupEvent::Unreadable(text)) => {
                let setup = StorageSetup { default, home, windows, state: SetupState::Finished };
                (setup, SetupAction::Abort(text))
            },
            _ => {
                let setup = StorageSetup { default, home, windows, state: SetupState::Finished };
                (setup, SetupAction::Abort(String::new()))
            },
        }
    }
}

/// Whether the path is that of a public directory of the phone.
pub open spec fn is_preset_path(home: Option<Seq<ComponentView>>, path: Seq<ComponentView>) -> bool {
    home matches Some(h) && exists|i: int|
        0 <= i < preset_dirs().len() && path == child_of(
            child_of(h, "storage"@),
            (#[trigger] preset_dirs()[i]).1,
        )
}

impl SetupView {
    /// What holds of a setup whenever it waits for something.
    pub open spec fn inv(self) -> bool {
        match self.state {
            SetupStateView::StorageCheck(path) => self.home matches Some(h) && path == child_of(
                h,
                "storage"@,
            ),
            SetupStateView::Selection(path) => self.home matches Some(h) && path == child_of(
                h,
                "storage"@,
            ),
            SetupStateView::Listing(path) => is_preset_path(self.home, path),
            SetupStateView::Subdirectory(path, _) => is_preset_path(self.home, path),
            _ => true,
        }
    }

    /// The most events that can still happen.
    pub open spec fn rank(self) -> nat {
        match self.state {
            SetupStateView::Consent => 5,
            SetupStateView::StorageCheck(_) => 4,
            SetupStateView::Selection(_) => 3,
            SetupStateView::Listing(_) => 2,
            SetupStateView::CustomPath => 1,
            SetupStateView::Subdirectory(_, _) => 1,
            SetupStateView::Finished => 0,
        }
    }

    /// This setup waiting for something else.
    pub open spec fn at(self, state: SetupStateView) -> SetupView {
        SetupView { default: self.default, home: self.home, windows: self.windows, state }
    }
}

/// The setup comes to an end: each event leaves fewer that can still happen, and
/// it ends when, and only when, it says which directory to use or that there is
/// none.
pub proof fn lemma_setup_ends(setup: SetupView, event: SetupEventView)
    requires
        setup.state.expects(event),
    ensures
        setup.at(setup.step(event).state).rank() < setup.rank(),
        setup.step(event).state is Finished <==> (setup.step(event).action is UseDirectory
            || setup.step(event).action is Abort),
{
}

/// Files go to the default directory unless the user chose another, and a
/// directory that was chosen is a public directory of the phone, one that was
/// found in such a directory, or the one whose path was typed.
pub proof fn lemma_setup_outcome(setup: SetupView, event: SetupEventView)
    requires
        setup.inv(),
        setup.state.expects(event),
    ensures
        setup.at(setup.step(event).state).inv(),
        setup.step(event).action matches SetupActionView::UseDirectory(path, reason) ==> {
            &&& !(reason is Chosen) ==> path == setup.default
            &&& reason is Chosen ==> {
                ||| is_preset_path(setup.home, path)
                ||| setup.state matches SetupStateView::Subdirectory(dir, names) && is_preset_path(
                    setup.home,
                    dir,
                ) && exists|i: int|
                    0 <= i < names.len() && path == joined(
                        dir,
                        #[trigger] names[i],
                        setup.windows,
                    )
                ||| event matches SetupEventView::Line(line) && setup.state is CustomPath && path
                    == path_of(trimmed(line), setup.windows)
            }
        },
{
    match (setup.state, event) {
        (SetupStateView::Selection(storage), SetupEventView::Line(line)) => {
            if let SelectionView::Preset(path) = selection(storage, line) {
                let number = parsed_usize(trimmed(line)).unwrap();
                assert(path == child_of(storage, preset_dirs()[number - 1].1));
                assert(is_preset_path(setup.home, path));
            }
        },
        (SetupStateView::Subdirectory(dir, names), SetupEventView::Line(line)) => {
            if let Some(path) = chosen_subdirectory(dir, names, line, setup.windows) {
                let number = parsed_usize(trimmed(line)).unwrap();
                assert(path == joined(dir, names[number - 1], setup.windows));
            }
        },
        _ => {},
    }
}

/// The number that a menu shows beside a directory selects that directory.
pub proof fn lemma_menu_number_selects(
    dir: Seq<ComponentView>,
    names: Seq<Seq<char>>,
    number: nat,
    windows: bool,
)
    requires
        1 <= number <= usize::MAX,
    ensures
        number <= names.len() ==> chosen_subdirectory(dir, names, decimal(number), windows) == Some(
            joined(dir, names[number - 1], windows),
        ),
        number > names.len() ==> chosen_subdirectory(dir, names, decimal(number), windows) is None,
        number <= preset_dirs().len() ==> selection(dir, decimal(number)) == SelectionView::Preset(
            child_of(dir, preset_dirs()[number - 1].1),
        ),
        number == preset_dirs().len() + 1 ==> selection(dir, decimal(number))
            == SelectionView::Custom,
        number > preset_dirs().len() + 1 ==> selection(dir, decimal(number))
            == SelectionView::InvalidChoice,
{
    lemma_number_read_back(number);
}

/// Whether a line is a text with white space around it.
pub open spec fn types(line: Seq<char>, before: Seq<char>, text: Seq<char>, after: Seq<char>) -> bool {
    &&& line == before + text + after
    &&& forall|i: int| 0 <= i < before.len() ==> is_white_space(#[trigger] before[i])
    &&& forall|i: int| 0 <= i < after.len() ==> is_white_space(#[trigger] after[i])
    &&& text.len() > 0 ==> !is_white_space(text[0]) && !is_white_space(text.last())
}

/// Only `y` and `yes`, in small letters and with white space around them or none, are a yes.
pub proof fn lemma_yes_as_typed(
    line: Seq<char>,
    before: Seq<char>,
    text: Seq<char>,
    after: Seq<char>,
)
    requires
        types(line, before, text, after),
    ensures
        is_yes(line) == (text == "y"@ || text == "yes"@),
{
    lemma_trimmed_between(before, text, after);
}

/// The program runs in Termux where its version is set, and otherwise where the prefix of the
/// installation holds the name of Termux, whatever stands around that. Without either it
/// does not.
pub proof fn lemma_termux(before: Seq<char>, after: Seq<char>, prefix: Option<Seq<char>>)
    ensures
        runs_in_termux(true, prefix),
        runs_in_termux(false, Some(before + "com.termux"@ + after)),
        !runs_in_termux(false, None),
        runs_in_termux(false, prefix) ==> (prefix matches Some(p) && p.len() >= 10),
        prefix matches Some(p) && !has_part(p, "com.termux"@) ==> !runs_in_termux(false, prefix),
{
    reveal_strlit("com.termux");
    lemma_part_between(before, "com.termux"@, after, before);
}

/// Files are kept in `rushdrop_data/files` in the home of the user, whatever the current
/// directory is, and without a home in `files` in the current directory.
pub proof fn lemma_default_directory(
    home: Seq<ComponentView>,
    current: Seq<ComponentView>,
    either: Option<Seq<ComponentView>>,
)
    ensures
        default_dir(Some(home), either) == opened(home).push(
            ComponentView::Normal("rushdrop_data"@),
        ).push(ComponentView::Normal("files"@)),
        default_dir(None, Some(current)) == opened(current).push(ComponentView::Normal("files"@)),
        default_dir(None, None) == seq![ComponentView::CurDir, ComponentView::Normal("files"@)],
{
    if home.len() == 0 {
        assert(child_of(home, "rushdrop_data"@)[0] == ComponentView::Normal("rushdrop_data"@));
    }
}

/// A menu begins with its heading. It shows every name behind its number, in order and
/// numbered from one, and behind all of them the other choice with the next number.
pub proof fn lemma_menu_shows(heading: Seq<char>, names: Seq<Seq<char>>, other: Seq<char>, i: int)
    requires
        0 <= i < names.len(),
    ensures
        heading.is_prefix_of(menu(heading, names, other)),
        has_part(
            menu(heading, names, other),
            "  "@ + decimal((i + 1) as nat) + ". "@ + names[i] + "\n"@,
        ),
        ("  "@ + decimal(names.len() + 1) + ". "@ + other + "\n"@).is_suffix_of(
            menu(heading, names, other),
        ),
        menu_lines(names.push(other)) == menu_lines(names) + "  "@ + decimal(names.len() + 1)
            + ". "@ + other + "\n"@,
{
    let all = names.push(other);
    assert(all.drop_last() == names);
    let last = "  "@ + decimal(names.len() + 1) + ". "@ + other + "\n"@;
    assert(last == menu_line(names.len() + 1, other));
    let shown = menu(heading, names, other);
    assert(menu_lines(all) == menu_lines(names) + last);
    assert(shown == (heading + menu_lines(names)) + last);
    assert(shown.skip(shown.len() - last.len()) == last);
    assert(menu_lines(names) + last == menu_lines(names) + "  "@ + decimal(names.len() + 1)
        + ". "@ + other + "\n"@);
    let line = "  "@ + decimal((i + 1) as nat) + ". "@ + names[i] + "\n"@;
    let rest = lemma_menu_line_among(names, i);
    let before = heading + menu_lines(names.take(i));
    assert(shown == before + line + (rest + last));
    lemma_part_between(before, line, rest + last, before);
}

proof fn lemma_menu_line_among(names: Seq<Seq<char>>, i: int) -> (rest: Seq<char>)
    requires
        0 <= i < names.len(),
    ensures
        menu_lines(names) == menu_lines(names.take(i)) + ("  "@ + decimal((i + 1) as nat) + ". "@
            + names[i] + "\n"@) + rest,
    decreases names.len(),
{
    let before = names.drop_last();
    let line = "  "@ + decimal((i + 1) as nat) + ". "@ + names[i] + "\n"@;
    if i == names.len() - 1 {
        assert(names.take(i) == before);
        assert(line == menu_line(names.len(), names.last()));
        let rest = Seq::<char>::empty();
        assert(menu_lines(names) == menu_lines(before) + line + rest);
        rest
    } else {
        assert(before.take(i) == names.take(i));
        let shorter = lemma_menu_line_among(before, i);
        let rest = shorter + menu_line(names.len(), names.last());
        assert(menu_lines(names) == menu_lines(names.take(i)) + line + rest);
        rest
    }
}

/// The names of the directories among the entries are those of the entries that are
/// directories, one for each and in the same order: where the entries are taken in two
/// parts, so are the names.
pub proof fn lemma_directories_among(
    entries: Seq<DirectoryEntry>,
    more: Seq<DirectoryEntry>,
    entry: DirectoryEntry,
)
    ensures
        directory_names(entries + more) == directory_names(entries) + directory_names(more),
        entry.is_dir ==> directory_names(seq![entry]) == seq![entry.name@],
        !entry.is_dir ==> directory_names(seq![entry]).len() == 0,
    decreases more.len(),
{
    if more.len() > 0 {
        lemma_directories_among(entries, more.drop_last(), entry);
        assert((entries + more).drop_last() == entries + more.drop_last());
        assert((entries + more).last() == more.last());
    } else {
        assert(entries + more == entries);
    }
    let none = Seq::<DirectoryEntry>::empty();
    assert(seq![entry].drop_last() == none);
    assert(directory_names(none) == Seq::<Seq<char>>::empty());
    assert(seq![entry].last() == entry);
    assert(entry.is_dir ==> directory_names(seq![entry]) == Seq::<Seq<char>>::empty().push(
        entry.name@,
    ));
}

/// A public directory is called by its name under the storage directory, but for the case of
/// the letters.
pub proof fn lemma_presets_called_by_name(i: int)
    requires
        0 <= i < preset_dirs().len(),
    ensures
        preset_dirs().len() == 5,
        ascii_lowered(preset_dirs()[i].0) == preset_dirs()[i].1,
        preset_names().len() == 5,
        preset_names()[i] == preset_dirs()[i].0,
{
    reveal_strlit("Pictures");
    reveal_strlit("pictures");
    reveal_strlit("DCIM");
    reveal_strlit("dcim");
    reveal_strlit("Downloads");
    reveal_strlit("downloads");
    reveal_strlit("Music");
    reveal_strlit("music");
    reveal_strlit("Movies");
    reveal_strlit("movies");
    assert(ascii_lowered("Pictures"@) == "pictures"@);
    assert(ascii_lowered("DCIM"@) == "dcim"@);
    assert(ascii_lowered("Downloads"@) == "downloads"@);
    assert(ascii_lowered("Music"@) == "music"@);
    assert(ascii_lowered("Movies"@) == "movies"@);
}

/// A number that is typed, with a plus sign or without, with leading zeros or without, and
/// with white space around it or none, selects by its value: from one to five a public
/// directory of the phone, six a path to be typed, and every other number nothing. In the
/// menu of the directories in a directory, it selects the one of that number.
pub proof fn lemma_typed_number_selects(
    dir: Seq<ComponentView>,
    names: Seq<Seq<char>>,
    line: Seq<char>,
    before: Seq<char>,
    text: Seq<char>,
    digits: Seq<char>,
    after: Seq<char>,
    windows: bool,
)
    requires
        types(line, before, text, after),
        all_digits(digits),
        text == digits || text == seq!['+'] + digits,
        digits_value(digits) <= usize::MAX,
    ensures
        ({
            let number = digits_value(digits);
            &&& selection(dir, line) == (if number == 1 {
                SelectionView::Preset(child_of(dir, "pictures"@))
            } else if number == 2 {
                SelectionView::Preset(child_of(dir, "dcim"@))
            } else if number == 3 {
                SelectionView::Preset(child_of(dir, "downloads"@))
            } else if number == 4 {
                SelectionView::Preset(child_of(dir, "music"@))
            } else if number == 5 {
                SelectionView::Preset(child_of(dir, "movies"@))
            } else if number == 6 {
                SelectionView::Custom
            } else {
                SelectionView::InvalidChoice
            })
            &&& 1 <= number <= names.len() ==> chosen_subdirectory(dir, names, line, windows)
                == Some(joined(dir, names[number - 1], windows))
            &&& number == 0 || number > names.len() ==> chosen_subdirectory(
                dir,
                names,
                line,
                windows,
            ) is None
        }),
{
    lemma_trimmed_between(before, text, after);
    lemma_number_as_typed(digits, 'a', text);
    assert(preset_dirs().len() == 5);
}

/// A line that is no number, or one too large for the machine, selects nothing in either
/// menu.
pub proof fn lemma_typed_text_selects_nothing(
    dir: Seq<ComponentView>,
    names: Seq<Seq<char>>,
    line: Seq<char>,
    before: Seq<char>,
    text: Seq<char>,
    after: Seq<char>,
    windows: bool,
)
    requires
        types(line, before, text, after),
        ({
            ||| text.len() == 0
            ||| exists|i: int| 0 < i < text.len() && !is_digit(#[trigger] text[i])
            ||| !is_digit(text[0]) && text[0] != '+'
            ||| text == seq!['+']
            ||| all_digits(text) && digits_value(text) > usize::MAX
        }),
    ensures
        selection(dir, line) == SelectionView::InvalidNumber,
        chosen_subdirectory(dir, names, line, windows) is None,
{
    lemma_trimmed_between(before, text, after);
    let one = seq!['0'];
    assert(all_digits(one));
    lemma_number_as_typed(one, 'a', text);
    if all_digits(text) {
        assert(is_digit(text[0]));
        lemma_number_as_typed(text, 'a', text);
    } else if parsed_number(text) is Some {
        assert(text[0] == '+');
        assert(is_digit(text.skip(1)[0]));
    }
}

/// Unless the user says yes, has a home, and the phone gives access to its storage, files go
/// to the default directory. With all three the user is asked for a directory in the
/// storage directory in that home.
pub proof fn lemma_setup_begins(setup: SetupView, line: Seq<char>)
    requires
        setup.state is Consent,
    ensures
        ({
            let asked = setup.step(SetupEventView::Line(line));
            let next = setup.at(asked.state);
            &&& !is_yes(line) ==> asked.action == SetupActionView::UseDirectory(
                setup.default,
                ReasonView::Declined,
            )
            &&& is_yes(line) && setup.home is None ==> asked.action
                == SetupActionView::UseDirectory(setup.default, ReasonView::NoHome)
            &&& is_yes(line) ==> (setup.home matches Some(home) ==> {
                let storage = opened(home).push(ComponentView::Normal("storage"@));
                let there = next.step(SetupEventView::Exists(true));
                &&& asked.action == SetupActionView::CheckExists(storage)
                &&& there.action == SetupActionView::AskDirectory
                &&& there.state == SetupStateView::Selection(storage)
                &&& next.step(SetupEventView::Exists(false)).action
                    == SetupActionView::UseDirectory(setup.default, ReasonView::NoStorage)
            })
        }),
{
}

/// A public directory that was selected is listed. Files go to it where it cannot be listed
/// or holds no directory, and otherwise the user is asked for one of the directories in
/// it. Files go to the one that is chosen, and to the public directory itself where none is.
pub proof fn lemma_setup_goes_into_directory(
    setup: SetupView,
    storage: Seq<ComponentView>,
    path: Seq<ComponentView>,
    names: Seq<Seq<char>>,
    line: Seq<char>,
    number: Seq<char>,
)
    requires
        setup.state == SetupStateView::Selection(storage),
        selection(storage, line) == SelectionView::Preset(path),
        names.len() > 0,
    ensures
        ({
            let selected = setup.step(SetupEventView::Line(line));
            let next = setup.at(selected.state);
            let listed = next.step(SetupEventView::Listing(Some(names)));
            let last = setup.at(listed.state);
            let used = SetupActionView::UseDirectory(path, ReasonView::Chosen);
            &&& selected.action == SetupActionView::ListDirectory(path)
            &&& next.step(SetupEventView::Listing(None)).action == used
            &&& next.step(SetupEventView::Listing(Some(Seq::empty()))).action == used
            &&& listed.action == SetupActionView::AskSubdirectory(path, names)
            &&& match chosen_subdirectory(path, names, number, setup.windows) {
                Some(chosen) => last.step(SetupEventView::Line(number)).action
                    == SetupActionView::UseDirectory(chosen, ReasonView::Chosen),
                None => last.step(SetupEventView::Line(number)).action == used,
            }
        }),
{
}

/// A path that is typed is the one that files go to, without the white space around it.
/// An empty one is refused, and files go to the default directory, as they do where
/// nothing was selected. The reason says what was wrong.
pub proof fn lemma_setup_custom_path(
    setup: SetupView,
    storage: Seq<ComponentView>,
    line: Seq<char>,
    before: Seq<char>,
    text: Seq<char>,
    after: Seq<char>,
)
    requires
        types(line, before, text, after),
    ensures
        setup.state == SetupStateView::Selection(storage) && selection(storage, line)
            == SelectionView::Custom ==> setup.step(SetupEventView::Line(line)).action
            == SetupActionView::AskCustomPath && setup.step(SetupEventView::Line(line)).state
            == SetupStateView::CustomPath,
        setup.state is CustomPath && text.len() > 0 ==> setup.step(
            SetupEventView::Line(line),
        ).action == SetupActionView::UseDirectory(path_of(text, setup.windows), ReasonView::Chosen),
        setup.state is CustomPath && text.len() == 0 ==> setup.step(
            SetupEventView::Line(line),
        ).action == SetupActionView::UseDirectory(
            setup.default,
            ReasonView::NotSelected("路径为空"@),
        ),
        setup.state == SetupStateView::Selection(storage) && selection(storage, line)
            == SelectionView::InvalidNumber ==> setup.step(SetupEventView::Line(line)).action
            == SetupActionView::UseDirectory(
            setup.default,
            ReasonView::NotSelected("无效数字"@),
        ),
        setup.state == SetupStateView::Selection(storage) && selection(storage, line)
            == SelectionView::InvalidChoice ==> setup.step(SetupEventView::Line(line)).action
            == SetupActionView::UseDirectory(
            setup.default,
            ReasonView::NotSelected("无效编号"@),
        ),
{
    lemma_trimmed_between(before, text, after);
}

/// Where nothing can be read, the setup gives up, with the reason that came, if it was the
/// consent or one of the directories in a directory that was asked for. Where a directory or
/// a path was asked for, files go to the default directory.
pub proof fn lemma_setup_unreadable(setup: SetupView, text: Seq<char>)
    requires
        setup.state.expects(SetupEventView::Unreadable(text)),
    ensures
        setup.step(SetupEventView::Unreadable(text)).action == (if setup.state is Consent
            || setup.state is Subdirectory {
            SetupActionView::Abort(text)
        } else {
            SetupActionView::UseDirectory(setup.default, ReasonView::NotSelected(text))
        }),
{
}

/// The setup waits for what it was told to do, and for nothing once it is over.
pub proof fn lemma_setup_waits_for_answer(
    setup: SetupView,
    event: SetupEventView,
    answer: SetupEventView,
)
    requires
        setup.state.expects(event),
    ensures
        setup.step(event).state.expects(answer) == match setup.step(event).action {
            SetupActionView::AskConsent => answer is Line || answer is Unreadable,
            SetupActionView::CheckExists(_) => answer is Exists,
            SetupActionView::AskDirectory => answer is Line || answer is Unreadable,
            SetupActionView::AskCustomPath => answer is Line || answer is Unreadable,
            SetupActionView::ListDirectory(_) => answer is Listing,
            SetupActionView::AskSubdirectory(_, _) => answer is Line || answer is Unreadable,
            SetupActionView::UseDirectory(_, _) => false,
            SetupActionView::Abort(_) => false,
        },
{
}

/// What is said of a selection and of an optional path is what it holds.
pub proof fn lemma_selected_path(path: FilePath)
    ensures
        optional_path(Some(path)) == Some(path@),
        optional_path(None) is None,
        optional_path_ref(Some(&path)) == Some(path@),
        optional_path_ref(None) is None,
        selection_view(Ok(SelectedDir::Preset(path))) == Some(SelectionView::Preset(path@)),
        selection_view(Ok(SelectedDir::Custom)) == Some(SelectionView::Custom),
        selection_view(Err(SelectionError::InvalidNumber)) == Some(SelectionView::InvalidNumber),
        selection_view(Err(SelectionError::InvalidChoice)) == Some(SelectionView::InvalidChoice),
{
}

/// What the setup makes of a listing is the names of the directories in it, and of a line the
/// line itself.
pub proof fn lemma_setup_sees(event: SetupEvent)
    ensures
        event matches SetupEvent::Line(line) ==> event@ == SetupEventView::Line(line@),
        event matches SetupEvent::Unreadable(text) ==> event@ == SetupEventView::Unreadable(text@),
        event matches SetupEvent::Listing(Some(entries)) ==> event@ == SetupEventView::Listing(
            Some(directory_names(entries@)),
        ),
        event matches SetupEvent::Listing(None) ==> event@ == SetupEventView::Listing(None),
{
}

} // verus!
