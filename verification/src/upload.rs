//! Receiving the files of an upload.
//!
//! An [`UploadSession`] decides what is done next with a form: it is told what
//! happened and answers with the next thing to do. Reading the form and writing
//! the files is left to the caller.

use vstd::prelude::*;

use crate::error::{AppError, MulterError};
use crate::naming::{
    can_infer, ends_in_name, generate_filename_from_field, lemma_clean_name_stored,
    lemma_content_adds_extension, lemma_extension_kept, lemma_media_type_adds_extension,
    lemma_upload_stays_in_base, names_no_extension, stored_name, upload_path, FieldInfo,
};
use crate::outside::{
    can_be_inferred, form_boundary, inferred_extension, is_clean_file_name, is_dots,
    listed_extensions, parse_boundary,
};
use crate::path::{child_of, joined, opened, parent_of, ComponentView, FilePath};
use crate::progress::{
    entered, left, updated, ProgressEntry, ProgressMap, UploadMeter, UPDATE_THRESHOLD,
};
use crate::text::ascii_lowered;

verus! {

/// The largest form that is accepted, and the largest field in one, in bytes.
pub const UPLOAD_SIZE_LIMIT: u64 = 1073741824;

/// Whether a byte of a header's value is a visible ASCII character, a space or a
/// tab.
pub open spec fn is_header_text_byte(byte: u8) -> bool {
    32 <= byte < 127 || byte == 9
}

/// Whether a header's value is text.
pub open spec fn is_header_text(value: Seq<u8>) -> bool {
    forall|i: int| 0 <= i < value.len() ==> is_header_text_byte(#[trigger] value[i])
}

/// The text of a header's value.
pub open spec fn header_text(value: Seq<u8>) -> Seq<char> {
    value.map_values(|byte: u8| byte as char)
}

/// The text of a header's value, where it is text.
fn header_to_str(value: &Vec<u8>) -> (text: Option<String>)
    ensures
        match text {
            Some(t) => is_header_text(value@) && t@ == header_text(value@),
            None => !is_header_text(value@),
        },
{
    let mut out = String::new();
    let mut i: usize = 0;
    while i < value.len()
        invariant
            i <= value@.len(),
            forall|j: int| 0 <= j < i ==> is_header_text_byte(#[trigger] value@[j]),
            out@ == header_text(value@.take(i as int)),
        decreases value@.len() - i,
    {
        let byte: u8 = value[i];
        if !(32 <= byte && byte < 127 || byte == 9) {
            assert(!is_header_text_byte(value@[i as int]));
            return None;
        }
        out.push(byte as char);
        assert(header_text(value@.take(i as int + 1)) == header_text(value@.take(i as int)).push(
            byte as char,
        ));
        i = i + 1;
    }
    assert(value@.take(value@.len() as int) == value@);
    Some(out)
}

/// The boundary that was read, or the error that an upload then fails with.
pub fn boundary_or_error(boundary: Result<String, String>) -> (out: Result<String, AppError>)
    ensures
        match boundary {
            Ok(b) => out matches Ok(o) && o@ == b@,
            Err(text) => out matches Err(AppError::MulterError(MulterError::Other(t))) && t@
                == text@,
        },
{
    match boundary {
        Ok(b) => Ok(b),
        Err(text) => Err(AppError::MulterError(MulterError::Other(text))),
    }
}

/// The boundary between the fields of an upload, from its `Content-Type` header.
pub fn upload_boundary(content_type: Option<&Vec<u8>>) -> (boundary: Result<String, AppError>)
    ensures
        match content_type {
            None => boundary matches Err(AppError::MissingContentType),
            Some(value) => if !is_header_text(value@) {
                boundary matches Err(AppError::InvalidContentType(text)) && text@
                    == "failed to convert header to a str"@
            } else {
                match form_boundary(header_text(value@)) {
                    Ok(b) => boundary matches Ok(text) && text@ == b,
                    Err(e) => boundary matches Err(AppError::MulterError(MulterError::Other(text)))
                        && text@ == e,
                }
            },
        },
{
    match content_type {
        None => Err(AppError::MissingContentType),
        Some(value) => match header_to_str(value) {
            None => Err(
                AppError::InvalidContentType("failed to convert header to a str".to_owned()),
            ),
            Some(text) => boundary_or_error(parse_boundary(text.as_str())),
        },
    }
}

/// The page that answers an upload.
pub open spec fn upload_page() -> Seq<char> {
    "<p>上传成功</p><p><a href='/'>返回首页</a></p>"@
}

/// Where an upload stands.
#[derive(Debug)]
pub enum UploadState {
    /// The next field of the form is to come.
    AwaitingField,
    /// The content of a field is to tell its name.
    AwaitingFirstChunk { field: FieldInfo, now_millis: u128 },
    /// The file of a field is being created. What was read of it is yet to be
    /// written.
    CreatingFile { entry: ProgressEntry, pending: Option<Vec<u8>> },
    /// More of a file is to come.
    AwaitingChunk { entry: ProgressEntry, meter: UploadMeter },
    /// That many bytes of a file are being written.
    WritingChunk { entry: ProgressEntry, meter: UploadMeter, bytes: usize },
    /// The file is complete and being flushed.
    FlushingFile { entry: ProgressEntry, meter: UploadMeter },
    /// The upload is answered.
    Finished,
}

/// The mathematical value of an [`UploadState`].
pub enum UploadStateView {
    AwaitingField,
    AwaitingFirstChunk { field: FieldInfo, now_millis: nat },
    CreatingFile { name: Seq<char>, pending: Option<Seq<u8>> },
    AwaitingChunk { name: Seq<char>, total: usize, shown: usize },
    WritingChunk { name: Seq<char>, total: usize, shown: usize, bytes: usize },
    FlushingFile { name: Seq<char>, total: usize },
    Finished,
}

impl View for UploadState {
    type V = UploadStateView;

    open spec fn view(&self) -> UploadStateView {
        match self {
            UploadState::AwaitingField => UploadStateView::AwaitingField,
            UploadState::AwaitingFirstChunk { field, now_millis } =>
                UploadStateView::AwaitingFirstChunk { field: *field, now_millis: *now_millis as nat },
            UploadState::CreatingFile { entry, pending } => UploadStateView::CreatingFile {
                name: entry.filename@,
                pending: match pending {
                    Some(bytes) => Some(bytes@),
                    None => None,
                },
            },
            UploadState::AwaitingChunk { entry, meter } => UploadStateView::AwaitingChunk {
                name: entry.filename@,
                total: meter.total,
                shown: meter.last_updated,
            },
            UploadState::WritingChunk { entry, meter, bytes } => UploadStateView::WritingChunk {
                name: entry.filename@,
                total: meter.total,
                shown: meter.last_updated,
                bytes: *bytes,
            },
            UploadState::FlushingFile { entry, meter } => UploadStateView::FlushingFile {
                name: entry.filename@,
                total: meter.total,
            },
            UploadState::Finished => UploadStateView::Finished,
        }
    }
}

/// What happened.
#[derive(Debug)]
pub enum UploadEvent {
    /// A field came, at that time.
    Field { field: FieldInfo, now_millis: u128 },
    /// The form has no more fields.
    FormEnd,
    /// Content of the field came.
    Chunk(Vec<u8>),
    /// The field has no more content.
    FieldEnd,
    /// The file was created.
    Created,
    /// The content was written.
    Written,
    /// The file was flushed.
    Flushed,
    /// What was to be done failed.
    Failed(AppError),
}

/// The mathematical value of an [`UploadEvent`].
pub enum UploadEventView {
    Field { field: FieldInfo, now_millis: nat },
    FormEnd,
    Chunk(Seq<u8>),
    FieldEnd,
    Created,
    Written,
    Flushed,
    Failed(AppError),
}

impl View for UploadEvent {
    type V = UploadEventView;

    open spec fn view(&self) -> UploadEventView {
        match self {
            UploadEvent::Field { field, now_millis } => UploadEventView::Field {
                field: *field,
                now_millis: *now_millis as nat,
            },
            UploadEvent::FormEnd => UploadEventView::FormEnd,
            UploadEvent::Chunk(bytes) => UploadEventView::Chunk(bytes@),
            UploadEvent::FieldEnd => UploadEventView::FieldEnd,
            UploadEvent::Created => UploadEventView::Created,
            UploadEvent::Written => UploadEventView::Written,
            UploadEvent::Flushed => UploadEventView::Flushed,
            UploadEvent::Failed(error) => UploadEventView::Failed(*error),
        }
    }
}

/// What is to be done next.
#[derive(Debug)]
pub enum UploadAction {
    /// Read the head of the next field.
    NextField,
    /// Read more of the content of the field.
    ReadChunk,
    /// Create the file.
    CreateFile(FilePath),
    /// Write the content to the file.
    WriteChunk(Vec<u8>),
    /// Flush the file.
    Flush,
    /// Answer with the page.
    Succeed(String),
    /// Answer with the error.
    Fail(AppError),
}

/// The mathematical value of an [`UploadAction`].
pub enum UploadActionView {
    NextField,
    ReadChunk,
    CreateFile(Seq<ComponentView>),
    WriteChunk(Seq<u8>),
    Flush,
    Succeed(Seq<char>),
    Fail(AppError),
}

impl View for UploadAction {
    type V = UploadActionView;

    open spec fn view(&self) -> UploadActionView {
        match self {
            UploadAction::NextField => UploadActionView::NextField,
            UploadAction::ReadChunk => UploadActionView::ReadChunk,
            UploadAction::CreateFile(path) => UploadActionView::CreateFile(path@),
            UploadAction::WriteChunk(bytes) => UploadActionView::WriteChunk(bytes@),
            UploadAction::Flush => UploadActionView::Flush,
            UploadAction::Succeed(page) => UploadActionView::Succeed(page@),
            UploadAction::Fail(error) => UploadActionView::Fail(*error),
        }
    }
}

/// One upload: where its files go, the rules for their names, and where it
/// stands.
#[derive(Debug)]
pub struct UploadSession {
    base: FilePath,
    windows: bool,
    state: UploadState,
}

/// The mathematical value of an [`UploadSession`].
pub struct UploadView {
    pub base: Seq<ComponentView>,
    pub windows: bool,
    pub state: UploadStateView,
}

impl View for UploadSession {
    type V = UploadView;

    closed spec fn view(&self) -> UploadView {
        UploadView { base: self.base@, windows: self.windows, state: self.state@ }
    }
}

impl UploadStateView {
    /// The file that is being received.
    pub open spec fn name(self) -> Option<Seq<char>> {
        match self {
            UploadStateView::CreatingFile { name, .. } => Some(name),
            UploadStateView::AwaitingChunk { name, .. } => Some(name),
            UploadStateView::WritingChunk { name, .. } => Some(name),
            UploadStateView::FlushingFile { name, .. } => Some(name),
            _ => None,
        }
    }

    /// The bytes of the file that were written.
    pub open spec fn total(self) -> usize {
        match self {
            UploadStateView::AwaitingChunk { total, .. } => total,
            UploadStateView::WritingChunk { total, .. } => total,
            UploadStateView::FlushingFile { total, .. } => total,
            _ => 0,
        }
    }

    /// What is shown lags behind by less than the threshold, and the count of
    /// bytes fits the machine.
    pub open spec fn wf(self) -> bool {
        match self {
            UploadStateView::AwaitingChunk { total, shown, .. } => shown <= total < shown
                + UPDATE_THRESHOLD,
            UploadStateView::WritingChunk { total, shown, bytes, .. } => {
                &&& shown <= total < shown + UPDATE_THRESHOLD
                &&& total + bytes <= usize::MAX
            },
            _ => true,
        }
    }

    /// Whether the event can happen in this state. The bytes of a file must be
    /// few enough to be counted, and content that tells a name must be such that it
    /// can be looked at on this machine.
    pub open spec fn expects(self, event: UploadEventView) -> bool {
        match (self, event) {
            (UploadStateView::Finished, _) => false,
            (_, UploadEventView::Failed(_)) => true,
            (UploadStateView::AwaitingField, UploadEventView::Field { .. }) => true,
            (UploadStateView::AwaitingField, UploadEventView::FormEnd) => true,
            (UploadStateView::AwaitingFirstChunk { .. }, UploadEventView::Chunk(bytes)) =>
                can_be_inferred(bytes),
            (UploadStateView::AwaitingFirstChunk { .. }, UploadEventView::FieldEnd) => true,
            (UploadStateView::CreatingFile { .. }, UploadEventView::Created) => true,
            (UploadStateView::AwaitingChunk { total, .. }, UploadEventView::Chunk(bytes)) => total
                + bytes.len() <= usize::MAX,
            (UploadStateView::AwaitingChunk { .. }, UploadEventView::FieldEnd) => true,
            (UploadStateView::WritingChunk { .. }, UploadEventView::Written) => true,
            (UploadStateView::FlushingFile { .. }, UploadEventView::Flushed) => true,
            _ => false,
        }
    }
}

/// The table of uploads without the file that is being received.
pub open spec fn abandoned(map: Map<Seq<char>, usize>, state: UploadStateView) -> Map<
    Seq<char>,
    usize,
> {
    match state.name() {
        Some(name) => left(map, name),
        None => map,
    }
}

/// A step of an upload: where it stands afterwards, the table of uploads, and
/// what is to be done.
pub struct UploadStep {
    pub state: UploadStateView,
    pub map: Map<Seq<char>, usize>,
    pub action: UploadActionView,
}

impl UploadView {
    /// The name is known: the upload is entered in the table and the file is
    /// created, in the directory of uploads and under a name that can stand there.
    pub open spec fn begin_file(
        self,
        map: Map<Seq<char>, usize>,
        name: Seq<char>,
        pending: Option<Seq<u8>>,
    ) -> UploadStep {
        UploadStep {
            state: UploadStateView::CreatingFile { name, pending },
            map: entered(map, name),
            action: UploadActionView::CreateFile(
                joined(self.base, stored_name(name, self.windows), self.windows),
            ),
        }
    }

    /// What follows from an event that can happen.
    pub open spec fn step(self, map: Map<Seq<char>, usize>, event: UploadEventView) -> UploadStep {
        match (self.state, event) {
            (_, UploadEventView::Failed(error)) => UploadStep {
                state: UploadStateView::Finished,
                map: abandoned(map, self.state),
                action: UploadActionView::Fail(error),
            },
            (
                UploadStateView::AwaitingField,
                UploadEventView::Field { field, now_millis },
            ) => if field.needs_content(self.windows) {
                UploadStep {
                    state: UploadStateView::AwaitingFirstChunk { field, now_millis },
                    map,
                    action: UploadActionView::ReadChunk,
                }
            } else {
                self.begin_file(map, field.generated_name(self.windows, now_millis, None), None)
            },
            (UploadStateView::AwaitingField, _) => UploadStep {
                state: UploadStateView::Finished,
                map,
                action: UploadActionView::Succeed(upload_page()),
            },
            (
                UploadStateView::AwaitingFirstChunk { field, now_millis },
                UploadEventView::Chunk(bytes),
            ) => self.begin_file(map, field.generated_name(self.windows, now_millis, Some(bytes)), Some(bytes)),
            (UploadStateView::AwaitingFirstChunk { field, now_millis }, _) => self.begin_file(
                map,
                field.generated_name(self.windows, now_millis, None),
                None,
            ),
            (UploadStateView::CreatingFile { name, pending: Some(bytes) }, _) => UploadStep {
                state: UploadStateView::WritingChunk {
                    name,
                    total: 0,
                    shown: 0,
                    bytes: bytes.len() as usize,
                },
                map,
                action: UploadActionView::WriteChunk(bytes),
            },
            (UploadStateView::CreatingFile { name, pending: None }, _) => UploadStep {
                state: UploadStateView::AwaitingChunk { name, total: 0, shown: 0 },
                map,
                action: UploadActionView::ReadChunk,
            },
            (
                UploadStateView::AwaitingChunk { name, total, shown },
                UploadEventView::Chunk(bytes),
            ) => UploadStep {
                state: UploadStateView::WritingChunk {
                    name,
                    total,
                    shown,
                    bytes: bytes.len() as usize,
                },
                map,
                action: UploadActionView::WriteChunk(bytes),
            },
            (UploadStateView::AwaitingChunk { name, total, .. }, _) => UploadStep {
                state: UploadStateView::FlushingFile { name, total },
                map,
                action: UploadActionView::Flush,
            },
            (UploadStateView::WritingChunk { name, total, shown, bytes }, _) => {
                let received = (total + bytes) as usize;
                if received - shown >= UPDATE_THRESHOLD {
                    UploadStep {
                        state: UploadStateView::AwaitingChunk {
                            name,
                            total: received,
                            shown: received,
                        },
                        map: updated(map, name, received),
                        action: UploadActionView::ReadChunk,
                    }
                } else {
                    UploadStep {
                        state: UploadStateView::AwaitingChunk { name, total: received, shown },
                        map,
                        action: UploadActionView::ReadChunk,
                    }
                }
            },
            (UploadStateView::FlushingFile { name, total }, _) => UploadStep {
                state: UploadStateView::AwaitingField,
                map: left(updated(map, name, total), name),
                action: UploadActionView::NextField,
            },
            (UploadStateView::Finished, _) => UploadStep {
                state: UploadStateView::Finished,
                map,
                action: UploadActionView::NextField,
            },
        }
    }
}

impl UploadSession {
    /// What holds of every upload.
    pub open spec fn wf(&self) -> bool {
        self@.state.wf()
    }

    /// An upload to the directory `base`, which has yet to read its first field.
    pub fn new(base: FilePath, windows: bool) -> (session: UploadSession)
        ensures
            session.wf(),
            session@ == (UploadView { base: base@, windows, state: UploadStateView::AwaitingField }),
    {
        UploadSession { base, windows, state: UploadState::AwaitingField }
    }

    /// Whether the event can happen now.
    pub fn expects(&self, event: &UploadEvent) -> (expected: bool)
        ensures
            expected == self@.state.expects(event@),
    {
        match (&self.state, event) {
            (UploadState::Finished, _) => false,
            (_, UploadEvent::Failed(_)) => true,
            (UploadState::AwaitingField, UploadEvent::Field { .. }) => true,
            (UploadState::AwaitingField, UploadEvent::FormEnd) => true,
            (UploadState::AwaitingFirstChunk { .. }, UploadEvent::Chunk(bytes)) => can_infer(bytes),
            (UploadState::AwaitingFirstChunk { .. }, UploadEvent::FieldEnd) => true,
            (UploadState::CreatingFile { .. }, UploadEvent::Created) => true,
            (UploadState::AwaitingChunk { meter, .. }, UploadEvent::Chunk(bytes)) => bytes.len()
                <= usize::MAX - meter.total,
            (UploadState::AwaitingChunk { .. }, UploadEvent::FieldEnd) => true,
            (UploadState::WritingChunk { .. }, UploadEvent::Written) => true,
            (UploadState::FlushingFile { .. }, UploadEvent::Flushed) => true,
            _ => false,
        }
    }

    /// The name of the file that is being received, and how many of its bytes are
    /// written.
    pub fn current_file(&self) -> (file: Option<(String, usize)>)
        ensures
            match file {
                Some((name, total)) => self@.state.name() == Some(name@) && total
                    == self@.state.total(),
                None => self@.state.name() is None,
            },
    {
        match &self.state {
            UploadState::CreatingFile { entry, .. } => Some((entry.filename.clone(), 0)),
            UploadState::AwaitingChunk { entry, meter } => Some(
                (entry.filename.clone(), meter.total),
            ),
            UploadState::WritingChunk { entry, meter, .. } => Some(
                (entry.filename.clone(), meter.total),
            ),
            UploadState::FlushingFile { entry, meter } => Some(
                (entry.filename.clone(), meter.total),
            ),
            _ => None,
        }
    }

    fn begin_file(
        base: FilePath,
        windows: bool,
        map: &mut ProgressMap,
        name: String,
        pending: Option<Vec<u8>>,
    ) -> (next: (UploadSession, UploadAction))
        ensures
            next.0.wf(),
            next.0@.base == base@,
            next.0@.windows == windows,
            (UploadStep { state: next.0@.state, map: final(map)@, action: next.1@ }) == (UploadView {
                base: base@,
                windows,
                state: UploadStateView::AwaitingField,
            }).begin_file(
                old(map)@,
                name@,
                match pending {
                    Some(bytes) => Some(bytes@),
                    None => None,
                },
            ),
            next.1 matches UploadAction::CreateFile(path) ==> path@ == opened(base@) || parent_of(
                path@,
            ) == Some(opened(base@)),
    {
        let path: FilePath = upload_path(&base, name.as_str(), windows);
        assert(path@ != opened(base@) ==> path@.drop_last() == opened(base@));
        let entry: ProgressEntry = ProgressEntry::new(map, name);
        let session = UploadSession {
            base,
            windows,
            state: UploadState::CreatingFile { entry, pending },
        };
        (session, UploadAction::CreateFile(path))
    }

    /// Takes note of what happened, keeps the table of uploads, and says what is
    /// to be done next.
    pub fn step(self, event: UploadEvent, map: &mut ProgressMap) -> (next: (
        UploadSession,
        UploadAction,
    ))
        requires
            self.wf(),
            self@.state.expects(event@),
        ensures
            next.0.wf(),
            next.0@.base == self@.base,
            next.0@.windows == self@.windows,
            (UploadStep { state: next.0@.state, map: final(map)@, action: next.1@ }) == self@.step(
                old(map)@,
                event@,
            ),
            next.1 matches UploadAction::CreateFile(path) ==> path@ == opened(self@.base) || parent_of(
                path@,
            ) == Some(opened(self@.base)),
    {
        let UploadSession { base, windows, state } = self;
        match (state, event) {
            (state, UploadEvent::Failed(error)) => {
                match state {
                    UploadState::CreatingFile { entry, .. } => entry.leave(map),
                    UploadState::AwaitingChunk { entry, .. } => entry.leave(map),
                    UploadState::WritingChunk { entry, .. } => entry.leave(map),
                    UploadState::FlushingFile { entry, .. } => entry.leave(map),
                    _ => {},
                }
                let session = UploadSession { base, windows, state: UploadState::Finished };
                (session, UploadAction::Fail(error))
            },
            (UploadState::AwaitingField, UploadEvent::Field { field, now_millis }) => {
                if field.need_magic_check(windows) {
                    let session = UploadSession {
                        base,
                        windows,
                        state: UploadState::AwaitingFirstChunk { field, now_millis },
                    };
                    (session, UploadAction::ReadChunk)
                } else {
                    let name: String = generate_filename_from_field(&field, windows, now_millis, None);
                    UploadSession::begin_file(base, windows, map, name, None)
                }
            },
            (UploadState::AwaitingField, _) => {
                let session = UploadSession { base, windows, state: UploadState::Finished };
                let page: String = "<p>上传成功</p><p><a href='/'>返回首页</a></p>".to_owned();
                (session, UploadAction::Succeed(page))
            },
            (
                UploadState::AwaitingFirstChunk { field, now_millis },
                UploadEvent::Chunk(bytes),
            ) => {
                let name: String = generate_filename_from_field(&field, windows, now_millis, Some(&bytes));
                UploadSession::begin_file(base, windows, map, name, Some(bytes))
            },
            (UploadState::AwaitingFirstChunk { field, now_millis }, _) => {
                let name: String = generate_filename_from_field(&field, windows, now_millis, None);
                UploadSession::begin_file(base, windows, map, name, None)
            },
            (UploadState::CreatingFile { entry, pending: Some(bytes) }, _) => {
                let count: usize = bytes.len();
                let session = UploadSession {
                    base,
                    windows,
                    state: UploadState::WritingChunk {
                        entry,
                        meter: UploadMeter::new(),
                        bytes: count,
                    },
                };
                (session, UploadAction::WriteChunk(bytes))
            },
            (UploadState::CreatingFile { entry, pending: None }, _) => {
                let session = UploadSession {
                    base,
                    windows,
                    state: UploadState::AwaitingChunk { entry, meter: UploadMeter::new() },
                };
                (session, UploadAction::ReadChunk)
            },
            (UploadState::AwaitingChunk { entry, meter }, UploadEvent::Chunk(bytes)) => {
                let count: usize = bytes.len();
                let session = UploadSession {
                    base,
                    windows,
                    state: UploadState::WritingChunk { entry, meter, bytes: count },
                };
                (session, UploadAction::WriteChunk(bytes))
            },
            (UploadState::AwaitingChunk { entry, meter }, _) => {
                let session = UploadSession {
                    base,
                    windows,
                    state: UploadState::FlushingFile { entry, meter },
                };
                (session, UploadAction::Flush)
            },
            (UploadState::WritingChunk { entry, meter, bytes }, _) => {
                let mut meter: UploadMeter = meter;
                match meter.record(bytes) {
                    Some(shown) => entry.update(map, shown),
                    None => {},
                }
                let session = UploadSession {
                    base,
                    windows,
                    state: UploadState::AwaitingChunk { entry, meter },
                };
                (session, UploadAction::ReadChunk)
            },
            (UploadState::FlushingFile { entry, meter }, _) => {
                entry.update(map, meter.total);
                entry.leave(map);
                let session = UploadSession { base, windows, state: UploadState::AwaitingField };
                (session, UploadAction::NextField)
            },
            (UploadState::Finished, _) => {
                let session = UploadSession { base, windows, state: UploadState::Finished };
                (session, UploadAction::NextField)
            },
        }
    }
}

/// A run of an upload over several events: where it stands afterwards, the table
/// of uploads, and everything that was to be done.
pub struct UploadRun {
    pub state: UploadStateView,
    pub map: Map<Seq<char>, usize>,
    pub actions: Seq<UploadActionView>,
}

impl UploadView {
    /// This upload in another state.
    pub open spec fn at(self, state: UploadStateView) -> UploadView {
        UploadView { base: self.base, windows: self.windows, state }
    }

    /// The run over the events, in order.
    pub open spec fn run(self, map: Map<Seq<char>, usize>, events: Seq<UploadEventView>) -> UploadRun
        decreases events.len(),
    {
        if events.len() == 0 {
            UploadRun { state: self.state, map, actions: Seq::empty() }
        } else {
            let before = self.run(map, events.drop_last());
            let last = self.at(before.state).step(before.map, events.last());
            UploadRun {
                state: last.state,
                map: last.map,
                actions: before.actions.push(last.action),
            }
        }
    }

    /// Whether each of the events can happen when it does, none is a failure, and
    /// no piece of content is larger than the machine can hold.
    pub open spec fn runs_well(self, map: Map<Seq<char>, usize>, events: Seq<UploadEventView>) -> bool
        decreases events.len(),
    {
        events.len() > 0 ==> {
            &&& self.runs_well(map, events.drop_last())
            &&& self.run(map, events.drop_last()).state.expects(events.last())
            &&& !(events.last() is Failed)
            &&& events.last() matches UploadEventView::Chunk(bytes) ==> bytes.len() <= usize::MAX
        }
    }
}

/// All content that came.
pub open spec fn received(events: Seq<UploadEventView>) -> Seq<u8>
    decreases events.len(),
{
    if events.len() == 0 {
        Seq::empty()
    } else {
        match events.last() {
            UploadEventView::Chunk(bytes) => received(events.drop_last()) + bytes,
            _ => received(events.drop_last()),
        }
    }
}

/// All content that was to be written.
pub open spec fn written(actions: Seq<UploadActionView>) -> Seq<u8>
    decreases actions.len(),
{
    if actions.len() == 0 {
        Seq::empty()
    } else {
        match actions.last() {
            UploadActionView::WriteChunk(bytes) => written(actions.drop_last()) + bytes,
            _ => written(actions.drop_last()),
        }
    }
}

/// The content that was to be written since the last file was to be created.
pub open spec fn written_to_file(actions: Seq<UploadActionView>) -> Seq<u8>
    decreases actions.len(),
{
    if actions.len() == 0 {
        Seq::empty()
    } else {
        match actions.last() {
            UploadActionView::CreateFile(_) => Seq::empty(),
            UploadActionView::WriteChunk(bytes) => written_to_file(actions.drop_last()) + bytes,
            _ => written_to_file(actions.drop_last()),
        }
    }
}

impl UploadStateView {
    /// The content that came and is yet to be written.
    pub open spec fn pending(self) -> Seq<u8> {
        match self {
            UploadStateView::CreatingFile { pending: Some(bytes), .. } => bytes,
            _ => Seq::empty(),
        }
    }
}

/// Whatever comes of a form is written, and nothing else: the content that was to
/// be written is the content that came, in order, but for what waits for its file
/// to be created.
pub proof fn lemma_upload_writes_what_came(
    upload: UploadView,
    map: Map<Seq<char>, usize>,
    events: Seq<UploadEventView>,
)
    requires
        upload.state is AwaitingField,
        upload.runs_well(map, events),
    ensures
        written(upload.run(map, events).actions) + upload.run(map, events).state.pending()
            == received(events),
    decreases events.len(),
{
    let run = upload.run(map, events);
    if events.len() > 0 {
        let earlier = events.drop_last();
        let before = upload.run(map, earlier);
        lemma_upload_writes_what_came(upload, map, earlier);
        assert(run.actions.drop_last() == before.actions);
        assert(written(before.actions) + Seq::<u8>::empty() == written(before.actions));
        assert(written(run.actions) + run.state.pending() == received(events));
    } else {
        assert(written(run.actions) + run.state.pending() == received(events));
    }
}

/// The content of the field that came last.
pub open spec fn received_of_field(events: Seq<UploadEventView>) -> Seq<u8>
    decreases events.len(),
{
    if events.len() == 0 {
        Seq::empty()
    } else {
        match events.last() {
            UploadEventView::Field { .. } => Seq::empty(),
            UploadEventView::Chunk(bytes) => received_of_field(events.drop_last()) + bytes,
            _ => received_of_field(events.drop_last()),
        }
    }
}

/// A file gets the content of its field: what was to be written to it is what came
/// of the field, in order, but for what waits for the file to be created.
pub proof fn lemma_file_gets_its_field(
    upload: UploadView,
    map: Map<Seq<char>, usize>,
    events: Seq<UploadEventView>,
)
    requires
        upload.state is AwaitingField,
        upload.runs_well(map, events),
    ensures
        match upload.run(map, events).state {
            UploadStateView::AwaitingFirstChunk { .. } => received_of_field(events).len() == 0,
            UploadStateView::CreatingFile { .. } => {
                &&& upload.run(map, events).state.pending() == received_of_field(events)
                &&& written_to_file(upload.run(map, events).actions).len() == 0
            },
            _ => written_to_file(upload.run(map, events).actions) == received_of_field(events),
        },
    decreases events.len(),
{
    let run = upload.run(map, events);
    if events.len() > 0 {
        let earlier = events.drop_last();
        let before = upload.run(map, earlier);
        lemma_file_gets_its_field(upload, map, earlier);
        assert(run.actions.drop_last() == before.actions);
        assert(received_of_field(earlier) + Seq::<u8>::empty() == received_of_field(earlier));
        assert(Seq::<u8>::empty() + before.state.pending() == before.state.pending());
    }
}

/// While a file is being received, the table shows of it what the upload last
/// showed, less than the threshold behind what was written of it.
pub proof fn lemma_upload_shows_progress(
    upload: UploadView,
    map: Map<Seq<char>, usize>,
    events: Seq<UploadEventView>,
)
    requires
        upload.state is AwaitingField,
        upload.runs_well(map, events),
    ensures
        upload.run(map, events).state.wf(),
        match upload.run(map, events).state {
            UploadStateView::CreatingFile { name, .. } => {
                &&& upload.run(map, events).map.contains_pair(name, 0)
                &&& written_to_file(upload.run(map, events).actions).len() == 0
                &&& upload.run(map, events).state.pending().len() <= usize::MAX
            },
            UploadStateView::AwaitingChunk { name, total, shown } => {
                &&& upload.run(map, events).map.contains_pair(name, shown)
                &&& written_to_file(upload.run(map, events).actions).len() == total
                &&& shown <= total < shown + UPDATE_THRESHOLD
            },
            UploadStateView::WritingChunk { name, total, shown, bytes } => {
                &&& upload.run(map, events).map.contains_pair(name, shown)
                &&& written_to_file(upload.run(map, events).actions).len() == total + bytes
                &&& shown <= total < shown + UPDATE_THRESHOLD
            },
            UploadStateView::FlushingFile { name, total } => {
                &&& upload.run(map, events).map.contains_key(name)
                &&& written_to_file(upload.run(map, events).actions).len() == total
            },
            _ => true,
        },
    decreases events.len(),
{
    if events.len() > 0 {
        let earlier = events.drop_last();
        let before = upload.run(map, earlier);
        lemma_upload_shows_progress(upload, map, earlier);
        assert(upload.run(map, events).actions.drop_last() == before.actions);
    }
}

impl UploadView {
    /// The names of the files that were received, or begun.
    pub open spec fn names_received(
        self,
        map: Map<Seq<char>, usize>,
        events: Seq<UploadEventView>,
    ) -> Set<Seq<char>>
        decreases events.len(),
    {
        if events.len() == 0 {
            Set::empty()
        } else {
            let before = self.names_received(map, events.drop_last());
            match self.run(map, events).state.name() {
                Some(name) => before.insert(name),
                None => before,
            }
        }
    }
}

/// The table after an upload, or between two of its files, is the one that it found
/// without the names that it received. While a file is being received, that holds
/// but for the entry of this file. It holds of failures too.
pub proof fn lemma_upload_leaves_table(
    upload: UploadView,
    map: Map<Seq<char>, usize>,
    events: Seq<UploadEventView>,
)
    requires
        upload.state is AwaitingField,
    ensures
        abandoned(upload.run(map, events).map, upload.run(map, events).state) == map.remove_keys(
            upload.names_received(map, events),
        ),
    decreases events.len(),
{
    let run = upload.run(map, events);
    let names = upload.names_received(map, events);
    if events.len() > 0 {
        let earlier = events.drop_last();
        let before = upload.run(map, earlier);
        lemma_upload_leaves_table(upload, map, earlier);
        let same = abandoned(before.map, before.state);
        assert(abandoned(run.map, run.state) =~= match run.state.name() {
            Some(name) => same.remove(name),
            None => same,
        });
    }
    assert(abandoned(run.map, run.state) =~= map.remove_keys(names));
}

/// What the table shows of a file never falls while its field goes on.
pub proof fn lemma_shown_never_falls(
    upload: UploadView,
    map: Map<Seq<char>, usize>,
    events: Seq<UploadEventView>,
    earlier: int,
)
    requires
        upload.state is AwaitingField,
        upload.runs_well(map, events),
        0 <= earlier <= events.len(),
        forall|i: int| earlier <= i < events.len() ==> !(#[trigger] events[i] is Field),
        upload.run(map, events.take(earlier)).state.name() is Some,
        upload.run(map, events).state.name() is Some,
    ensures
        upload.run(map, events).state.name() == upload.run(map, events.take(earlier)).state.name(),
        ({
            let name = upload.run(map, events).state.name().unwrap();
            &&& upload.run(map, events).map.contains_key(name)
            &&& upload.run(map, events.take(earlier)).map.contains_key(name)
            &&& upload.run(map, events.take(earlier)).map[name] <= upload.run(map, events).map[name]
        }),
    decreases events.len(),
{
    lemma_upload_shows_progress(upload, map, events);
    if earlier == events.len() {
        assert(events.take(earlier) == events);
    } else {
        let shorter = events.drop_last();
        let last = events[events.len() - 1];
        assert(last == events.last());
        assert(shorter.take(earlier) == events.take(earlier));
        assert forall|i: int| earlier <= i < shorter.len() implies !(#[trigger] shorter[i] is Field) by {
            assert(shorter[i] == events[i]);
        }
        lemma_upload_shows_progress(upload, map, shorter);
        if upload.run(map, shorter).state.name() is None {
            lemma_field_is_over(upload, map, shorter, earlier);
        }
        lemma_shown_never_falls(upload, map, shorter, earlier);
    }
}

proof fn lemma_field_is_over(
    upload: UploadView,
    map: Map<Seq<char>, usize>,
    events: Seq<UploadEventView>,
    earlier: int,
)
    requires
        upload.runs_well(map, events),
        0 <= earlier <= events.len(),
        forall|i: int| earlier <= i < events.len() ==> !(#[trigger] events[i] is Field),
        upload.run(map, events.take(earlier)).state.name() is Some,
        upload.run(map, events).state.name() is None,
    ensures
        upload.run(map, events).state is AwaitingField || upload.run(map, events).state is Finished,
    decreases events.len(),
{
    if earlier == events.len() {
        assert(events.take(earlier) == events);
    } else {
        let shorter = events.drop_last();
        let last = events[events.len() - 1];
        assert(last == events.last());
        assert(shorter.take(earlier) == events.take(earlier));
        assert forall|i: int| earlier <= i < shorter.len() implies !(#[trigger] shorter[i] is Field) by {
            assert(shorter[i] == events[i]);
        }
        if upload.run(map, shorter).state.name() is None {
            lemma_field_is_over(upload, map, shorter, earlier);
        }
    }
}

/// Whether a step begins a file of that name: the path that is created is the directory of
/// uploads joined with the name as it is stored, the table shows nothing received of the
/// file, and no other entry of the table changes.
pub open spec fn begins_file(
    upload: UploadView,
    map: Map<Seq<char>, usize>,
    step: UploadStep,
    name: Seq<char>,
) -> bool {
    &&& step.action == UploadActionView::CreateFile(
        joined(upload.base, stored_name(name, upload.windows), upload.windows),
    )
    &&& step.map.contains_pair(name, 0)
    &&& step.map.remove(name) == map.remove(name)
    &&& step.state.name() == Some(name)
}

/// A field whose name needs no look at the content is created at once, under the name
/// that the rules for names give it, its media type included. Another waits for its
/// content, with the table as it was, and is then created under the name that the rules
/// give it with that content.
pub proof fn lemma_field_created_under_its_name(
    upload: UploadView,
    map: Map<Seq<char>, usize>,
    field: FieldInfo,
    now_millis: nat,
    bytes: Seq<u8>,
)
    requires
        upload.state is AwaitingField,
    ensures
        ({
            let came = upload.step(map, UploadEventView::Field { field, now_millis });
            let next = upload.at(came.state);
            let chunk = next.step(came.map, UploadEventView::Chunk(bytes));
            let nothing = next.step(came.map, UploadEventView::FieldEnd);
            if field.needs_content(upload.windows) {
                &&& came.action == UploadActionView::ReadChunk
                &&& came.map == map
                &&& begins_file(
                    upload,
                    map,
                    chunk,
                    field.generated_name(upload.windows, now_millis, Some(bytes)),
                )
                &&& chunk.state.pending() == bytes
                &&& begins_file(
                    upload,
                    map,
                    nothing,
                    field.generated_name(upload.windows, now_millis, None),
                )
            } else {
                begins_file(
                    upload,
                    map,
                    came,
                    field.generated_name(upload.windows, now_millis, None),
                )
            }
        }),
{
    let name = field.generated_name(upload.windows, now_millis, None);
    assert(entered(map, name).remove(name) =~= map.remove(name));
    let name = field.generated_name(upload.windows, now_millis, Some(bytes));
    assert(entered(map, name).remove(name) =~= map.remove(name));
}

/// A field that names a file with an extension, in letters of whatever case, is created at
/// once under that name, whatever its media type.
pub proof fn lemma_named_upload_keeps_name(
    upload: UploadView,
    map: Map<Seq<char>, usize>,
    field: FieldInfo,
    dir: Seq<char>,
    stem: Seq<char>,
    extension: Seq<char>,
    now_millis: nat,
)
    requires
        upload.state is AwaitingField,
        stem.len() > 0,
        !extension.contains('.'),
        ends_in_name(dir, stem + seq!['.'] + extension, upload.windows),
        field.file_name matches Some(name) && name@ == dir + (stem + seq!['.'] + extension),
    ensures
        begins_file(
            upload,
            map,
            upload.step(map, UploadEventView::Field { field, now_millis }),
            dir + (stem + seq!['.'] + extension),
        ),
{
    lemma_extension_kept(field, dir, stem, extension, upload.windows, now_millis, None);
    lemma_field_created_under_its_name(upload, map, field, now_millis, Seq::empty());
}

/// A field that names a file without an extension, and has a media type that lists
/// extensions, is created at once under a name that ends in a dot and the extension: `jpg`
/// where the media type lists it, and otherwise the first that is listed.
pub proof fn lemma_upload_follows_media_type(
    upload: UploadView,
    map: Map<Seq<char>, usize>,
    field: FieldInfo,
    dir: Seq<char>,
    name: Seq<char>,
    now_millis: nat,
)
    requires
        upload.state is AwaitingField,
        names_no_extension(field, dir, name, upload.windows),
        field.content_type matches Some(media_type) && (ascii_lowered(media_type.type_@)
            != "application"@ || ascii_lowered(media_type.subtype@) != "octet-stream"@),
    ensures
        ({
            let media_type = field.content_type.unwrap();
            let step = upload.step(map, UploadEventView::Field { field, now_millis });
            match listed_extensions(media_type.type_@, media_type.subtype@) {
                Some(list) => {
                    &&& list.contains("jpg"@) ==> begins_file(
                        upload,
                        map,
                        step,
                        dir + name + ".jpg"@,
                    )
                    &&& !list.contains("jpg"@) && list.len() > 0 ==> begins_file(
                        upload,
                        map,
                        step,
                        dir + name + "."@ + list[0],
                    )
                    &&& list.len() == 0 ==> begins_file(upload, map, step, dir + name)
                },
                None => begins_file(upload, map, step, dir + name),
            }
        }),
{
    lemma_media_type_adds_extension(field, dir, name, upload.windows, now_millis, None);
    lemma_field_created_under_its_name(upload, map, field, now_millis, Seq::empty());
}

/// A field that names a file without an extension, and has no media type that would tell
/// one, is created once its content begins to come, under a name that ends in a dot and
/// the extension of the content.
pub proof fn lemma_upload_follows_content(
    upload: UploadView,
    map: Map<Seq<char>, usize>,
    field: FieldInfo,
    dir: Seq<char>,
    name: Seq<char>,
    now_millis: nat,
    bytes: Seq<u8>,
)
    requires
        upload.state is AwaitingField,
        names_no_extension(field, dir, name, upload.windows),
        field.content_type matches Some(media_type) ==> ascii_lowered(media_type.type_@)
            == "application"@ && ascii_lowered(media_type.subtype@) == "octet-stream"@,
    ensures
        ({
            let came = upload.step(map, UploadEventView::Field { field, now_millis });
            let next = upload.at(came.state);
            let chunk = next.step(came.map, UploadEventView::Chunk(bytes));
            let nothing = next.step(came.map, UploadEventView::FieldEnd);
            &&& came.action == UploadActionView::ReadChunk
            &&& begins_file(
                upload,
                map,
                chunk,
                match inferred_extension(bytes) {
                    Some(extension) => dir + name + "."@ + extension,
                    None => dir + name,
                },
            )
            &&& begins_file(upload, map, nothing, dir + name)
        }),
{
    lemma_content_adds_extension(field, dir, name, upload.windows, now_millis, Some(bytes));
    lemma_content_adds_extension(field, dir, name, upload.windows, now_millis, None);
    lemma_field_created_under_its_name(upload, map, field, now_millis, bytes);
}

/// A file whose name can stand as it is, is created under that very name, directly in the
/// directory of uploads.
pub proof fn lemma_clean_upload_created(
    upload: UploadView,
    map: Map<Seq<char>, usize>,
    step: UploadStep,
    name: Seq<char>,
)
    requires
        begins_file(upload, map, step, name),
        !upload.windows,
        name.len() > 0,
        is_clean_file_name(name),
        !is_dots(name),
    ensures
        step.action == UploadActionView::CreateFile(child_of(upload.base, name)),
{
    lemma_clean_name_stored(name, upload.windows);
    lemma_upload_stays_in_base(upload.base, name, upload.windows);
}

/// What an upload is told to do is what it then waits for, or a failure of it: the head of
/// the next field or the end of the form, content of the field or its end, or that the
/// file is created, written or flushed. Once it is answered it waits for nothing.
pub proof fn lemma_upload_waits_for_answer(
    upload: UploadView,
    map: Map<Seq<char>, usize>,
    event: UploadEventView,
    answer: UploadEventView,
)
    requires
        upload.state.expects(event),
        event matches UploadEventView::Chunk(bytes) ==> bytes.len() <= usize::MAX,
    ensures
        ({
            let step = upload.step(map, event);
            match step.action {
                UploadActionView::NextField => step.state.expects(answer) == (answer is Field
                    || answer is FormEnd || answer is Failed),
                UploadActionView::ReadChunk => {
                    &&& answer is FieldEnd || answer is Failed ==> step.state.expects(answer)
                    &&& step.state.expects(answer) ==> answer is FieldEnd || answer is Chunk
                        || answer is Failed
                    &&& answer matches UploadEventView::Chunk(bytes) ==> (if step.state.name() is Some {
                        step.state.expects(answer) == (step.state.total() + bytes.len()
                            <= usize::MAX)
                    } else {
                        step.state.expects(answer) == can_be_inferred(bytes)
                    })
                },
                UploadActionView::CreateFile(_) => step.state.expects(answer) == (answer is Created
                    || answer is Failed),
                UploadActionView::WriteChunk(_) => step.state.expects(answer) == (answer is Written
                    || answer is Failed),
                UploadActionView::Flush => step.state.expects(answer) == (answer is Flushed
                    || answer is Failed),
                UploadActionView::Succeed(_) => !step.state.expects(answer),
                UploadActionView::Fail(_) => !step.state.expects(answer),
            }
        }),
{
}

/// An upload fails where something that it was told to do fails, with that very error, and
/// then the table no longer shows the file that was being received. It succeeds where
/// the form ends, and nowhere else, and is answered with a page that leads back to the
/// files. At the end of a field its file is flushed, and only then the next field is read.
pub proof fn lemma_upload_answers(
    upload: UploadView,
    map: Map<Seq<char>, usize>,
    event: UploadEventView,
)
    requires
        upload.state.expects(event),
    ensures
        ({
            let step = upload.step(map, event);
            &&& match event {
                UploadEventView::Failed(error) => {
                    &&& step.action == UploadActionView::Fail(error)
                    &&& step.map == match upload.state.name() {
                        Some(name) => map.remove(name),
                        None => map,
                    }
                },
                _ => !(step.action is Fail),
            }
            &&& step.action is Succeed <==> event is FormEnd
            &&& event is FormEnd ==> step.map == map && step.action == UploadActionView::Succeed(
                "<p>上传成功</p><p><a href='/'>返回首页</a></p>"@,
            )
            &&& event is FieldEnd && upload.state.name() is Some ==> step.action
                == UploadActionView::Flush && step.map == map
            &&& step.action is NextField <==> event is Flushed
        }),
{
}

/// What the table shows of a file changes when, and only when, 65536 bytes or more were
/// written since it last changed. It then shows all bytes that were written.
pub proof fn lemma_progress_shown_in_steps(
    upload: UploadView,
    map: Map<Seq<char>, usize>,
    name: Seq<char>,
    total: usize,
    shown: usize,
    bytes: usize,
)
    requires
        upload.state == (UploadStateView::WritingChunk { name, total, shown, bytes }),
        upload.state.wf(),
        map.contains_key(name),
    ensures
        ({
            let step = upload.step(map, UploadEventView::Written);
            &&& step.state.total() == total + bytes
            &&& step.state.name() == Some(name)
            &&& step.action == UploadActionView::ReadChunk
            &&& total + bytes - shown >= 65536 ==> step.map == map.insert(
                name,
                (total + bytes) as usize,
            )
            &&& total + bytes - shown < 65536 ==> step.map == map
        }),
{
}

/// A header is text where its bytes are printable ASCII, the space or the tab, and each byte
/// then stands for the character of its number. So different values are different texts.
pub proof fn lemma_header_text(value: Seq<u8>, other: Seq<u8>, i: int)
    requires
        0 <= i < value.len(),
    ensures
        is_header_text(value) ==> value[i] == 0x09 || 0x20 <= value[i] <= 0x7e,
        is_header_text(seq![value[i]]) == (value[i] == 0x09 || 0x20 <= value[i] <= 0x7e),
        is_header_text(value + other) == (is_header_text(value) && is_header_text(other)),
        header_text(value).len() == value.len(),
        is_header_text(value) ==> header_text(value)[i] as int == value[i] as int,
        is_header_text(value) && is_header_text(other) && header_text(value) == header_text(other)
            ==> value == other,
{
    let one = seq![value[i]];
    assert(one[0] == value[i]);
    let both = value + other;
    if is_header_text(both) {
        assert forall|k: int| 0 <= k < value.len() implies is_header_text_byte(
            #[trigger] value[k],
        ) by {
            assert(both[k] == value[k]);
        }
        assert forall|k: int| 0 <= k < other.len() implies is_header_text_byte(
            #[trigger] other[k],
        ) by {
            assert(both[value.len() + k] == other[k]);
        }
    }
    if is_header_text(value) && is_header_text(other) {
        assert forall|k: int| 0 <= k < both.len() implies is_header_text_byte(
            #[trigger] both[k],
        ) by {
            if k < value.len() {
                assert(both[k] == value[k]);
            } else {
                assert(both[k] == other[k - value.len()]);
            }
        }
        if header_text(value) == header_text(other) {
            assert(value.len() == header_text(other).len());
            assert forall|k: int| 0 <= k < value.len() implies value[k] == other[k] by {
                assert(header_text(value)[k] == value[k] as char);
                assert(header_text(other)[k] == other[k] as char);
                assert(is_header_text_byte(value[k]) && is_header_text_byte(other[k]));
            }
            assert(value == other);
        }
    }
}

/// A form is accepted up to 1024 times 1024 times 1024 bytes.
pub proof fn lemma_upload_limit(size: u64)
    ensures
        size <= UPLOAD_SIZE_LIMIT <==> size <= 1024 * 1024 * 1024,
{
}

} // verus!
