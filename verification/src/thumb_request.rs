//! Requests for thumbnails: what is looked up, what is read, and the headers that
//! it is served with.

use vstd::prelude::*;

use crate::error::{
    internal_response, io_response, is_labelled, labelled, lemma_failed_answers, AppError,
    ErrorResponseView, LogLevel,
};
use crate::outside::{guess_media_type, guessed_media_type};
use crate::path::{extension_of, lies_in, ComponentView, FilePath};
use crate::text::{
    hexadecimal, hexadecimal_text, is_hex_digit, lemma_numeral_digits, lemma_numeral_injective,
    lemma_numeral_read_back, numeral_value,
};
use crate::thumbnail::{known_as, thumb_base_name, thumb_path, thumbnail_of, THUMB_EXT};

verus! {

/// The entity tag of a thumbnail: when it was changed, in seconds since the epoch,
/// and its size.
pub open spec fn etag_of(seconds: nat, size: nat) -> Seq<char> {
    "\""@ + hexadecimal(seconds) + "-"@ + hexadecimal(size) + "\""@
}

/// The entity tag of a thumbnail. One of which it is not known when it was changed
/// counts as changed at the epoch.
pub fn etag(modified: Option<u64>, size: usize) -> (tag: String)
    ensures
        tag@ == etag_of(
            match modified {
                Some(seconds) => seconds as nat,
                None => 0,
            },
            size as nat,
        ),
{
    let seconds: u64 = match modified {
        Some(seconds) => seconds,
        None => 0,
    };
    let mut tag: String = "\"".to_owned();
    tag.append(hexadecimal_text(seconds as u128).as_str());
    tag.append("-");
    tag.append(hexadecimal_text(size as u128).as_str());
    tag.append("\"");
    tag
}

/// The headers of an answer that carries a thumbnail.
#[derive(Debug)]
pub struct ThumbHeaders {
    pub content_type: String,
    pub cache_control: String,
    pub etag: String,
}

/// The mathematical value of [`ThumbHeaders`].
pub struct ThumbHeadersView {
    pub content_type: Seq<char>,
    pub cache_control: Seq<char>,
    pub etag: Seq<char>,
}

impl View for ThumbHeaders {
    type V = ThumbHeadersView;

    open spec fn view(&self) -> ThumbHeadersView {
        ThumbHeadersView {
            content_type: self.content_type@,
            cache_control: self.cache_control@,
            etag: self.etag@,
        }
    }
}

/// The headers for the thumbnail at that path: the media type goes by the
/// extension, and the thumbnail may be kept for a day.
pub open spec fn headers_for(
    path: Seq<ComponentView>,
    modified: Option<u64>,
    size: usize,
) -> ThumbHeadersView {
    ThumbHeadersView {
        content_type: guessed_media_type(
            match extension_of(path) {
                Some(extension) => extension,
                None => Seq::empty(),
            },
        ),
        cache_control: "public, max-age=86400"@,
        etag: etag_of(
            match modified {
                Some(seconds) => seconds as nat,
                None => 0,
            },
            size as nat,
        ),
    }
}

/// The headers for a thumbnail of that media type.
pub fn thumb_headers(content_type: String, modified: Option<u64>, size: usize) -> (headers:
    ThumbHeaders)
    ensures
        headers.content_type@ == content_type@,
        headers.cache_control@ == "public, max-age=86400"@,
        headers.etag@ == etag_of(
            match modified {
                Some(seconds) => seconds as nat,
                None => 0,
            },
            size as nat,
        ),
{
    ThumbHeaders {
        content_type,
        cache_control: "public, max-age=86400".to_owned(),
        etag: etag(modified, size),
    }
}

/// The media type of the file at that path.
pub fn content_type_of(path: &FilePath) -> (content_type: String)
    ensures
        content_type@ == guessed_media_type(
            match extension_of(path@) {
                Some(extension) => extension,
                None => Seq::empty(),
            },
        ),
        extension_of(path@) is None ==> content_type@ == "application/octet-stream"@,
        extension_of(path@) == Some(THUMB_EXT@) ==> content_type@ == "image/webp"@,
{
    match path.extension() {
        Some(extension) => guess_media_type(extension.as_str()),
        None => {
            let none: String = String::new();
            assert(none@ == Seq::<char>::empty());
            guess_media_type(none.as_str())
        },
    }
}

/// What a request for a thumbnail waits for.
#[derive(Debug)]
pub enum ThumbState {
    /// Whether there is a thumbnail at the path.
    Existence(FilePath),
    /// The canonical path of the thumbnail.
    CanonicalPath,
    /// The content of the thumbnail.
    Content(FilePath),
    /// When the thumbnail, of that size, was changed.
    Metadata(FilePath, usize),
    /// Nothing: the request is answered.
    Finished,
}

/// The mathematical value of a [`ThumbState`].
pub enum ThumbStateView {
    Existence(Seq<ComponentView>),
    CanonicalPath,
    Content(Seq<ComponentView>),
    Metadata(Seq<ComponentView>, usize),
    Finished,
}

impl View for ThumbState {
    type V = ThumbStateView;

    open spec fn view(&self) -> ThumbStateView {
        match self {
            ThumbState::Existence(path) => ThumbStateView::Existence(path@),
            ThumbState::CanonicalPath => ThumbStateView::CanonicalPath,
            ThumbState::Content(path) => ThumbStateView::Content(path@),
            ThumbState::Metadata(path, size) => ThumbStateView::Metadata(path@, *size),
            ThumbState::Finished => ThumbStateView::Finished,
        }
    }
}

/// What happened to a request for a thumbnail.
#[derive(Debug)]
pub enum ThumbEvent {
    /// Whether there is a file at the path.
    Exists(bool),
    /// The canonical path, or why there is none.
    Canonical(Result<FilePath, String>),
    /// The size of the content that was read, or why it was not.
    Content(Result<usize, String>),
    /// When the file was changed, in seconds since the epoch and where that is
    /// known, or why nothing is known of the file.
    Metadata(Result<Option<u64>, String>),
}

/// The mathematical value of a [`ThumbEvent`].
pub enum ThumbEventView {
    Exists(bool),
    Canonical(Result<Seq<ComponentView>, Seq<char>>),
    Content(Result<usize, Seq<char>>),
    Metadata(Result<Option<u64>, Seq<char>>),
}

impl View for ThumbEvent {
    type V = ThumbEventView;

    open spec fn view(&self) -> ThumbEventView {
        match self {
            ThumbEvent::Exists(there) => ThumbEventView::Exists(*there),
            ThumbEvent::Canonical(result) => ThumbEventView::Canonical(
                match result {
                    Ok(path) => Ok(path@),
                    Err(text) => Err(text@),
                },
            ),
            ThumbEvent::Content(result) => ThumbEventView::Content(
                match result {
                    Ok(size) => Ok(*size),
                    Err(text) => Err(text@),
                },
            ),
            ThumbEvent::Metadata(result) => ThumbEventView::Metadata(
                match result {
                    Ok(modified) => Ok(*modified),
                    Err(text) => Err(text@),
                },
            ),
        }
    }
}

/// What is to be done for a request for a thumbnail.
#[derive(Debug)]
pub enum ThumbAction {
    /// Look whether there is a file at the path.
    CheckExists(FilePath),
    /// Begin to make the thumbnail, and answer with the error.
    Generate(AppError),
    /// Find the canonical path.
    Canonicalize(FilePath),
    /// Read the file.
    ReadFile(FilePath),
    /// Look up when the file was changed.
    ReadMetadata(FilePath),
    /// Answer with the content that was read, under these headers.
    Reply(ThumbHeaders),
    /// Answer with the error.
    Fail(AppError),
}

/// The mathematical value of a [`ThumbAction`]. An error counts by its answer.
pub enum ThumbActionView {
    CheckExists(Seq<ComponentView>),
    Generate(ErrorResponseView),
    Canonicalize(Seq<ComponentView>),
    ReadFile(Seq<ComponentView>),
    ReadMetadata(Seq<ComponentView>),
    Reply(ThumbHeadersView),
    Fail(ErrorResponseView),
}

impl View for ThumbAction {
    type V = ThumbActionView;

    open spec fn view(&self) -> ThumbActionView {
        match self {
            ThumbAction::CheckExists(path) => ThumbActionView::CheckExists(path@),
            ThumbAction::Generate(error) => ThumbActionView::Generate(error.response()),
            ThumbAction::Canonicalize(path) => ThumbActionView::Canonicalize(path@),
            ThumbAction::ReadFile(path) => ThumbActionView::ReadFile(path@),
            ThumbAction::ReadMetadata(path) => ThumbActionView::ReadMetadata(path@),
            ThumbAction::Reply(headers) => ThumbActionView::Reply(headers@),
            ThumbAction::Fail(error) => ThumbActionView::Fail(error.response()),
        }
    }
}

/// A request for a thumbnail.
#[derive(Debug)]
pub struct ThumbRequest {
    thumb_dir: FilePath,
    state: ThumbState,
}

/// The mathematical value of a [`ThumbRequest`].
pub struct ThumbRequestView {
    pub thumb_dir: Seq<ComponentView>,
    pub state: ThumbStateView,
}

impl View for ThumbRequest {
    type V = ThumbRequestView;

    closed spec fn view(&self) -> ThumbRequestView {
        ThumbRequestView { thumb_dir: self.thumb_dir@, state: self.state@ }
    }
}

/// A step of a request for a thumbnail.
pub struct ThumbStep {
    pub state: ThumbStateView,
    pub action: ThumbActionView,
}

impl ThumbRequestView {
    /// Whether the event can happen now.
    pub open spec fn expects(self, event: ThumbEventView) -> bool {
        match self.state {
            ThumbStateView::Existence(_) => event is Exists,
            ThumbStateView::CanonicalPath => event is Canonical,
            ThumbStateView::Content(_) => event is Content,
            ThumbStateView::Metadata(_, _) => event is Metadata,
            ThumbStateView::Finished => false,
        }
    }

    /// What follows from an event that can happen.
    pub open spec fn step(self, event: ThumbEventView) -> ThumbStep {
        match (self.state, event) {
            (ThumbStateView::Existence(path), ThumbEventView::Exists(there)) => if there {
                ThumbStep {
                    state: ThumbStateView::CanonicalPath,
                    action: ThumbActionView::Canonicalize(path),
                }
            } else {
                ThumbStep {
                    state: ThumbStateView::Finished,
                    action: ThumbActionView::Generate(AppError::ThumbnailNotReady.response()),
                }
            },
            (_, ThumbEventView::Canonical(Ok(path))) => if lies_in(path, self.thumb_dir) {
                ThumbStep {
                    state: ThumbStateView::Content(path),
                    action: ThumbActionView::ReadFile(path),
                }
            } else {
                ThumbStep {
                    state: ThumbStateView::Finished,
                    action: ThumbActionView::Fail(AppError::PathTraversal.response()),
                }
            },
            (_, ThumbEventView::Canonical(Err(text))) => ThumbStep {
                state: ThumbStateView::Finished,
                action: ThumbActionView::Fail(
                    internal_response("无法规范化缩略图路径: "@ + text),
                ),
            },
            (ThumbStateView::Content(path), ThumbEventView::Content(Ok(size))) => ThumbStep {
                state: ThumbStateView::Metadata(path, size),
                action: ThumbActionView::ReadMetadata(path),
            },
            (
                ThumbStateView::Metadata(path, size),
                ThumbEventView::Metadata(Ok(modified)),
            ) => ThumbStep {
                state: ThumbStateView::Finished,
                action: ThumbActionView::Reply(headers_for(path, modified, size)),
            },
            (_, ThumbEventView::Content(Err(text))) => ThumbStep {
                state: ThumbStateView::Finished,
                action: ThumbActionView::Fail(io_response(text)),
            },
            (_, ThumbEventView::Metadata(Err(text))) => ThumbStep {
                state: ThumbStateView::Finished,
                action: ThumbActionView::Fail(io_response(text)),
            },
            _ => ThumbStep {
                state: ThumbStateView::Finished,
                action: ThumbActionView::Generate(AppError::ThumbnailNotReady.response()),
            },
        }
    }

    /// This request waiting for something else.
    pub open spec fn at(self, state: ThumbStateView) -> ThumbRequestView {
        ThumbRequestView { thumb_dir: self.thumb_dir, state }
    }

    /// What holds of a request whenever it waits for something: what it reads lies
    /// in the directory of thumbnails.
    pub open spec fn inv(self) -> bool {
        match self.state {
            ThumbStateView::Content(path) => lies_in(path, self.thumb_dir),
            ThumbStateView::Metadata(path, _) => lies_in(path, self.thumb_dir),
            _ => true,
        }
    }
}

/// Begins to answer a request for the thumbnail of a file. The directory of files
/// counts by the text of its canonical path, or of its path where it has no
/// canonical one.
pub fn thumb_handler(
    thumb_dir: &FilePath,
    files_dir: &str,
    canonical: Option<&str>,
    filename: &str,
    windows: bool,
) -> (begun: (ThumbRequest, ThumbAction))
    ensures
        begun.0@ == (ThumbRequestView {
            thumb_dir: thumb_dir@,
            state: ThumbStateView::Existence(
                thumbnail_of(thumb_dir@, known_as(files_dir, canonical), filename@, windows),
            ),
        }),
        begun.1@ == ThumbActionView::CheckExists(
            thumbnail_of(thumb_dir@, known_as(files_dir, canonical), filename@, windows),
        ),
{
    let name: String = thumb_base_name(files_dir, canonical, filename);
    let path: FilePath = thumb_path(thumb_dir, name.as_str(), windows);
    let looked_up: FilePath = path.copy();
    let request = ThumbRequest { thumb_dir: thumb_dir.copy(), state: ThumbState::Existence(path) };
    (request, ThumbAction::CheckExists(looked_up))
}

impl ThumbRequest {
    /// Whether the event can happen now.
    pub fn expects(&self, event: &ThumbEvent) -> (expected: bool)
        ensures
            expected == self@.expects(event@),
    {
        match (&self.state, event) {
            (ThumbState::Existence(_), ThumbEvent::Exists(_)) => true,
            (ThumbState::CanonicalPath, ThumbEvent::Canonical(_)) => true,
            (ThumbState::Content(_), ThumbEvent::Content(_)) => true,
            (ThumbState::Metadata(_, _), ThumbEvent::Metadata(_)) => true,
            _ => false,
        }
    }

    fn finish(thumb_dir: FilePath, action: ThumbAction) -> (next: (ThumbRequest, ThumbAction))
        ensures
            next.0@ == (ThumbRequestView {
                thumb_dir: thumb_dir@,
                state: ThumbStateView::Finished,
            }),
            next.1 == action,
    {
        (ThumbRequest { thumb_dir, state: ThumbState::Finished }, action)
    }

    /// Takes note of what happened and says what is to be done next.
    pub fn step(self, event: ThumbEvent) -> (next: (ThumbRequest, ThumbAction))
        requires
            self@.expects(event@),
        ensures
            next.0@.thumb_dir == self@.thumb_dir,
            (ThumbStep { state: next.0@.state, action: next.1@ }) == self@.step(event@),
    {
        let ThumbRequest { thumb_dir, state } = self;
        match (state, event) {
            (ThumbState::Existence(path), ThumbEvent::Exists(there)) => {
                if there {
                    let request = ThumbRequest { thumb_dir, state: ThumbState::CanonicalPath };
                    (request, ThumbAction::Canonicalize(path))
                } else {
                    ThumbRequest::finish(
                        thumb_dir,
                        ThumbAction::Generate(AppError::ThumbnailNotReady),
                    )
                }
            },
            (_, ThumbEvent::Canonical(Ok(path))) => {
                if path.starts_with(&thumb_dir) {
                    let read: FilePath = path.copy();
                    let request = ThumbRequest { thumb_dir, state: ThumbState::Content(path) };
                    (request, ThumbAction::ReadFile(read))
                } else {
                    ThumbRequest::finish(thumb_dir, ThumbAction::Fail(AppError::PathTraversal))
                }
            },
            (_, ThumbEvent::Canonical(Err(text))) => {
                let why: String = labelled("无法规范化缩略图路径: ", text.as_str());
                ThumbRequest::finish(thumb_dir, ThumbAction::Fail(AppError::Internal(why)))
            },
            (ThumbState::Content(path), ThumbEvent::Content(Ok(size))) => {
                let looked_up: FilePath = path.copy();
                let request = ThumbRequest { thumb_dir, state: ThumbState::Metadata(path, size) };
                (request, ThumbAction::ReadMetadata(looked_up))
            },
            (ThumbState::Metadata(path, size), ThumbEvent::Metadata(Ok(modified))) => {
                let headers: ThumbHeaders = thumb_headers(content_type_of(&path), modified, size);
                ThumbRequest::finish(thumb_dir, ThumbAction::Reply(headers))
            },
            (_, ThumbEvent::Content(Err(text))) => ThumbRequest::finish(
                thumb_dir,
                ThumbAction::Fail(AppError::Io(text)),
            ),
            (_, ThumbEvent::Metadata(Err(text))) => ThumbRequest::finish(
                thumb_dir,
                ThumbAction::Fail(AppError::Io(text)),
            ),
            _ => ThumbRequest::finish(
                thumb_dir,
                ThumbAction::Generate(AppError::ThumbnailNotReady),
            ),
        }
    }
}

/// Only files in the directory of thumbnails are read, whatever thumbnail is asked
/// for and wherever links lead, and one elsewhere is refused.
pub proof fn lemma_thumbnails_stay_inside(request: ThumbRequestView, event: ThumbEventView)
    requires
        request.inv(),
        request.expects(event),
    ensures
        request.at(request.step(event).state).inv(),
        request.step(event).action matches ThumbActionView::ReadFile(path) ==> lies_in(
            path,
            request.thumb_dir,
        ),
        request.step(event).action matches ThumbActionView::ReadMetadata(path) ==> lies_in(
            path,
            request.thumb_dir,
        ),
        event matches ThumbEventView::Canonical(Ok(path)) && !lies_in(path, request.thumb_dir) ==> (
        request.step(event).action matches ThumbActionView::Fail(response) && response.status
            == 403),
{
}

/// No two versions of a thumbnail share a tag, unless they were changed in the
/// same second and are of one size.
pub proof fn lemma_etag_injective(seconds1: nat, size1: nat, seconds2: nat, size2: nat)
    requires
        etag_of(seconds1, size1) == etag_of(seconds2, size2),
    ensures
        seconds1 == seconds2,
        size1 == size2,
{
    reveal_strlit("\"");
    reveal_strlit("-");
    let a = hexadecimal(seconds1);
    let b = hexadecimal(size1);
    let c = hexadecimal(seconds2);
    let d = hexadecimal(size2);
    let tag = etag_of(seconds1, size1);
    lemma_numeral_digits(seconds1, 16);
    lemma_numeral_digits(size1, 16);
    lemma_numeral_digits(seconds2, 16);
    lemma_numeral_digits(size2, 16);
    assert(tag[a.len() as int + 1] == '-');
    assert(tag[c.len() as int + 1] == '-');
    assert forall|i: int| 0 <= i < a.len() implies tag[i + 1] == a[i] by {}
    assert forall|i: int| 0 <= i < c.len() implies tag[i + 1] == c[i] by {}
    if a.len() < c.len() {
        assert(is_hex_digit(c[a.len() as int]));
        assert(tag[a.len() as int + 1] == c[a.len() as int]);
    }
    if c.len() < a.len() {
        assert(is_hex_digit(a[c.len() as int]));
        assert(tag[c.len() as int + 1] == a[c.len() as int]);
    }
    assert(a == c);
    assert(tag == etag_of(seconds2, size2));
    assert(tag.len() == a.len() + b.len() + 3);
    assert(tag.len() == c.len() + d.len() + 3);
    assert forall|i: int| 0 <= i < b.len() implies b[i] == d[i] by {
        assert(tag[a.len() as int + 2 + i] == b[i]);
        assert(tag[c.len() as int + 2 + i] == d[i]);
    }
    assert(b == d);
    lemma_numeral_injective(seconds1, seconds2, 16);
    lemma_numeral_injective(size1, size2, 16);
}

/// The tag of a thumbnail is two hexadecimal numerals in quotation marks with `-` between
/// them: the first is when the thumbnail was changed and the second its size.
pub proof fn lemma_etag_is_time_and_size(seconds: nat, size: nat) -> (parts: (Seq<char>, Seq<char>))
    ensures
        etag_of(seconds, size) == seq!['"'] + parts.0 + seq!['-'] + parts.1 + seq!['"'],
        numeral_value(parts.0, 16) == seconds,
        numeral_value(parts.1, 16) == size,
        forall|i: int| 0 <= i < parts.0.len() ==> is_hex_digit(#[trigger] parts.0[i]),
        forall|i: int| 0 <= i < parts.1.len() ==> is_hex_digit(#[trigger] parts.1[i]),
        parts.0.len() > 1 ==> parts.0[0] != '0',
        parts.1.len() > 1 ==> parts.1[0] != '0',
{
    reveal_strlit("\"");
    reveal_strlit("-");
    lemma_numeral_digits(seconds, 16);
    lemma_numeral_digits(size, 16);
    lemma_numeral_read_back(seconds, 16);
    lemma_numeral_read_back(size, 16);
    assert("\""@ == seq!['"']);
    assert("-"@ == seq!['-']);
    (hexadecimal(seconds), hexadecimal(size))
}

/// A thumbnail that is there and lies in the directory of thumbnails is served: it is read
/// from the very path that was found, and served under the media type of its extension,
/// for a day, with a tag of when it was changed and how large it is.
pub proof fn lemma_thumbnail_served(
    request: ThumbRequestView,
    looked_up: Seq<ComponentView>,
    path: Seq<ComponentView>,
    size: usize,
    modified: Option<u64>,
)
    requires
        request.state == ThumbStateView::Existence(looked_up),
        request.thumb_dir.is_prefix_of(path),
    ensures
        ({
            let exist = request.step(ThumbEventView::Exists(true));
            let found = request.at(exist.state).step(ThumbEventView::Canonical(Ok(path)));
            let read = request.at(found.state).step(ThumbEventView::Content(Ok(size)));
            let known = request.at(read.state).step(ThumbEventView::Metadata(Ok(modified)));
            &&& exist.action == ThumbActionView::Canonicalize(looked_up)
            &&& found.action == ThumbActionView::ReadFile(path)
            &&& read.action == ThumbActionView::ReadMetadata(path)
            &&& known.action matches ThumbActionView::Reply(headers) && {
                &&& headers.cache_control == "public, max-age=86400"@
                &&& headers.content_type == guessed_media_type(
                    match extension_of(path) {
                        Some(extension) => extension,
                        None => Seq::empty(),
                    },
                )
                &&& headers.etag == etag_of(
                    match modified {
                        Some(seconds) => seconds as nat,
                        None => 0,
                    },
                    size as nat,
                )
            }
        }),
{
    assert(path.take(request.thumb_dir.len() as int) == request.thumb_dir);
}

/// A thumbnail that is not there is made, and the request is answered that it is not there
/// yet, which is no more than a warning. One outside the directory of thumbnails is
/// refused. Where its path, its content or its time cannot be had, the answer says why.
pub proof fn lemma_thumbnail_not_served(
    request: ThumbRequestView,
    path: Seq<ComponentView>,
    size: usize,
    text: Seq<char>,
)
    ensures
        request.state is Existence ==> (request.step(ThumbEventView::Exists(false)).action matches
            ThumbActionView::Generate(response) && response.status == 404 && response.level
            == LogLevel::Warning && response.body == "缩略图尚未生成，请稍后重试"@),
        request.state is CanonicalPath && !request.thumb_dir.is_prefix_of(path) ==> (request.step(
            ThumbEventView::Canonical(Ok(path)),
        ).action matches ThumbActionView::Fail(response) && response.status == 403),
        request.state is CanonicalPath ==> (request.step(
            ThumbEventView::Canonical(Err(text)),
        ).action matches ThumbActionView::Fail(response) && response.status == 500 && is_labelled(
            response.body,
            "内部错误: "@,
            "无法规范化缩略图路径: "@ + text,
        )),
        request.state == ThumbStateView::Content(path) ==> (request.step(
            ThumbEventView::Content(Err(text)),
        ).action matches ThumbActionView::Fail(response) && response.status == 500 && is_labelled(
            response.body,
            "文件 I/O 错误: "@,
            text,
        )),
        request.state == ThumbStateView::Metadata(path, size) ==> (request.step(
            ThumbEventView::Metadata(Err(text)),
        ).action matches ThumbActionView::Fail(response) && response.status == 500 && is_labelled(
            response.body,
            "文件 I/O 错误: "@,
            text,
        )),
{
    lemma_failed_answers(text, AppError::PathTraversal);
    lemma_failed_answers("无法规范化缩略图路径: "@ + text, AppError::PathTraversal);
    if !request.thumb_dir.is_prefix_of(path) {
        assert(!lies_in(path, request.thumb_dir)) by {
            if lies_in(path, request.thumb_dir) {
                assert(request.thumb_dir =~= path.subrange(0, request.thumb_dir.len() as int));
            }
        }
    }
}

/// A request for a thumbnail waits for what it was told to do, and for nothing once it is
/// answered.
pub proof fn lemma_thumb_request_goes_on(
    request: ThumbRequestView,
    event: ThumbEventView,
    answer: ThumbEventView,
)
    requires
        request.expects(event),
    ensures
        request.at(request.step(event).state).expects(answer) == match request.step(event).action {
            ThumbActionView::CheckExists(_) => answer is Exists,
            ThumbActionView::Generate(_) => false,
            ThumbActionView::Canonicalize(_) => answer is Canonical,
            ThumbActionView::ReadFile(_) => answer is Content,
            ThumbActionView::ReadMetadata(_) => answer is Metadata,
            ThumbActionView::Reply(_) => false,
            ThumbActionView::Fail(_) => false,
        },
        request.step(event).action is Reply <==> (event matches ThumbEventView::Metadata(Ok(_))),
{
}

} // verus!
