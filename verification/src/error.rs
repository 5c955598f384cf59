//! What a request can fail with, and how it is then answered.

use vstd::prelude::*;

verus! {

/// What is wrong with the form of an upload, each with the text that says so.
#[derive(Debug)]
pub enum MulterError {
    /// A field is larger than allowed.
    FieldSizeExceeded(String),
    /// The whole form is larger than allowed.
    StreamSizeExceeded(String),
    /// Anything else.
    Other(String),
}

/// What a request can fail with.
#[derive(Debug)]
pub enum AppError {
    /// The upload has no `Content-Type` header.
    MissingContentType,
    /// The `Content-Type` header is not text. The text says how.
    InvalidContentType(String),
    /// The form cannot be read.
    MulterError(MulterError),
    /// A file or directory cannot be read or written. The text says why.
    Io(String),
    /// The request names a file outside the directory that it is about.
    PathTraversal,
    /// There is no such file.
    NotFound(String),
    /// Something else went wrong. The text says what.
    Internal(String),
    /// The thumbnail is being made.
    ThumbnailNotReady,
    /// The table of uploads cannot be had.
    LockError,
}

/// How loudly an error is recorded.
#[derive(Debug, Clone, Copy, PartialEq, Eq, Structural)]
pub enum LogLevel {
    Warning,
    Error,
}

/// The answer to a request that failed.
#[derive(Debug)]
pub struct ErrorResponse {
    pub status: u16,
    pub body: String,
    pub level: LogLevel,
}

/// The mathematical value of an [`ErrorResponse`].
pub struct ErrorResponseView {
    pub status: u16,
    pub body: Seq<char>,
    pub level: LogLevel,
}

impl View for ErrorResponse {
    type V = ErrorResponseView;

    open spec fn view(&self) -> ErrorResponseView {
        ErrorResponseView { status: self.status, body: self.body@, level: self.level }
    }
}

impl MulterError {
    /// The text that says what is wrong.
    pub open spec fn text(&self) -> Seq<char> {
        match self {
            MulterError::FieldSizeExceeded(text) => text@,
            MulterError::StreamSizeExceeded(text) => text@,
            MulterError::Other(text) => text@,
        }
    }

    /// Whether too much was sent.
    pub open spec fn is_too_large(&self) -> bool {
        self is FieldSizeExceeded || self is StreamSizeExceeded
    }
}

impl AppError {
    /// The status code of the answer.
    pub open spec fn status_code(&self) -> u16 {
        match self {
            AppError::MissingContentType => 400,
            AppError::InvalidContentType(_) => 400,
            AppError::MulterError(e) => if e.is_too_large() {
                413
            } else {
                400
            },
            AppError::Io(_) => 500,
            AppError::PathTraversal => 403,
            AppError::NotFound(_) => 404,
            AppError::Internal(_) => 500,
            AppError::ThumbnailNotReady => 404,
            AppError::LockError => 500,
        }
    }

    /// The text of the answer.
    pub open spec fn text(&self) -> Seq<char> {
        match self {
            AppError::MissingContentType => "缺少 Content-Type 头"@,
            AppError::InvalidContentType(e) => "Content-Type 头包含非 UTF-8 字符: "@ + e@,
            AppError::MulterError(e) => "multipart 处理错误: "@ + e.text(),
            AppError::Io(e) => "文件 I/O 错误: "@ + e@,
            AppError::PathTraversal => "路径遍历攻击"@,
            AppError::NotFound(name) => "文件不存在: "@ + name@,
            AppError::Internal(e) => "内部错误: "@ + e@,
            AppError::ThumbnailNotReady => "缩略图尚未生成，请稍后重试"@,
            AppError::LockError => "获取锁失败"@,
        }
    }

    /// The answer: the status and the text of the error. A thumbnail that is not
    /// ready yet is no more than a warning.
    pub open spec fn response(&self) -> ErrorResponseView {
        ErrorResponseView {
            status: self.status_code(),
            body: self.text(),
            level: if self is ThumbnailNotReady {
                LogLevel::Warning
            } else {
                LogLevel::Error
            },
        }
    }
}

/// The answer where a file or directory cannot be read or written.
pub open spec fn io_response(text: Seq<char>) -> ErrorResponseView {
    ErrorResponseView { status: 500, body: "文件 I/O 错误: "@ + text, level: LogLevel::Error }
}

/// The answer where there is no such file.
pub open spec fn not_found_response(name: Seq<char>) -> ErrorResponseView {
    ErrorResponseView { status: 404, body: "文件不存在: "@ + name, level: LogLevel::Error }
}

/// The answer where something else went wrong.
pub open spec fn internal_response(text: Seq<char>) -> ErrorResponseView {
    ErrorResponseView { status: 500, body: "内部错误: "@ + text, level: LogLevel::Error }
}

/// `text` behind a label.
pub(crate) fn labelled(label: &str, text: &str) -> (out: String)
    ensures
        out@ == label@ + text@,
{
    let mut out: String = label.to_owned();
    out.append(text);
    out
}

impl AppError {
    /// The status code of the answer.
    pub fn status(&self) -> (status: u16)
        ensures
            status == self.status_code(),
    {
        match self {
            AppError::MissingContentType => 400,
            AppError::InvalidContentType(_) => 400,
            AppError::MulterError(e) => match e {
                MulterError::FieldSizeExceeded(_) => 413,
                MulterError::StreamSizeExceeded(_) => 413,
                MulterError::Other(_) => 400,
            },
            AppError::Io(_) => 500,
            AppError::PathTraversal => 403,
            AppError::NotFound(_) => 404,
            AppError::Internal(_) => 500,
            AppError::ThumbnailNotReady => 404,
            AppError::LockError => 500,
        }
    }

    /// The text of the answer.
    pub fn message(&self) -> (message: String)
        ensures
            message@ == self.text(),
    {
        match self {
            AppError::MissingContentType => "缺少 Content-Type 头".to_owned(),
            AppError::InvalidContentType(e) => labelled(
                "Content-Type 头包含非 UTF-8 字符: ",
                e.as_str(),
            ),
            AppError::MulterError(e) => {
                let text: &str = match e {
                    MulterError::FieldSizeExceeded(t) => t.as_str(),
                    MulterError::StreamSizeExceeded(t) => t.as_str(),
                    MulterError::Other(t) => t.as_str(),
                };
                labelled("multipart 处理错误: ", text)
            },
            AppError::Io(e) => labelled("文件 I/O 错误: ", e.as_str()),
            AppError::PathTraversal => "路径遍历攻击".to_owned(),
            AppError::NotFound(name) => labelled("文件不存在: ", name.as_str()),
            AppError::Internal(e) => labelled("内部错误: ", e.as_str()),
            AppError::ThumbnailNotReady => "缩略图尚未生成，请稍后重试".to_owned(),
            AppError::LockError => "获取锁失败".to_owned(),
        }
    }

    /// How a request that failed with this error is answered.
    pub fn into_response(self) -> (response: ErrorResponse)
        ensures
            response@ == self.response(),
    {
        let level: LogLevel = match &self {
            AppError::ThumbnailNotReady => LogLevel::Warning,
            _ => LogLevel::Error,
        };
        ErrorResponse { status: self.status(), body: self.message(), level }
    }
}

/// Every error is answered with the status of a client's error or of a server's
/// error, and a form that is too large, and nothing else, with the status that
/// says so.
pub proof fn lemma_error_status(error: AppError)
    ensures
        400 <= error.response().status < 600,
        error.response().status == 413 <==> (error matches AppError::MulterError(e)
            && e.is_too_large()),
        error.response().status == 403 <==> error is PathTraversal,
        error.response().status >= 500 <==> (error is Io || error is Internal || error is LockError),
{
}

/// Every error has the status of its kind: a form that cannot be read is the fault of who
/// sent it, a file that is not there and a thumbnail that is not ready are not found, and
/// what goes wrong on the machine is the fault of the server. A thumbnail that is not
/// ready is a warning, and all else an error.
pub proof fn lemma_status_of_each_error(error: AppError)
    ensures
        error.response().status == 400 <==> (error is MissingContentType
            || error is InvalidContentType || (error matches AppError::MulterError(e)
            && e is Other)),
        error.response().status == 413 <==> (error matches AppError::MulterError(e) && (
        e is FieldSizeExceeded || e is StreamSizeExceeded)),
        error.response().status == 404 <==> (error is NotFound || error is ThumbnailNotReady),
        error.response().status == 403 <==> error is PathTraversal,
        error.response().status == 500 <==> (error is Io || error is Internal || error is LockError),
        error.response().level == LogLevel::Warning <==> error is ThumbnailNotReady,
{
}

/// The answer to an error says what went wrong: the text that came with it stands at the
/// end of the answer, behind a label of its kind.
pub proof fn lemma_error_says_why(error: AppError)
    ensures
        error.response().body == error.text(),
        match error {
            AppError::MissingContentType => error.text() == "缺少 Content-Type 头"@,
            AppError::InvalidContentType(e) => is_labelled(
                error.text(),
                "Content-Type 头包含非 UTF-8 字符: "@,
                e@,
            ),
            AppError::MulterError(MulterError::FieldSizeExceeded(e)) => is_labelled(
                error.text(),
                "multipart 处理错误: "@,
                e@,
            ),
            AppError::MulterError(MulterError::StreamSizeExceeded(e)) => is_labelled(
                error.text(),
                "multipart 处理错误: "@,
                e@,
            ),
            AppError::MulterError(MulterError::Other(e)) => is_labelled(
                error.text(),
                "multipart 处理错误: "@,
                e@,
            ),
            AppError::Io(e) => is_labelled(error.text(), "文件 I/O 错误: "@, e@),
            AppError::PathTraversal => error.text() == "路径遍历攻击"@,
            AppError::NotFound(name) => is_labelled(error.text(), "文件不存在: "@, name@),
            AppError::Internal(e) => is_labelled(error.text(), "内部错误: "@, e@),
            AppError::ThumbnailNotReady => error.text() == "缩略图尚未生成，请稍后重试"@,
            AppError::LockError => error.text() == "获取锁失败"@,
        },
{
    match error {
        AppError::InvalidContentType(e) => lemma_labelled("Content-Type 头包含非 UTF-8 字符: "@, e@),
        AppError::MulterError(e) => lemma_labelled("multipart 处理错误: "@, e.text()),
        AppError::Io(e) => lemma_labelled("文件 I/O 错误: "@, e@),
        AppError::NotFound(name) => lemma_labelled("文件不存在: "@, name@),
        AppError::Internal(e) => lemma_labelled("内部错误: "@, e@),
        _ => {},
    }
}

/// Whether a text is a label and what follows it.
pub open spec fn is_labelled(text: Seq<char>, label: Seq<char>, rest: Seq<char>) -> bool {
    &&& text.len() == label.len() + rest.len()
    &&& text.take(label.len() as int) == label
    &&& text.skip(label.len() as int) == rest
}

proof fn lemma_labelled(label: Seq<char>, rest: Seq<char>)
    ensures
        is_labelled(label + rest, label, rest),
{
    assert((label + rest).take(label.len() as int) == label);
    assert((label + rest).skip(label.len() as int) == rest);
}

/// The answers that requests fail with are those of the errors that stand for them, and
/// so have their status and say why.
pub proof fn lemma_failed_answers(text: Seq<char>, error: AppError)
    ensures
        io_response(text).status == 500,
        not_found_response(text).status == 404,
        internal_response(text).status == 500,
        is_labelled(io_response(text).body, "文件 I/O 错误: "@, text),
        is_labelled(not_found_response(text).body, "文件不存在: "@, text),
        is_labelled(internal_response(text).body, "内部错误: "@, text),
        error matches AppError::Io(e) ==> error.response() == io_response(e@),
        error matches AppError::NotFound(e) ==> error.response() == not_found_response(e@),
        error matches AppError::Internal(e) ==> error.response() == internal_response(e@),
{
    lemma_labelled("文件 I/O 错误: "@, text);
    lemma_labelled("文件不存在: "@, text);
    lemma_labelled("内部错误: "@, text);
}

} // verus!
