//! Requests to delete a file: only a file inside the directory of files is removed,
//! and its thumbnail goes with it.

use vstd::prelude::*;

use crate::error::{
    io_response, is_labelled, lemma_failed_answers, not_found_response, AppError, ErrorResponseView,
};
use crate::path::{
    child_of, is_plain_name, joined, lemma_join_plain_name, lies_in, ComponentView, FilePath,
};
use crate::thumbnail::{thumb_base_name, thumb_path, thumbnail_of};

verus! {

/// What a request to delete a file waits for.
#[derive(Debug)]
pub enum DeleteStage {
    /// The canonical path of the directory of files.
    Base,
    /// The canonical path of the file. The path is that of the directory.
    File(FilePath),
    /// The file's removal.
    Removal,
    /// The text by which the directory of files is known.
    DirectoryText,
    /// The removal of the thumbnail.
    Thumbnail,
    /// Nothing: the request is answered.
    Finished,
}

/// The mathematical value of a [`DeleteStage`].
pub enum DeleteStageView {
    Base,
    File(Seq<ComponentView>),
    Removal,
    DirectoryText,
    Thumbnail,
    Finished,
}

impl View for DeleteStage {
    type V = DeleteStageView;

    open spec fn view(&self) -> DeleteStageView {
        match self {
            DeleteStage::Base => DeleteStageView::Base,
            DeleteStage::File(base) => DeleteStageView::File(base@),
            DeleteStage::Removal => DeleteStageView::Removal,
            DeleteStage::DirectoryText => DeleteStageView::DirectoryText,
            DeleteStage::Thumbnail => DeleteStageView::Thumbnail,
            DeleteStage::Finished => DeleteStageView::Finished,
        }
    }
}

/// Why a file was not removed.
#[derive(Debug)]
pub enum RemovalError {
    /// There is no such file.
    Missing,
    /// Anything else. The text says what.
    Other(String),
}

/// The mathematical value of a [`RemovalError`].
pub enum RemovalErrorView {
    Missing,
    Other(Seq<char>),
}

/// What happened to a request to delete a file.
#[derive(Debug)]
pub enum DeleteEvent {
    /// The canonical path, or why there is none.
    Canonical(Result<FilePath, String>),
    /// The file was removed, or not.
    Removed(Result<(), RemovalError>),
    /// The text of the path of the directory of files, and that of its canonical
    /// path where it has one.
    DirectoryText(String, Option<String>),
    /// Whether the thumbnail was removed.
    ThumbnailRemoved(bool),
}

/// The mathematical value of a [`DeleteEvent`]. The directory of files counts by the
/// text by which it is known.
pub enum DeleteEventView {
    Canonical(Result<Seq<ComponentView>, Seq<char>>),
    Removed(Result<(), RemovalErrorView>),
    DirectoryText(Seq<char>),
    ThumbnailRemoved(bool),
}

impl View for DeleteEvent {
    type V = DeleteEventView;

    open spec fn view(&self) -> DeleteEventView {
        match self {
            DeleteEvent::Canonical(Ok(path)) => DeleteEventView::Canonical(Ok(path@)),
            DeleteEvent::Canonical(Err(text)) => DeleteEventView::Canonical(Err(text@)),
            DeleteEvent::Removed(Ok(_)) => DeleteEventView::Removed(Ok(())),
            DeleteEvent::Removed(Err(RemovalError::Missing)) => DeleteEventView::Removed(
                Err(RemovalErrorView::Missing),
            ),
            DeleteEvent::Removed(Err(RemovalError::Other(text))) => DeleteEventView::Removed(
                Err(RemovalErrorView::Other(text@)),
            ),
            DeleteEvent::DirectoryText(path, None) => DeleteEventView::DirectoryText(path@),
            DeleteEvent::DirectoryText(_, Some(canonical)) => DeleteEventView::DirectoryText(
                canonical@,
            ),
            DeleteEvent::ThumbnailRemoved(removed) => DeleteEventView::ThumbnailRemoved(*removed),
        }
    }
}

/// What is to be done for a request to delete a file.
#[derive(Debug)]
pub enum DeleteAction {
    /// Find the canonical path.
    Canonicalize(FilePath),
    /// Remove the file.
    RemoveFile(FilePath),
    /// Find the text of the path of the directory of files and that of its
    /// canonical path.
    FindDirectoryText,
    /// Remove the thumbnail, if it is there.
    RemoveThumbnail(FilePath),
    /// Answer that the file is deleted.
    Succeed,
    /// Answer with the error.
    Fail(AppError),
}

/// The mathematical value of a [`DeleteAction`]. An error counts by its answer.
pub enum DeleteActionView {
    Canonicalize(Seq<ComponentView>),
    RemoveFile(Seq<ComponentView>),
    FindDirectoryText,
    RemoveThumbnail(Seq<ComponentView>),
    Succeed,
    Fail(ErrorResponseView),
}

impl View for DeleteAction {
    type V = DeleteActionView;

    open spec fn view(&self) -> DeleteActionView {
        match self {
            DeleteAction::Canonicalize(path) => DeleteActionView::Canonicalize(path@),
            DeleteAction::RemoveFile(path) => DeleteActionView::RemoveFile(path@),
            DeleteAction::FindDirectoryText => DeleteActionView::FindDirectoryText,
            DeleteAction::RemoveThumbnail(path) => DeleteActionView::RemoveThumbnail(path@),
            DeleteAction::Succeed => DeleteActionView::Succeed,
            DeleteAction::Fail(error) => DeleteActionView::Fail(error.response()),
        }
    }
}

/// A request to delete a file.
#[derive(Debug)]
pub struct DeleteRequest {
    files_dir: FilePath,
    thumb_dir: FilePath,
    filename: String,
    windows: bool,
    stage: DeleteStage,
}

/// The mathematical value of a [`DeleteRequest`].
pub struct DeleteRequestView {
    pub files_dir: Seq<ComponentView>,
    pub thumb_dir: Seq<ComponentView>,
    pub filename: Seq<char>,
    pub windows: bool,
    pub stage: DeleteStageView,
}

impl View for DeleteRequest {
    type V = DeleteRequestView;

    closed spec fn view(&self) -> DeleteRequestView {
        DeleteRequestView {
            files_dir: self.files_dir@,
            thumb_dir: self.thumb_dir@,
            filename: self.filename@,
            windows: self.windows,
            stage: self.stage@,
        }
    }
}

impl DeleteRequestView {
    /// Whether the event can happen now.
    pub open spec fn expects(self, event: DeleteEventView) -> bool {
        match self.stage {
            DeleteStageView::Base => event is Canonical,
            DeleteStageView::File(_) => event is Canonical,
            DeleteStageView::Removal => event is Removed,
            DeleteStageView::DirectoryText => event is DirectoryText,
            DeleteStageView::Thumbnail => event is ThumbnailRemoved,
            DeleteStageView::Finished => false,
        }
    }

    /// This request, waiting for something else.
    pub open spec fn at(self, stage: DeleteStageView) -> DeleteRequestView {
        DeleteRequestView {
            files_dir: self.files_dir,
            thumb_dir: self.thumb_dir,
            filename: self.filename,
            windows: self.windows,
            stage,
        }
    }

    /// The path of the file.
    pub open spec fn file(self) -> Seq<ComponentView> {
        joined(self.files_dir, self.filename, self.windows)
    }

    /// What follows from an event that can happen: the request after it, and what
    /// is to be done.
    pub open spec fn step(self, event: DeleteEventView) -> (DeleteRequestView, DeleteActionView) {
        let over = self.at(DeleteStageView::Finished);
        match (self.stage, event) {
            (DeleteStageView::File(base), DeleteEventView::Canonical(Ok(path))) => if lies_in(
                path,
                base,
            ) {
                (self.at(DeleteStageView::Removal), DeleteActionView::RemoveFile(self.file()))
            } else {
                (over, DeleteActionView::Fail(AppError::PathTraversal.response()))
            },
            (DeleteStageView::File(_), DeleteEventView::Canonical(Err(_))) => (
                over,
                DeleteActionView::Fail(not_found_response(self.filename)),
            ),
            (_, DeleteEventView::Canonical(Ok(base))) => (
                self.at(DeleteStageView::File(base)),
                DeleteActionView::Canonicalize(self.file()),
            ),
            (_, DeleteEventView::Canonical(Err(text))) => (
                over,
                DeleteActionView::Fail(io_response(text)),
            ),
            (_, DeleteEventView::Removed(Ok(_))) => (
                self.at(DeleteStageView::DirectoryText),
                DeleteActionView::FindDirectoryText,
            ),
            (_, DeleteEventView::Removed(Err(RemovalErrorView::Missing))) => (
                over,
                DeleteActionView::Fail(not_found_response(self.filename)),
            ),
            (_, DeleteEventView::Removed(Err(RemovalErrorView::Other(text)))) => (
                over,
                DeleteActionView::Fail(io_response(text)),
            ),
            (_, DeleteEventView::DirectoryText(directory)) => (
                self.at(DeleteStageView::Thumbnail),
                DeleteActionView::RemoveThumbnail(
                    thumbnail_of(self.thumb_dir, directory, self.filename, self.windows),
                ),
            ),
            (_, DeleteEventView::ThumbnailRemoved(_)) => (over, DeleteActionView::Succeed),
        }
    }
}

/// Begins to answer a request to delete a file.
pub fn delete_file(
    files_dir: &FilePath,
    thumb_dir: &FilePath,
    filename: &str,
    windows: bool,
) -> (begun: (DeleteRequest, DeleteAction))
    ensures
        begun.0@ == (DeleteRequestView {
            files_dir: files_dir@,
            thumb_dir: thumb_dir@,
            filename: filename@,
            windows,
            stage: DeleteStageView::Base,
        }),
        begun.1@ == DeleteActionView::Canonicalize(files_dir@),
{
    let request = DeleteRequest {
        files_dir: files_dir.copy(),
        thumb_dir: thumb_dir.copy(),
        filename: filename.to_owned(),
        windows,
        stage: DeleteStage::Base,
    };
    (request, DeleteAction::Canonicalize(files_dir.copy()))
}

impl DeleteRequest {
    /// Whether the event can happen now.
    pub fn expects(&self, event: &DeleteEvent) -> (expected: bool)
        ensures
            expected == self@.expects(event@),
    {
        match (&self.stage, event) {
            (DeleteStage::Base, DeleteEvent::Canonical(_)) => true,
            (DeleteStage::File(_), DeleteEvent::Canonical(_)) => true,
            (DeleteStage::Removal, DeleteEvent::Removed(_)) => true,
            (DeleteStage::DirectoryText, DeleteEvent::DirectoryText(_, _)) => true,
            (DeleteStage::Thumbnail, DeleteEvent::ThumbnailRemoved(_)) => true,
            _ => false,
        }
    }

    fn moved(self, stage: DeleteStage) -> (request: DeleteRequest)
        ensures
            request@ == self@.at(stage@),
    {
        DeleteRequest {
            files_dir: self.files_dir,
            thumb_dir: self.thumb_dir,
            filename: self.filename,
            windows: self.windows,
            stage,
        }
    }

    fn failed(self, error: AppError) -> (next: (DeleteRequest, DeleteAction))
        ensures
            next.0@ == self@.at(DeleteStageView::Finished),
            next.1@ == DeleteActionView::Fail(error.response()),
    {
        (self.moved(DeleteStage::Finished), DeleteAction::Fail(error))
    }

    /// Takes note of what happened and says what is to be done next.
    pub fn step(self, event: DeleteEvent) -> (next: (DeleteRequest, DeleteAction))
        requires
            self@.expects(event@),
        ensures
            (next.0@, next.1@) == self@.step(event@),
    {
        match event {
            DeleteEvent::Canonical(found) => {
                let file: FilePath = self.files_dir.join(self.filename.as_str(), self.windows);
                let name: String = self.filename.clone();
                match (&self.stage, found) {
                    (DeleteStage::File(base), Ok(path)) => {
                        if path.starts_with(base) {
                            (self.moved(DeleteStage::Removal), DeleteAction::RemoveFile(file))
                        } else {
                            self.failed(AppError::PathTraversal)
                        }
                    },
                    (DeleteStage::File(_), Err(_)) => self.failed(AppError::NotFound(name)),
                    (_, Ok(base)) => (
                        self.moved(DeleteStage::File(base)),
                        DeleteAction::Canonicalize(file),
                    ),
                    (_, Err(text)) => self.failed(AppError::Io(text)),
                }
            },
            DeleteEvent::Removed(Ok(_)) => (
                self.moved(DeleteStage::DirectoryText),
                DeleteAction::FindDirectoryText,
            ),
            DeleteEvent::Removed(Err(RemovalError::Missing)) => {
                let name: String = self.filename.clone();
                self.failed(AppError::NotFound(name))
            },
            DeleteEvent::Removed(Err(RemovalError::Other(text))) => self.failed(AppError::Io(text)),
            DeleteEvent::DirectoryText(path, canonical) => {
                let known: Option<&str> = match &canonical {
                    Some(text) => Some(text.as_str()),
                    None => None,
                };
                let name: String = thumb_base_name(path.as_str(), known, self.filename.as_str());
                let thumbnail: FilePath = thumb_path(
                    &self.thumb_dir,
                    name.as_str(),
                    self.windows,
                );
                (self.moved(DeleteStage::Thumbnail), DeleteAction::RemoveThumbnail(thumbnail))
            },
            DeleteEvent::ThumbnailRemoved(_) => (
                self.moved(DeleteStage::Finished),
                DeleteAction::Succeed,
            ),
        }
    }
}

/// A file is removed only where its canonical path lies in the canonical path of
/// the directory of files, and one elsewhere is refused. What is removed is the file
/// that was asked for.
pub proof fn lemma_only_files_inside_are_removed(
    request: DeleteRequestView,
    event: DeleteEventView,
)
    requires
        request.expects(event),
    ensures
        request.step(event).1 matches DeleteActionView::RemoveFile(removed) ==> {
            &&& removed == joined(request.files_dir, request.filename, request.windows)
            &&& request.stage matches DeleteStageView::File(base)
            &&& event matches DeleteEventView::Canonical(Ok(path))
            &&& lies_in(path, base)
        },
        (request.stage matches DeleteStageView::File(base) && event
            matches DeleteEventView::Canonical(Ok(path)) && !lies_in(path, base)) ==> (request.step(
            event,
        ).1 matches DeleteActionView::Fail(response) && response.status == 403),
{
}

/// A file with a plain name is looked for directly in the directory of files.
pub proof fn lemma_deleted_file_is_in_directory(request: DeleteRequestView)
    requires
        is_plain_name(request.filename, request.windows),
    ensures
        request.file() == child_of(request.files_dir, request.filename),
        lies_in(request.file(), request.files_dir),
{
    lemma_join_plain_name(request.files_dir, request.filename, request.windows);
}

/// A file that is there and inside the directory is deleted with its thumbnail, and
/// the request succeeds whether or not there was a thumbnail.
pub proof fn lemma_delete_succeeds(
    request: DeleteRequestView,
    base: Seq<ComponentView>,
    path: Seq<ComponentView>,
    directory: Seq<char>,
    thumbnail_removed: bool,
)
    requires
        request.stage is Base,
        lies_in(path, base),
    ensures
        ({
            let found = request.step(DeleteEventView::Canonical(Ok(base))).0;
            let inside = found.step(DeleteEventView::Canonical(Ok(path)));
            let removed = inside.0.step(DeleteEventView::Removed(Ok(())));
            let known = removed.0.step(DeleteEventView::DirectoryText(directory));
            let cleaned = known.0.step(DeleteEventView::ThumbnailRemoved(thumbnail_removed));
            &&& inside.1 == DeleteActionView::RemoveFile(request.file())
            &&& removed.1 == DeleteActionView::FindDirectoryText
            &&& known.1 == DeleteActionView::RemoveThumbnail(
                thumbnail_of(request.thumb_dir, directory, request.filename, request.windows),
            )
            &&& cleaned.1 == DeleteActionView::Succeed
        }),
{
}

/// A request to delete looks at the directory of files first, and then at the very file
/// that it would remove: what is found to lie inside is what is removed. What the request
/// is about stays the same throughout.
pub proof fn lemma_checked_file_is_removed(
    request: DeleteRequestView,
    base: Seq<ComponentView>,
    path: Seq<ComponentView>,
)
    requires
        request.stage is Base,
    ensures
        ({
            let (found, look) = request.step(DeleteEventView::Canonical(Ok(base)));
            let (inside, action) = found.step(DeleteEventView::Canonical(Ok(path)));
            &&& look == DeleteActionView::Canonicalize(request.file())
            &&& found.expects(DeleteEventView::Canonical(Ok(path)))
            &&& base.is_prefix_of(path) ==> action == DeleteActionView::RemoveFile(request.file())
            &&& !base.is_prefix_of(path) ==> (action matches DeleteActionView::Fail(response)
                && response.status == 403)
        }),
{
    assert(base.is_prefix_of(path) == lies_in(path, base)) by {
        if base.is_prefix_of(path) {
            assert(path.take(base.len() as int) == base);
        }
    }
}

/// Where a file to delete is not there, or was gone when it was to be removed, the request
/// is answered that it is not found, by its name. Where the directory cannot be found or
/// the file cannot be removed, it is answered why.
pub proof fn lemma_delete_failures(
    request: DeleteRequestView,
    base: Seq<ComponentView>,
    text: Seq<char>,
)
    ensures
        request.stage is Base ==> (request.step(DeleteEventView::Canonical(Err(text))).1 matches
            DeleteActionView::Fail(response) && response.status == 500 && is_labelled(
            response.body,
            "文件 I/O 错误: "@,
            text,
        )),
        request.stage == DeleteStageView::File(base) ==> (request.step(
            DeleteEventView::Canonical(Err(text)),
        ).1 matches DeleteActionView::Fail(response) && response.status == 404 && is_labelled(
            response.body,
            "文件不存在: "@,
            request.filename,
        )),
        request.stage is Removal ==> (request.step(
            DeleteEventView::Removed(Err(RemovalErrorView::Missing)),
        ).1 matches DeleteActionView::Fail(response) && response.status == 404 && is_labelled(
            response.body,
            "文件不存在: "@,
            request.filename,
        )),
        request.stage is Removal ==> (request.step(
            DeleteEventView::Removed(Err(RemovalErrorView::Other(text))),
        ).1 matches DeleteActionView::Fail(response) && response.status == 500 && is_labelled(
            response.body,
            "文件 I/O 错误: "@,
            text,
        )),
{
    lemma_failed_answers(text, AppError::PathTraversal);
    lemma_failed_answers(request.filename, AppError::PathTraversal);
}

/// A request to delete waits for what it was told to do, and for nothing once it is
/// answered. What it is about stays the same, and the thumbnail is removed only after the
/// file was.
pub proof fn lemma_delete_goes_on(
    request: DeleteRequestView,
    event: DeleteEventView,
    answer: DeleteEventView,
)
    requires
        request.expects(event),
    ensures
        ({
            let (next, action) = request.step(event);
            &&& next.files_dir == request.files_dir
            &&& next.thumb_dir == request.thumb_dir
            &&& next.filename == request.filename
            &&& next.windows == request.windows
            &&& next.expects(answer) == match action {
                DeleteActionView::Canonicalize(_) => answer is Canonical,
                DeleteActionView::RemoveFile(_) => answer is Removed,
                DeleteActionView::FindDirectoryText => answer is DirectoryText,
                DeleteActionView::RemoveThumbnail(_) => answer is ThumbnailRemoved,
                DeleteActionView::Succeed => false,
                DeleteActionView::Fail(_) => false,
            }
            &&& action is FindDirectoryText <==> (event matches DeleteEventView::Removed(Ok(_)))
            &&& action is RemoveThumbnail <==> event is DirectoryText
            &&& action is Succeed <==> event is ThumbnailRemoved
        }),
{
}

/// The directory of files is known by the text of its canonical path, and by that of its path
/// where it has no canonical one.
pub proof fn lemma_directory_known_by(event: DeleteEvent)
    ensures
        event matches DeleteEvent::DirectoryText(path, Some(canonical)) ==> event@
            == DeleteEventView::DirectoryText(canonical@),
        event matches DeleteEvent::DirectoryText(path, None) ==> event@
            == DeleteEventView::DirectoryText(path@),
        event matches DeleteEvent::Canonical(Ok(path)) ==> event@ == DeleteEventView::Canonical(
            Ok(path@),
        ),
{
}

} // verus!
