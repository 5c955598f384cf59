//! Thumbnails of images: which files have one, where it is kept and how it is made.

use vstd::prelude::*;

use vstd::string::is_ascii;
use vstd::utf8::encode_utf8;

use crate::error::labelled;
use crate::naming::{ends_in_name, lemma_text_extension, text_extension};
use crate::outside::{
    blake3_hex, can_break_off, hash_hex, image_shape, is_webp_thumbnail, read_shape, scale_image,
    scale_pixels, scaled_image, scaled_pixels,
};
use crate::path::{
    child_of, extension_of, is_extension_dot, is_plain_name, is_separator, joined,
    lemma_extension_follows_dot, lemma_extension_whatever_case, lemma_join_plain_name,
    lemma_no_dot_no_extension, lemma_with_extension, lies_in, name_of, name_stem, names_share,
    opened, parent_of, with_extension_of, ComponentView, FilePath,
};
use crate::scaling::{can_sum, sums_fit, Channels};
use crate::text::{ascii_lowered, ends_in, is_hex_digit, lower, same_text};

verus! {

/// The extension of a thumbnail.
pub const THUMB_EXT: &'static str = "webp";

/// The length of the longer side of a thumbnail, in pixels.
pub const THUMB_SIDE: u32 = 200;

/// Whether files with this extension, in lower case, are images.
pub open spec fn is_image_extension(extension: Seq<char>) -> bool {
    ||| extension == "jpg"@
    ||| extension == "jpeg"@
    ||| extension == "png"@
    ||| extension == "gif"@
    ||| extension == "bmp"@
    ||| extension == "webp"@
    ||| extension == "heic"@
    ||| extension == "heif"@
}

/// Whether a file of this name is an image, by its extension and whatever the case
/// of that. No letter outside ASCII has a letter of these extensions for its lower
/// case.
pub open spec fn is_image_name(filename: Seq<char>, windows: bool) -> bool {
    text_extension(filename, windows) matches Some(extension) && is_image_extension(
        ascii_lowered(extension),
    )
}

/// Whether a file of this name is an image.
pub fn is_image(filename: &str, windows: bool) -> (image: bool)
    ensures
        image == is_image_name(filename@, windows),
{
    match FilePath::parse(filename, windows).extension() {
        Some(extension) => {
            let low: String = lower(extension.as_str());
            let ext: &str = low.as_str();
            same_text(ext, "jpg") || same_text(ext, "jpeg") || same_text(ext, "png") || same_text(
                ext,
                "gif",
            ) || same_text(ext, "bmp") || same_text(ext, "webp") || same_text(ext, "heic")
                || same_text(ext, "heif")
        },
        None => false,
    }
}

/// The directory of thumbnails: beside the directory of files, or in it where that
/// lies in no other.
pub open spec fn thumbnails_beside(files_dir: Seq<ComponentView>) -> Seq<ComponentView> {
    match parent_of(files_dir) {
        Some(parent) => child_of(parent, "thumbnails"@),
        None => child_of(files_dir, "thumbnails"@),
    }
}

/// The directory of thumbnails for a directory of files.
pub fn thumb_dir(files_dir: &FilePath) -> (dir: FilePath)
    ensures
        dir@ == thumbnails_beside(files_dir@),
{
    match files_dir.parent() {
        Some(parent) => parent.child("thumbnails"),
        None => files_dir.child("thumbnails"),
    }
}

/// The name of a thumbnail before it gets its extension: how the hash of the
/// directory of the file begins, and the name of the file.
pub open spec fn thumb_name(directory_hash: Seq<char>, filename: Seq<char>) -> Seq<char> {
    directory_hash.take(16) + "_"@ + filename
}

/// The name of a thumbnail for a directory with that hash.
pub fn thumb_name_for_hash(directory_hash: &str, filename: &str) -> (name: String)
    requires
        directory_hash.is_ascii(),
        directory_hash@.len() >= 16,
    ensures
        name@ == thumb_name(directory_hash@, filename@),
{
    let mut name: String = directory_hash.substring_ascii(0, 16).to_owned();
    assert(directory_hash@.take(16) == directory_hash@.subrange(0, 16));
    name.append("_");
    name.append(filename);
    name
}

/// The text by which the directory of files is known: that of its canonical path,
/// where there is one.
pub open spec fn known_as(files_dir: &str, canonical: Option<&str>) -> Seq<char> {
    match canonical {
        Some(path) => path@,
        None => files_dir@,
    }
}

/// The name of the thumbnail of a file in that directory, before it gets its
/// extension.
pub open spec fn thumb_base_name_of(directory: Seq<char>, filename: Seq<char>) -> Seq<char> {
    thumb_name(blake3_hex(encode_utf8(directory)), filename)
}

/// The name of the thumbnail of a file, before it gets its extension. The
/// directory of files counts by the text of its canonical path, or of its path
/// where it has no canonical one.
pub fn thumb_base_name(files_dir: &str, canonical: Option<&str>, filename: &str) -> (name: String)
    ensures
        name@ == thumb_base_name_of(known_as(files_dir, canonical), filename@),
{
    let directory: &str = match canonical {
        Some(path) => path,
        None => files_dir,
    };
    let hash: String = hash_hex(directory.as_bytes());
    let digits: &str = hash.as_str();
    assert(is_ascii(digits)) by {
        assert forall|i: int| 0 <= i < digits@.len() implies (digits@[i] as nat) < 128 by {
            assert(is_hex_digit(hash@[i]));
        }
    }
    thumb_name_for_hash(digits, filename)
}

/// The path of a thumbnail of that name.
pub open spec fn thumb_path_of(dir: Seq<ComponentView>, name: Seq<char>, windows: bool) -> Seq<
    ComponentView,
> {
    with_extension_of(joined(dir, name, windows), THUMB_EXT@)
}

/// The path of a thumbnail of that name.
pub fn thumb_path(dir: &FilePath, name: &str, windows: bool) -> (path: FilePath)
    ensures
        path@ == thumb_path_of(dir@, name@, windows),
{
    proof {
        reveal_strlit("webp");
    }
    dir.join(name, windows).with_extension(THUMB_EXT)
}

/// The path of the thumbnail of a file in that directory.
pub open spec fn thumbnail_of(
    thumb_dir: Seq<ComponentView>,
    directory: Seq<char>,
    filename: Seq<char>,
    windows: bool,
) -> Seq<ComponentView> {
    thumb_path_of(thumb_dir, thumb_base_name_of(directory, filename), windows)
}

/// What reads an image.
#[derive(Debug, Clone, Copy, PartialEq, Eq, Structural)]
pub enum Decoder {
    /// The decoder of HEIF images.
    Heif,
    /// The decoder of all other images.
    Image,
}

/// What reads the image at that path.
pub open spec fn decoder_for(path: Seq<ComponentView>) -> Decoder {
    match extension_of(path) {
        Some(extension) => if ascii_lowered(extension) == "heic"@ || ascii_lowered(extension)
            == "heif"@ {
            Decoder::Heif
        } else {
            Decoder::Image
        },
        None => Decoder::Image,
    }
}

/// What reads the image at that path.
pub fn choose_decoder(path: &FilePath) -> (decoder: Decoder)
    ensures
        decoder == decoder_for(path@),
{
    match path.extension() {
        Some(extension) => {
            let low: String = lower(extension.as_str());
            if same_text(low.as_str(), "heic") || same_text(low.as_str(), "heif") {
                Decoder::Heif
            } else {
                Decoder::Image
            }
        },
        None => Decoder::Image,
    }
}

/// Why a thumbnail could not be made, with the text of what went wrong.
#[derive(Debug)]
pub enum ThumbnailError {
    /// The path of the image is not text.
    PathNotText(String),
    /// The HEIF file cannot be read.
    ReadHeif(String),
    /// The HEIF file has no image.
    NoPrimaryImage(String),
    /// The HEIF image cannot be decoded.
    DecodeHeif(String),
    /// The HEIF image has no interleaved pixels.
    NoPixels,
    /// The HEIF image has fewer pixels than it says.
    TooFewPixels,
    /// The image cannot be read or decoded.
    DecodeImage(String),
    /// The thumbnail cannot be written.
    Save(String),
}

impl ThumbnailError {
    /// The text of the error.
    pub open spec fn text(&self) -> Seq<char> {
        match self {
            ThumbnailError::PathNotText(path) => "路径包含非 UTF-8 字符: "@ + path@,
            ThumbnailError::ReadHeif(e) => "读取 HEIC 文件失败: "@ + e@,
            ThumbnailError::NoPrimaryImage(e) => "获取主图像失败: "@ + e@,
            ThumbnailError::DecodeHeif(e) => "解码 HEIC 失败: "@ + e@,
            ThumbnailError::NoPixels => "无法获取 interleaved 数据"@,
            ThumbnailError::TooFewPixels => "无法构建 ImageBuffer"@,
            ThumbnailError::DecodeImage(e) => "无法解码图片: "@ + e@,
            ThumbnailError::Save(e) => e@,
        }
    }

    /// The text of the error.
    pub fn message(&self) -> (message: String)
        ensures
            message@ == self.text(),
    {
        match self {
            ThumbnailError::PathNotText(path) => labelled("路径包含非 UTF-8 字符: ", path.as_str()),
            ThumbnailError::ReadHeif(e) => labelled("读取 HEIC 文件失败: ", e.as_str()),
            ThumbnailError::NoPrimaryImage(e) => labelled("获取主图像失败: ", e.as_str()),
            ThumbnailError::DecodeHeif(e) => labelled("解码 HEIC 失败: ", e.as_str()),
            ThumbnailError::NoPixels => "无法获取 interleaved 数据".to_owned(),
            ThumbnailError::TooFewPixels => "无法构建 ImageBuffer".to_owned(),
            ThumbnailError::DecodeImage(e) => labelled("无法解码图片: ", e.as_str()),
            ThumbnailError::Save(e) => e.clone(),
        }
    }
}


/// The name of the file that a path ends in, and the empty text where it ends in
/// no name.
pub open spec fn name_text(path: Seq<ComponentView>) -> Seq<char> {
    match name_of(path) {
        Some(name) => name,
        None => Seq::empty(),
    }
}

fn name_or_nothing(path: &FilePath) -> (name: String)
    ensures
        name@ == name_text(path@),
{
    match path.file_name() {
        Some(name) => name,
        None => String::new(),
    }
}

/// The name by which the format of an image goes: that of its file, and the empty
/// text where that ends in a dot.
pub open spec fn source_text(path: Seq<ComponentView>) -> Seq<char> {
    match extension_of(path) {
        Some(extension) => if extension.len() == 0 {
            Seq::empty()
        } else {
            name_text(path)
        },
        None => name_text(path),
    }
}

fn source_or_nothing(path: &FilePath) -> (source: String)
    ensures
        source@ == source_text(path@),
{
    proof {
        reveal_strlit("");
    }
    match path.extension() {
        Some(extension) => {
            assert(extension@.len() == 0 ==> extension@ == ""@);
            if same_text(extension.as_str(), "") {
                String::new()
            } else {
                name_or_nothing(path)
            }
        },
        None => name_or_nothing(path),
    }
}

/// Whether files of that name may be read by a decoder that can break off.
pub fn may_break_off(source: &str) -> (may: bool)
    ensures
        may == can_break_off(source@),
{
    let low: String = lower(source);
    let name: &str = low.as_str();
    ends_in(name, ".jpg") || ends_in(name, ".jpeg") || ends_in(name, ".jfif") || ends_in(
        name,
        ".tif",
    ) || ends_in(name, ".tiff") || ends_in(name, ".webp") || ends_in(name, "/") || ends_in(
        name,
        "\\",
    ) || ends_in(name, ".")
}

/// What follows from what became of an image in a file.
pub fn thumbnail_from_image(made: Result<Result<Vec<u8>, String>, String>) -> (thumbnail: Result<
    Vec<u8>,
    ThumbnailError,
>)
    ensures
        match made {
            Ok(Ok(bytes)) => thumbnail == Ok::<Vec<u8>, ThumbnailError>(bytes),
            Ok(Err(text)) => thumbnail == Err::<Vec<u8>, ThumbnailError>(ThumbnailError::Save(text)),
            Err(text) => thumbnail == Err::<Vec<u8>, ThumbnailError>(
                ThumbnailError::DecodeImage(text),
            ),
        },
{
    match made {
        Ok(Ok(bytes)) => Ok(bytes),
        Ok(Err(text)) => Err(ThumbnailError::Save(text)),
        Err(text) => Err(ThumbnailError::DecodeImage(text)),
    }
}

/// Whether this is the thumbnail that is made of an image in a file, or the error
/// that comes of it. The formats of both go by the names that their paths end in.
pub open spec fn is_made_thumbnail(
    image: Seq<ComponentView>,
    content: Seq<u8>,
    thumbnail: Seq<ComponentView>,
    made: Result<Vec<u8>, ThumbnailError>,
) -> bool {
    let shape = image_shape(source_text(image), content);
    &&& match scaled_image(source_text(image), content, THUMB_SIDE, name_text(thumbnail)) {
        Ok(Ok(bytes)) => made matches Ok(out) && out@ == bytes,
        Ok(Err(text)) => made matches Err(ThumbnailError::Save(out)) && out@ == text,
        Err(text) => made matches Err(ThumbnailError::DecodeImage(out)) && out@ == text,
    }
    &&& shape is None ==> (made matches Err(ThumbnailError::DecodeImage(_)))
    &&& made matches Ok(out) ==> ".webp"@.is_suffix_of(name_text(thumbnail)) ==> (shape matches Some(
        known,
    ) && is_webp_thumbnail(out@, known.0, known.1))
}

/// Whether a thumbnail can be made of an image in a file: what reads it does not
/// break off, and the machine can sum its pixels, if it is an image.
pub open spec fn can_be_scaled(image: Seq<ComponentView>, content: Seq<u8>) -> bool {
    &&& !can_break_off(source_text(image))
    &&& image_shape(source_text(image), content) matches Some(shape) ==> sums_fit(shape)
}

/// Makes the thumbnail of an image in a file.
pub fn make_thumbnail(image: &FilePath, content: &Vec<u8>, thumbnail: &FilePath) -> (made: Result<
    Vec<u8>,
    ThumbnailError,
>)
    requires
        can_be_scaled(image@, content@),
    ensures
        is_made_thumbnail(image@, content@, thumbnail@, made),
{
    let source: String = source_or_nothing(image);
    let target: String = name_or_nothing(thumbnail);
    thumbnail_from_image(scale_image(source.as_str(), content, THUMB_SIDE, target.as_str()))
}

/// Makes the thumbnail of an image in a file, if what reads it does not break off and
/// the machine can sum its pixels.
pub fn try_make_thumbnail(image: &FilePath, content: &Vec<u8>, thumbnail: &FilePath) -> (tried: Option<
    Result<Vec<u8>, ThumbnailError>,
>)
    ensures
        tried is None <==> !can_be_scaled(image@, content@),
        tried matches Some(made) ==> is_made_thumbnail(image@, content@, thumbnail@, made),
{
    let source: String = source_or_nothing(image);
    if may_break_off(source.as_str()) {
        return None;
    }
    let fits: bool = match read_shape(source.as_str(), content) {
        Some(shape) => can_sum(shape),
        None => true,
    };
    if fits {
        Some(make_thumbnail(image, content, thumbnail))
    } else {
        None
    }
}

/// What follows from what became of the pixels of an image.
pub fn thumbnail_from_pixels(made: Option<Result<Vec<u8>, String>>) -> (thumbnail: Result<
    Vec<u8>,
    ThumbnailError,
>)
    ensures
        match made {
            Some(Ok(bytes)) => thumbnail == Ok::<Vec<u8>, ThumbnailError>(bytes),
            Some(Err(text)) => thumbnail == Err::<Vec<u8>, ThumbnailError>(
                ThumbnailError::Save(text),
            ),
            None => thumbnail == Err::<Vec<u8>, ThumbnailError>(ThumbnailError::TooFewPixels),
        },
{
    match made {
        Some(Ok(bytes)) => Ok(bytes),
        Some(Err(text)) => Err(ThumbnailError::Save(text)),
        None => Err(ThumbnailError::TooFewPixels),
    }
}

/// Whether a thumbnail can be made of an image that was decoded: the machine can sum
/// its pixels.
pub open spec fn can_be_summed(width: u32, height: u32, channels: Channels) -> bool {
    sums_fit((width, height, channels.count() as u8, channels.count() as u8))
}

/// Whether this is the thumbnail that is made of an image that was decoded, or the
/// error that comes of it. The format of the thumbnail goes by the name that its path
/// ends in.
pub open spec fn is_thumbnail_of_pixels(
    width: u32,
    height: u32,
    channels: Channels,
    pixels: Seq<u8>,
    thumbnail: Seq<ComponentView>,
    made: Result<Vec<u8>, ThumbnailError>,
) -> bool {
    let target = name_text(thumbnail);
    if pixels.len() < channels.count() * width * height {
        made matches Err(ThumbnailError::TooFewPixels)
    } else {
        &&& match scaled_pixels(width, height, channels.count(), pixels, THUMB_SIDE, target) {
            Ok(bytes) => made matches Ok(out) && out@ == bytes,
            Err(text) => made matches Err(ThumbnailError::Save(out)) && out@ == text,
        }
        &&& made matches Ok(out) ==> ".webp"@.is_suffix_of(target) ==> is_webp_thumbnail(
            out@,
            width,
            height,
        )
    }
}

/// Makes the thumbnail of an image that was decoded into a byte for each channel of
/// a pixel, row after row.
pub fn make_thumbnail_of_pixels(
    width: u32,
    height: u32,
    channels: Channels,
    pixels: Vec<u8>,
    thumbnail: &FilePath,
) -> (made: Result<Vec<u8>, ThumbnailError>)
    requires
        can_be_summed(width, height, channels),
    ensures
        is_thumbnail_of_pixels(width, height, channels, pixels@, thumbnail@, made),
{
    let target: String = name_or_nothing(thumbnail);
    thumbnail_from_pixels(
        scale_pixels(width, height, channels, pixels, THUMB_SIDE, target.as_str()),
    )
}

/// Makes the thumbnail of an image that was decoded, if the machine can sum its
/// pixels.
pub fn try_make_thumbnail_of_pixels(
    width: u32,
    height: u32,
    channels: Channels,
    pixels: Vec<u8>,
    thumbnail: &FilePath,
) -> (tried: Option<Result<Vec<u8>, ThumbnailError>>)
    ensures
        tried is None <==> !can_be_summed(width, height, channels),
        tried matches Some(made) ==> is_thumbnail_of_pixels(
            width,
            height,
            channels,
            pixels@,
            thumbnail@,
            made,
        ),
{
    if can_sum((width, height, channels.number(), channels.number())) {
        Some(make_thumbnail_of_pixels(width, height, channels, pixels, thumbnail))
    } else {
        None
    }
}

/// What the making of a thumbnail waits for.
#[derive(Debug, Clone, Copy, PartialEq, Eq, Structural)]
pub enum ThumbTaskStage {
    /// Its turn: only some thumbnails are made at a time.
    Permit,
    /// The directory of thumbnails.
    Directory,
    /// The text by which the directory of files is known.
    DirectoryText,
    /// Whether the thumbnail is there already.
    Existence,
    /// The thumbnail.
    Thumbnail,
    /// Nothing: it is over.
    Finished,
}

/// How the making of a thumbnail ended.
#[derive(Debug)]
pub enum ThumbOutcome {
    /// No turn came.
    NoPermit,
    /// There is no directory of thumbnails. The text says why.
    NoDirectory(String),
    /// The thumbnail was there already.
    AlreadyThere,
    /// The thumbnail was made.
    Made,
    /// The thumbnail could not be made. The text says why.
    Failed(String),
    /// The making broke off. The text says why.
    BrokeOff(String),
}

/// The mathematical value of a [`ThumbOutcome`].
pub enum ThumbOutcomeView {
    NoPermit,
    NoDirectory(Seq<char>),
    AlreadyThere,
    Made,
    Failed(Seq<char>),
    BrokeOff(Seq<char>),
}

impl View for ThumbOutcome {
    type V = ThumbOutcomeView;

    open spec fn view(&self) -> ThumbOutcomeView {
        match self {
            ThumbOutcome::NoPermit => ThumbOutcomeView::NoPermit,
            ThumbOutcome::NoDirectory(text) => ThumbOutcomeView::NoDirectory(text@),
            ThumbOutcome::AlreadyThere => ThumbOutcomeView::AlreadyThere,
            ThumbOutcome::Made => ThumbOutcomeView::Made,
            ThumbOutcome::Failed(text) => ThumbOutcomeView::Failed(text@),
            ThumbOutcome::BrokeOff(text) => ThumbOutcomeView::BrokeOff(text@),
        }
    }
}

/// What happened while a thumbnail was made.
#[derive(Debug)]
pub enum ThumbTaskEvent {
    /// Whether its turn came.
    Permit(bool),
    /// The directory of thumbnails is there, or the text says why it is not.
    Directory(Result<(), String>),
    /// The text of the path of the directory of files, and that of its canonical
    /// path where it has one.
    DirectoryText(String, Option<String>),
    /// Whether the thumbnail is there.
    Exists(bool),
    /// The thumbnail was made and written, or not.
    Thumbnail(Result<(), ThumbnailError>),
    /// The making broke off. The text says why.
    BrokeOff(String),
}

/// The mathematical value of a [`ThumbTaskEvent`]. An error counts by its text, and
/// the directory of files by the text by which it is known.
pub enum ThumbTaskEventView {
    Permit(bool),
    Directory(Result<(), Seq<char>>),
    DirectoryText(Seq<char>),
    Exists(bool),
    Thumbnail(Result<(), Seq<char>>),
    BrokeOff(Seq<char>),
}

impl View for ThumbTaskEvent {
    type V = ThumbTaskEventView;

    open spec fn view(&self) -> ThumbTaskEventView {
        match self {
            ThumbTaskEvent::Permit(given) => ThumbTaskEventView::Permit(*given),
            ThumbTaskEvent::Directory(Ok(_)) => ThumbTaskEventView::Directory(Ok(())),
            ThumbTaskEvent::Directory(Err(text)) => ThumbTaskEventView::Directory(Err(text@)),
            ThumbTaskEvent::DirectoryText(path, None) => ThumbTaskEventView::DirectoryText(path@),
            ThumbTaskEvent::DirectoryText(_, Some(canonical)) => ThumbTaskEventView::DirectoryText(
                canonical@,
            ),
            ThumbTaskEvent::Exists(there) => ThumbTaskEventView::Exists(*there),
            ThumbTaskEvent::Thumbnail(Ok(_)) => ThumbTaskEventView::Thumbnail(Ok(())),
            ThumbTaskEvent::Thumbnail(Err(error)) => ThumbTaskEventView::Thumbnail(
                Err(error.text()),
            ),
            ThumbTaskEvent::BrokeOff(text) => ThumbTaskEventView::BrokeOff(text@),
        }
    }
}

/// What is to be done to make a thumbnail.
#[derive(Debug)]
pub enum ThumbTaskAction {
    /// Wait for a turn.
    AwaitPermit,
    /// Make the directory, and those above it.
    CreateDirectory(FilePath),
    /// Find the text of the path of the directory of files and that of its
    /// canonical path.
    FindDirectoryText,
    /// Look whether there is a file at the path.
    CheckExists(FilePath),
    /// Read the image, and make and write the thumbnail.
    Generate { image: FilePath, thumbnail: FilePath, decoder: Decoder },
    /// Stop.
    Stop(ThumbOutcome),
}

/// The mathematical value of a [`ThumbTaskAction`].
pub enum ThumbTaskActionView {
    AwaitPermit,
    CreateDirectory(Seq<ComponentView>),
    FindDirectoryText,
    CheckExists(Seq<ComponentView>),
    Generate { image: Seq<ComponentView>, thumbnail: Seq<ComponentView>, decoder: Decoder },
    Stop(ThumbOutcomeView),
}

impl View for ThumbTaskAction {
    type V = ThumbTaskActionView;

    open spec fn view(&self) -> ThumbTaskActionView {
        match self {
            ThumbTaskAction::AwaitPermit => ThumbTaskActionView::AwaitPermit,
            ThumbTaskAction::CreateDirectory(path) => ThumbTaskActionView::CreateDirectory(path@),
            ThumbTaskAction::FindDirectoryText => ThumbTaskActionView::FindDirectoryText,
            ThumbTaskAction::CheckExists(path) => ThumbTaskActionView::CheckExists(path@),
            ThumbTaskAction::Generate { image, thumbnail, decoder } => {
                ThumbTaskActionView::Generate {
                    image: image@,
                    thumbnail: thumbnail@,
                    decoder: *decoder,
                }
            },
            ThumbTaskAction::Stop(outcome) => ThumbTaskActionView::Stop(outcome@),
        }
    }
}

/// The making of the thumbnail of one file.
#[derive(Debug)]
pub struct ThumbTask {
    files_dir: FilePath,
    filename: String,
    windows: bool,
    thumbnail: FilePath,
    stage: ThumbTaskStage,
}

/// The mathematical value of a [`ThumbTask`]. The path of the thumbnail counts from
/// when it is known.
pub struct ThumbTaskView {
    pub files_dir: Seq<ComponentView>,
    pub filename: Seq<char>,
    pub windows: bool,
    pub thumbnail: Seq<ComponentView>,
    pub stage: ThumbTaskStage,
}

impl View for ThumbTask {
    type V = ThumbTaskView;

    closed spec fn view(&self) -> ThumbTaskView {
        ThumbTaskView {
            files_dir: self.files_dir@,
            filename: self.filename@,
            windows: self.windows,
            thumbnail: self.thumbnail@,
            stage: self.stage,
        }
    }
}

impl ThumbTaskView {
    /// Whether the event can happen now.
    pub open spec fn expects(self, event: ThumbTaskEventView) -> bool {
        match self.stage {
            ThumbTaskStage::Permit => event is Permit,
            ThumbTaskStage::Directory => event is Directory,
            ThumbTaskStage::DirectoryText => event is DirectoryText,
            ThumbTaskStage::Existence => event is Exists,
            ThumbTaskStage::Thumbnail => event is Thumbnail || event is BrokeOff,
            ThumbTaskStage::Finished => false,
        }
    }

    /// The same work, waiting for something else.
    pub open spec fn at(self, stage: ThumbTaskStage) -> ThumbTaskView {
        ThumbTaskView {
            files_dir: self.files_dir,
            filename: self.filename,
            windows: self.windows,
            thumbnail: self.thumbnail,
            stage,
        }
    }

    /// The same work, with the path of the thumbnail known.
    pub open spec fn with_thumbnail(self, thumbnail: Seq<ComponentView>) -> ThumbTaskView {
        ThumbTaskView {
            files_dir: self.files_dir,
            filename: self.filename,
            windows: self.windows,
            thumbnail,
            stage: ThumbTaskStage::Existence,
        }
    }

    /// The image that the thumbnail is made of.
    pub open spec fn image(self) -> Seq<ComponentView> {
        joined(self.files_dir, self.filename, self.windows)
    }

    /// What follows from an event that can happen: the work after it, and what is
    /// to be done.
    pub open spec fn step(self, event: ThumbTaskEventView) -> (ThumbTaskView, ThumbTaskActionView) {
        let over = self.at(ThumbTaskStage::Finished);
        match event {
            ThumbTaskEventView::Permit(true) => (
                self.at(ThumbTaskStage::Directory),
                ThumbTaskActionView::CreateDirectory(thumbnails_beside(self.files_dir)),
            ),
            ThumbTaskEventView::Permit(false) => (
                over,
                ThumbTaskActionView::Stop(ThumbOutcomeView::NoPermit),
            ),
            ThumbTaskEventView::Directory(Ok(_)) => (
                self.at(ThumbTaskStage::DirectoryText),
                ThumbTaskActionView::FindDirectoryText,
            ),
            ThumbTaskEventView::Directory(Err(text)) => (
                over,
                ThumbTaskActionView::Stop(ThumbOutcomeView::NoDirectory(text)),
            ),
            ThumbTaskEventView::DirectoryText(directory) => {
                let thumbnail = thumbnail_of(
                    thumbnails_beside(self.files_dir),
                    directory,
                    self.filename,
                    self.windows,
                );
                (self.with_thumbnail(thumbnail), ThumbTaskActionView::CheckExists(thumbnail))
            },
            ThumbTaskEventView::Exists(true) => (
                over,
                ThumbTaskActionView::Stop(ThumbOutcomeView::AlreadyThere),
            ),
            ThumbTaskEventView::Exists(false) => (
                self.at(ThumbTaskStage::Thumbnail),
                ThumbTaskActionView::Generate {
                    image: self.image(),
                    thumbnail: self.thumbnail,
                    decoder: decoder_for(self.image()),
                },
            ),
            ThumbTaskEventView::Thumbnail(Ok(_)) => (
                over,
                ThumbTaskActionView::Stop(ThumbOutcomeView::Made),
            ),
            ThumbTaskEventView::Thumbnail(Err(text)) => (
                over,
                ThumbTaskActionView::Stop(ThumbOutcomeView::Failed(text)),
            ),
            ThumbTaskEventView::BrokeOff(text) => (
                over,
                ThumbTaskActionView::Stop(ThumbOutcomeView::BrokeOff(text)),
            ),
        }
    }
}

/// Begins to make the thumbnail of a file.
pub fn spawn_thumbnail(files_dir: &FilePath, filename: &str, windows: bool) -> (begun: (
    ThumbTask,
    ThumbTaskAction,
))
    ensures
        begun.0@.files_dir == files_dir@,
        begun.0@.filename == filename@,
        begun.0@.windows == windows,
        begun.0@.stage == ThumbTaskStage::Permit,
        begun.1@ == ThumbTaskActionView::AwaitPermit,
{
    let task = ThumbTask {
        files_dir: files_dir.copy(),
        filename: filename.to_owned(),
        windows,
        thumbnail: FilePath { components: Vec::new() },
        stage: ThumbTaskStage::Permit,
    };
    (task, ThumbTaskAction::AwaitPermit)
}

impl ThumbTask {
    /// Whether the event can happen now.
    pub fn expects(&self, event: &ThumbTaskEvent) -> (expected: bool)
        ensures
            expected == self@.expects(event@),
    {
        match (self.stage, event) {
            (ThumbTaskStage::Permit, ThumbTaskEvent::Permit(_)) => true,
            (ThumbTaskStage::Directory, ThumbTaskEvent::Directory(_)) => true,
            (ThumbTaskStage::DirectoryText, ThumbTaskEvent::DirectoryText(_, _)) => true,
            (ThumbTaskStage::Existence, ThumbTaskEvent::Exists(_)) => true,
            (ThumbTaskStage::Thumbnail, ThumbTaskEvent::Thumbnail(_)) => true,
            (ThumbTaskStage::Thumbnail, ThumbTaskEvent::BrokeOff(_)) => true,
            _ => false,
        }
    }

    fn moved(self, stage: ThumbTaskStage) -> (task: ThumbTask)
        ensures
            task@ == self@.at(stage),
    {
        ThumbTask {
            files_dir: self.files_dir,
            filename: self.filename,
            windows: self.windows,
            thumbnail: self.thumbnail,
            stage,
        }
    }

    fn stopped(self, outcome: ThumbOutcome) -> (next: (ThumbTask, ThumbTaskAction))
        ensures
            next.0@ == self@.at(ThumbTaskStage::Finished),
            next.1@ == ThumbTaskActionView::Stop(outcome@),
    {
        (self.moved(ThumbTaskStage::Finished), ThumbTaskAction::Stop(outcome))
    }

    /// Takes note of what happened and says what is to be done next.
    pub fn step(self, event: ThumbTaskEvent) -> (next: (ThumbTask, ThumbTaskAction))
        requires
            self@.expects(event@),
        ensures
            (next.0@, next.1@) == self@.step(event@),
    {
        match event {
            ThumbTaskEvent::Permit(given) => {
                if given {
                    let dir: FilePath = thumb_dir(&self.files_dir);
                    (
                        self.moved(ThumbTaskStage::Directory),
                        ThumbTaskAction::CreateDirectory(dir),
                    )
                } else {
                    self.stopped(ThumbOutcome::NoPermit)
                }
            },
            ThumbTaskEvent::Directory(Ok(_)) => (
                self.moved(ThumbTaskStage::DirectoryText),
                ThumbTaskAction::FindDirectoryText,
            ),
            ThumbTaskEvent::Directory(Err(text)) => self.stopped(ThumbOutcome::NoDirectory(text)),
            ThumbTaskEvent::DirectoryText(path, canonical) => {
                let known: Option<&str> = match &canonical {
                    Some(text) => Some(text.as_str()),
                    None => None,
                };
                let name: String = thumb_base_name(path.as_str(), known, self.filename.as_str());
                let thumbnail: FilePath = thumb_path(
                    &thumb_dir(&self.files_dir),
                    name.as_str(),
                    self.windows,
                );
                let looked_up: FilePath = thumbnail.copy();
                let task = ThumbTask {
                    files_dir: self.files_dir,
                    filename: self.filename,
                    windows: self.windows,
                    thumbnail,
                    stage: ThumbTaskStage::Existence,
                };
                (task, ThumbTaskAction::CheckExists(looked_up))
            },
            ThumbTaskEvent::Exists(there) => {
                if there {
                    self.stopped(ThumbOutcome::AlreadyThere)
                } else {
                    let image: FilePath = self.files_dir.join(
                        self.filename.as_str(),
                        self.windows,
                    );
                    let thumbnail: FilePath = self.thumbnail.copy();
                    let decoder: Decoder = choose_decoder(&image);
                    (
                        self.moved(ThumbTaskStage::Thumbnail),
                        ThumbTaskAction::Generate { image, thumbnail, decoder },
                    )
                }
            },
            ThumbTaskEvent::Thumbnail(Ok(_)) => self.stopped(ThumbOutcome::Made),
            ThumbTaskEvent::Thumbnail(Err(error)) => {
                let text: String = error.message();
                self.stopped(ThumbOutcome::Failed(text))
            },
            ThumbTaskEvent::BrokeOff(text) => self.stopped(ThumbOutcome::BrokeOff(text)),
        }
    }
}

/// The thumbnail of a file whose name holds no separator lies directly in the
/// directory of thumbnails, and has the extension of thumbnails. The hash of a
/// directory is written in hexadecimal.
pub proof fn lemma_thumbnail_in_its_directory(
    dir: Seq<ComponentView>,
    directory_hash: Seq<char>,
    filename: Seq<char>,
    windows: bool,
)
    requires
        directory_hash.len() >= 16,
        forall|i: int| 0 <= i < 16 ==> is_hex_digit(#[trigger] directory_hash[i]),
        forall|i: int| 0 <= i < filename.len() ==> !is_separator(#[trigger] filename[i], windows),
    ensures
        parent_of(thumb_path_of(dir, thumb_name(directory_hash, filename), windows)) == Some(
            opened(dir),
        ),
        lies_in(thumb_path_of(dir, thumb_name(directory_hash, filename), windows), dir),
        extension_of(thumb_path_of(dir, thumb_name(directory_hash, filename), windows)) == Some(
            THUMB_EXT@,
        ),
{
    reveal_strlit("webp");
    let name = thumb_name(directory_hash, filename);
    lemma_thumb_name_plain(directory_hash, filename, windows);
    lemma_join_plain_name(dir, name, windows);
    lemma_with_extension(joined(dir, name, windows), THUMB_EXT@);
    let renamed = name_stem(name) + seq!['.'] + THUMB_EXT@;
    let path = thumb_path_of(dir, name, windows);
    assert(path == child_of(dir, renamed));
    assert(path.take(dir.len() as int) == dir);
}

/// The name of every thumbnail ends in the extension of thumbnails, so that it is
/// made as a WebP file.
pub proof fn lemma_thumbnail_is_named_webp(
    dir: Seq<ComponentView>,
    name: Seq<char>,
    windows: bool,
)
    requires
        name_of(joined(dir, name, windows)) is Some,
    ensures
        ".webp"@.is_suffix_of(name_text(thumb_path_of(dir, name, windows))),
{
    reveal_strlit("webp");
    reveal_strlit(".webp");
    let path = joined(dir, name, windows);
    let stem = name_stem(name_of(path).unwrap());
    let renamed = stem + seq!['.'] + THUMB_EXT@;
    assert(name_of(with_extension_of(path, THUMB_EXT@)) == Some(renamed));
    assert(renamed.subrange(stem.len() as int, renamed.len() as int) == ".webp"@);
}

proof fn lemma_thumb_name_plain(directory_hash: Seq<char>, filename: Seq<char>, windows: bool)
    requires
        directory_hash.len() >= 16,
        forall|i: int| 0 <= i < 16 ==> is_hex_digit(#[trigger] directory_hash[i]),
        forall|i: int| 0 <= i < filename.len() ==> !is_separator(#[trigger] filename[i], windows),
    ensures
        is_plain_name(thumb_name(directory_hash, filename), windows),
        thumb_name(directory_hash, filename).len() == 17 + filename.len(),
{
    reveal_strlit("_");
    let name = thumb_name(directory_hash, filename);
    assert forall|i: int| 0 <= i < name.len() implies !is_separator(#[trigger] name[i], windows) by {
        if i < 16 {
            assert(name[i] == directory_hash[i]);
        } else if i > 16 {
            assert(name[i] == filename[i - 17]);
        }
    }
    assert(is_hex_digit(directory_hash[1]));
    assert(name[1] == directory_hash[1]);
    assert(name.len() > 2);
}

/// No two files of a directory share the name that their thumbnails have before
/// they get their extension.
pub proof fn lemma_thumb_name_injective(
    directory_hash: Seq<char>,
    filename: Seq<char>,
    other: Seq<char>,
)
    requires
        directory_hash.len() >= 16,
        thumb_name(directory_hash, filename) == thumb_name(directory_hash, other),
    ensures
        filename == other,
{
    let hash = directory_hash.take(16) + "_"@;
    assert(filename == (hash + filename).skip(hash.len() as int));
    assert(other == (hash + other).skip(hash.len() as int));
}

/// Two files of a directory share a thumbnail where the names of their thumbnails
/// agree up to the extension that they have before they get their own, and nowhere
/// else.
pub proof fn lemma_thumbnail_shared(
    dir: Seq<ComponentView>,
    directory_hash: Seq<char>,
    filename: Seq<char>,
    other: Seq<char>,
    windows: bool,
)
    requires
        directory_hash.len() >= 16,
        forall|i: int| 0 <= i < 16 ==> is_hex_digit(#[trigger] directory_hash[i]),
        forall|i: int| 0 <= i < filename.len() ==> !is_separator(#[trigger] filename[i], windows),
        forall|i: int| 0 <= i < other.len() ==> !is_separator(#[trigger] other[i], windows),
    ensures
        thumb_path_of(dir, thumb_name(directory_hash, filename), windows) == thumb_path_of(
            dir,
            thumb_name(directory_hash, other),
            windows,
        ) <==> name_stem(thumb_name(directory_hash, filename)) == name_stem(
            thumb_name(directory_hash, other),
        ),
{
    let name1 = thumb_name(directory_hash, filename);
    let name2 = thumb_name(directory_hash, other);
    lemma_thumb_name_plain(directory_hash, filename, windows);
    lemma_thumb_name_plain(directory_hash, other, windows);
    lemma_join_plain_name(dir, name1, windows);
    lemma_join_plain_name(dir, name2, windows);
    let renamed1 = name_stem(name1) + seq!['.'] + THUMB_EXT@;
    let renamed2 = name_stem(name2) + seq!['.'] + THUMB_EXT@;
    assert(thumb_path_of(dir, name1, windows) == child_of(dir, renamed1));
    assert(thumb_path_of(dir, name2, windows) == child_of(dir, renamed2));
    if thumb_path_of(dir, name1, windows) == thumb_path_of(dir, name2, windows) {
        assert(child_of(dir, renamed1).last() == ComponentView::Normal(renamed1));
        assert(child_of(dir, renamed2).last() == ComponentView::Normal(renamed2));
        assert(renamed1 == renamed2);
        assert(name_stem(name1) == renamed1.take(renamed1.len() - 1 - THUMB_EXT@.len()));
        assert(name_stem(name2) == renamed2.take(renamed2.len() - 1 - THUMB_EXT@.len()));
    }
}

/// Whether a file is an image does not rest on the case of the letters of its name,
/// where both or neither name a share behind `\\?\UNC\`.
pub proof fn lemma_image_whatever_case(filename: Seq<char>, other: Seq<char>, windows: bool)
    requires
        ascii_lowered(filename) == ascii_lowered(other),
        windows ==> names_share(filename) == names_share(other),
    ensures
        is_image_name(filename, windows) == is_image_name(other, windows),
{
    lemma_extension_whatever_case(filename, other, windows);
}

/// A thumbnail that is not there is made of the file in the directory of files, and
/// one that is there is not made again. It is made where requests for it look, in
/// the directory beside the one of files.
pub proof fn lemma_missing_thumbnail_is_made(task: ThumbTaskView, directory: Seq<char>)
    requires
        task.stage == ThumbTaskStage::Permit,
    ensures
        ({
            let given = task.step(ThumbTaskEventView::Permit(true)).0;
            let placed = given.step(ThumbTaskEventView::Directory(Ok(()))).0;
            let named = placed.step(ThumbTaskEventView::DirectoryText(directory)).0;
            let image = joined(task.files_dir, task.filename, task.windows);
            &&& given.expects(ThumbTaskEventView::Directory(Ok(())))
            &&& placed.expects(ThumbTaskEventView::DirectoryText(directory))
            &&& named.expects(ThumbTaskEventView::Exists(false))
            &&& named.step(ThumbTaskEventView::Exists(false)).1 == (ThumbTaskActionView::Generate {
                image,
                thumbnail: thumbnail_of(
                    thumbnails_beside(task.files_dir),
                    directory,
                    task.filename,
                    task.windows,
                ),
                decoder: decoder_for(image),
            })
            &&& named.step(ThumbTaskEventView::Exists(true)).1 == ThumbTaskActionView::Stop(
                ThumbOutcomeView::AlreadyThere,
            )
        }),
{
}

/// The extensions of images are eight different ones.
proof fn lemma_image_extensions_differ()
    ensures
        "jpg"@ != "heic"@ && "jpg"@ != "heif"@,
        "jpeg"@ != "heic"@ && "jpeg"@ != "heif"@,
        "png"@ != "heic"@ && "png"@ != "heif"@,
        "gif"@ != "heic"@ && "gif"@ != "heif"@,
        "bmp"@ != "heic"@ && "bmp"@ != "heif"@,
        "webp"@ != "heic"@ && "webp"@ != "heif"@,
{
    reveal_strlit("jpg");
    reveal_strlit("jpeg");
    reveal_strlit("png");
    reveal_strlit("gif");
    reveal_strlit("bmp");
    reveal_strlit("webp");
    reveal_strlit("heic");
    reveal_strlit("heif");
    assert("heic"@[0] == 'h' && "heif"@[0] == 'h');
    assert("jpg"@[0] == 'j' && "jpeg"@[0] == 'j' && "png"@[0] == 'p');
    assert("gif"@[0] == 'g' && "bmp"@[0] == 'b' && "webp"@[0] == 'w');
}

/// The decoder of HEIF images reads a file exactly where the extension of its name, in
/// lower case, is `heic` or `heif`. For each of `jpg`, `jpeg`, `png`, `gif`, `bmp` and `webp`
/// it is the decoder of all other images, and so it is for a file without an extension.
pub proof fn lemma_decoder_by_extension(
    dir: Seq<ComponentView>,
    stem: Seq<char>,
    extension: Seq<char>,
    bare: Seq<char>,
)
    requires
        stem.len() > 0,
        !extension.contains('.'),
        forall|i: int| 0 < i < bare.len() ==> #[trigger] bare[i] != '.',
    ensures
        ({
            let path = dir.push(ComponentView::Normal(stem + seq!['.'] + extension));
            let low = ascii_lowered(extension);
            &&& (decoder_for(path) == Decoder::Heif) == (low == "heic"@ || low == "heif"@)
            &&& (low == "jpg"@ || low == "jpeg"@ || low == "png"@ || low == "gif"@ || low == "bmp"@
                || low == "webp"@) ==> decoder_for(path) == Decoder::Image
        }),
        decoder_for(dir.push(ComponentView::Normal(bare))) == Decoder::Image,
        dir.len() == 0 || !(dir.last() is Normal) ==> decoder_for(dir) == Decoder::Image,
{
    lemma_extension_follows_dot(dir, stem, extension);
    lemma_no_dot_no_extension(dir, bare);
    lemma_image_extensions_differ();
}

/// A thumbnail that is not there is made with the decoder for the extension of the name
/// of its file: that of HEIF images for `heic` and `heif`, in whatever case, and that of
/// all other images for every other extension.
pub proof fn lemma_thumbnail_made_with_decoder(
    task: ThumbTaskView,
    stem: Seq<char>,
    extension: Seq<char>,
)
    requires
        task.stage == ThumbTaskStage::Existence,
        task.filename == stem + seq!['.'] + extension,
        is_plain_name(task.filename, task.windows),
        stem.len() > 0,
        !extension.contains('.'),
    ensures
        task.step(ThumbTaskEventView::Exists(false)).1 == (ThumbTaskActionView::Generate {
            image: child_of(task.files_dir, task.filename),
            thumbnail: task.thumbnail,
            decoder: if ascii_lowered(extension) == "heic"@ || ascii_lowered(extension)
                == "heif"@ {
                Decoder::Heif
            } else {
                Decoder::Image
            },
        }),
{
    lemma_join_plain_name(task.files_dir, task.filename, task.windows);
    lemma_decoder_by_extension(opened(task.files_dir), stem, extension, Seq::empty());
}

/// A file is an image exactly where its name has an extension that is, in lower case, one
/// of `jpg`, `jpeg`, `png`, `gif`, `bmp`, `webp`, `heic` and `heif`. A file whose name has no
/// dot, or none but at its start, is no image.
pub proof fn lemma_images_by_extension(
    dir: Seq<char>,
    stem: Seq<char>,
    extension: Seq<char>,
    bare: Seq<char>,
    windows: bool,
)
    requires
        stem.len() > 0,
        !extension.contains('.'),
        ends_in_name(dir, stem + seq!['.'] + extension, windows),
        ends_in_name(dir, bare, windows),
        forall|i: int| 0 < i < bare.len() ==> #[trigger] bare[i] != '.',
    ensures
        is_image_name(dir + (stem + seq!['.'] + extension), windows) == ({
            let low = ascii_lowered(extension);
            low == "jpg"@ || low == "jpeg"@ || low == "png"@ || low == "gif"@ || low == "bmp"@
                || low == "webp"@ || low == "heic"@ || low == "heif"@
        }),
        !is_image_name(dir + bare, windows),
{
    lemma_text_extension(dir, stem + seq!['.'] + extension, windows);
    lemma_text_extension(dir, bare, windows);
    lemma_extension_follows_dot(Seq::empty(), stem, extension);
    lemma_no_dot_no_extension(Seq::empty(), bare);
}

/// Thumbnails are kept beside the directory of files, whatever its name, and in it where
/// it is a root or a volume or nothing.
pub proof fn lemma_thumbnails_beside_files(
    parent: Seq<ComponentView>,
    name: Seq<char>,
    files_dir: Seq<ComponentView>,
)
    ensures
        thumbnails_beside(parent.push(ComponentView::Normal(name))) == child_of(
            parent,
            "thumbnails"@,
        ),
        files_dir.len() == 0 || files_dir.last() is RootDir || files_dir.last() is Prefix
            ==> thumbnails_beside(files_dir) == child_of(files_dir, "thumbnails"@),
        name_of(thumbnails_beside(files_dir)) == Some("thumbnails"@),
{
    let path = parent.push(ComponentView::Normal(name));
    assert(path.drop_last() == parent);
    assert(path.last() == ComponentView::Normal(name));
    assert(thumbnails_beside(files_dir).last() == ComponentView::Normal("thumbnails"@));
}

/// A thumbnail is named by sixteen digits of the hash of its directory, `_`, the name of
/// its file without the extension, and `.webp`.
pub proof fn lemma_thumbnail_named(
    dir: Seq<ComponentView>,
    directory: Seq<char>,
    stem: Seq<char>,
    extension: Seq<char>,
    bare: Seq<char>,
    windows: bool,
)
    requires
        blake3_hex(encode_utf8(directory)).len() >= 16,
        forall|i: int|
            0 <= i < 16 ==> is_hex_digit(#[trigger] blake3_hex(encode_utf8(directory))[i]),
        forall|i: int| 0 <= i < stem.len() ==> !is_separator(#[trigger] stem[i], windows),
        forall|i: int| 0 <= i < extension.len() ==> !is_separator(#[trigger] extension[i], windows),
        forall|i: int| 0 <= i < bare.len() ==> !is_separator(#[trigger] bare[i], windows),
        !extension.contains('.'),
        !bare.contains('.'),
    ensures
        thumbnail_of(dir, directory, stem + seq!['.'] + extension, windows) == child_of(
            dir,
            blake3_hex(encode_utf8(directory)).take(16) + "_"@ + stem + ".webp"@,
        ),
        thumbnail_of(dir, directory, bare, windows) == child_of(
            dir,
            blake3_hex(encode_utf8(directory)).take(16) + "_"@ + bare + ".webp"@,
        ),
{
    reveal_strlit("webp");
    reveal_strlit(".webp");
    reveal_strlit("_");
    let hash = blake3_hex(encode_utf8(directory));
    let filename = stem + seq!['.'] + extension;
    assert forall|i: int| 0 <= i < filename.len() implies !is_separator(
        #[trigger] filename[i],
        windows,
    ) by {
        if i < stem.len() {
            assert(filename[i] == stem[i]);
        } else if i > stem.len() {
            assert(filename[i] == extension[i - stem.len() - 1]);
        }
    }
    let start = hash.take(16) + "_"@;
    let name = thumb_name(hash, filename);
    lemma_thumb_name_plain(hash, filename, windows);
    lemma_join_plain_name(dir, name, windows);
    assert(name == (start + stem) + seq!['.'] + extension);
    lemma_extension_follows_dot(dir, start + stem, extension);
    assert(name_stem(name) + seq!['.'] + THUMB_EXT@ == start + stem + ".webp"@);
    assert(thumb_path_of(dir, name, windows) == child_of(dir, start + stem + ".webp"@));
    let plain = thumb_name(hash, bare);
    lemma_thumb_name_plain(hash, bare, windows);
    lemma_join_plain_name(dir, plain, windows);
    assert(plain == start + bare);
    assert forall|i: int| 0 < i < plain.len() implies #[trigger] plain[i] != '.' by {
        if i < 16 {
            assert(is_hex_digit(hash[i]));
        } else if i > 16 {
            assert(plain[i] == bare[i - 17]);
            assert(bare.contains(bare[i - 17]));
        }
    }
    lemma_no_dot_no_extension(dir, plain);
    assert(name_stem(plain) + seq!['.'] + THUMB_EXT@ == start + bare + ".webp"@);
    assert(thumb_path_of(dir, plain, windows) == child_of(dir, start + bare + ".webp"@));
}

/// The making of a thumbnail waits for what it was told to do, and stops where something
/// of that goes wrong, with the reason that came. What it works on stays the same. The
/// directory that it makes is the one of thumbnails, and it stops after the thumbnail
/// was made.
pub proof fn lemma_thumb_task_goes_on(
    task: ThumbTaskView,
    event: ThumbTaskEventView,
    answer: ThumbTaskEventView,
)
    requires
        task.expects(event),
    ensures
        ({
            let (next, action) = task.step(event);
            &&& next.files_dir == task.files_dir
            &&& next.filename == task.filename
            &&& next.windows == task.windows
            &&& next.expects(answer) == match action {
                ThumbTaskActionView::AwaitPermit => answer is Permit,
                ThumbTaskActionView::CreateDirectory(_) => answer is Directory,
                ThumbTaskActionView::FindDirectoryText => answer is DirectoryText,
                ThumbTaskActionView::CheckExists(_) => answer is Exists,
                ThumbTaskActionView::Generate { .. } => answer is Thumbnail || answer is BrokeOff,
                ThumbTaskActionView::Stop(_) => false,
            }
            &&& event == ThumbTaskEventView::Permit(true) ==> action
                == ThumbTaskActionView::CreateDirectory(thumbnails_beside(task.files_dir))
            &&& event == ThumbTaskEventView::Permit(false) ==> action == ThumbTaskActionView::Stop(
                ThumbOutcomeView::NoPermit,
            )
            &&& event == ThumbTaskEventView::Thumbnail(Ok(())) ==> action
                == ThumbTaskActionView::Stop(ThumbOutcomeView::Made)
            &&& event matches ThumbTaskEventView::Directory(Err(text)) ==> action
                == ThumbTaskActionView::Stop(ThumbOutcomeView::NoDirectory(text))
            &&& event matches ThumbTaskEventView::Directory(Ok(_)) ==> action
                == ThumbTaskActionView::FindDirectoryText
            &&& event matches ThumbTaskEventView::DirectoryText(directory) ==> action
                == ThumbTaskActionView::CheckExists(
                thumbnail_of(
                    thumbnails_beside(task.files_dir),
                    directory,
                    task.filename,
                    task.windows,
                ),
            ) && next.thumbnail == thumbnail_of(
                thumbnails_beside(task.files_dir),
                directory,
                task.filename,
                task.windows,
            )
            &&& event matches ThumbTaskEventView::Thumbnail(Err(text)) ==> action
                == ThumbTaskActionView::Stop(ThumbOutcomeView::Failed(text))
            &&& event matches ThumbTaskEventView::BrokeOff(text) ==> action
                == ThumbTaskActionView::Stop(ThumbOutcomeView::BrokeOff(text))
            &&& event is Exists ==> next.thumbnail == task.thumbnail
        }),
{
}

/// The text of an error says what went wrong behind a label of its kind. What is wrong with
/// the writing of a thumbnail is said without one.
pub proof fn lemma_thumbnail_error_texts(error: ThumbnailError)
    ensures
        match error {
            ThumbnailError::PathNotText(path) => path@.is_suffix_of(error.text()) && error.text().len()
                == "路径包含非 UTF-8 字符: "@.len() + path@.len() && "路径包含非 UTF-8 字符: "@.is_prefix_of(
                error.text(),
            ),
            ThumbnailError::ReadHeif(e) => e@.is_suffix_of(error.text()) && error.text().len()
                == "读取 HEIC 文件失败: "@.len() + e@.len() && "读取 HEIC 文件失败: "@.is_prefix_of(error.text()),
            ThumbnailError::NoPrimaryImage(e) => e@.is_suffix_of(error.text()) && error.text().len()
                == "获取主图像失败: "@.len() + e@.len() && "获取主图像失败: "@.is_prefix_of(error.text()),
            ThumbnailError::DecodeHeif(e) => e@.is_suffix_of(error.text()) && error.text().len()
                == "解码 HEIC 失败: "@.len() + e@.len() && "解码 HEIC 失败: "@.is_prefix_of(error.text()),
            ThumbnailError::NoPixels => error.text() == "无法获取 interleaved 数据"@,
            ThumbnailError::TooFewPixels => error.text() == "无法构建 ImageBuffer"@,
            ThumbnailError::DecodeImage(e) => e@.is_suffix_of(error.text()) && error.text().len()
                == "无法解码图片: "@.len() + e@.len() && "无法解码图片: "@.is_prefix_of(error.text()),
            ThumbnailError::Save(e) => error.text() == e@,
        },
{
    let text = error.text();
    match error {
        ThumbnailError::PathNotText(e) => {
            assert(text.skip(text.len() - e@.len()) == e@);
        },
        ThumbnailError::ReadHeif(e) => {
            assert(text.skip(text.len() - e@.len()) == e@);
        },
        ThumbnailError::NoPrimaryImage(e) => {
            assert(text.skip(text.len() - e@.len()) == e@);
        },
        ThumbnailError::DecodeHeif(e) => {
            assert(text.skip(text.len() - e@.len()) == e@);
        },
        ThumbnailError::DecodeImage(e) => {
            assert(text.skip(text.len() - e@.len()) == e@);
        },
        _ => {},
    }
}

/// The format of an image goes by the whole name of its file, wherever that is, and by
/// nothing where the name ends in a dot or there is no name.
pub proof fn lemma_source_is_file_name(
    dir: Seq<ComponentView>,
    name: Seq<char>,
    path: Seq<ComponentView>,
)
    ensures
        name_text(dir.push(ComponentView::Normal(name))) == name,
        name.len() > 0 && name.last() != '.' ==> source_text(dir.push(ComponentView::Normal(name)))
            == name,
        name.len() > 1 && name.last() == '.' ==> source_text(
            dir.push(ComponentView::Normal(name)),
        ).len() == 0,
        path.len() == 0 || !(path.last() is Normal) ==> name_text(path).len() == 0 && source_text(
            path,
        ).len() == 0,
{
    let full = dir.push(ComponentView::Normal(name));
    assert(full.last() == ComponentView::Normal(name));
    if name.len() > 1 && name.last() == '.' {
        let stem = name.drop_last();
        let none = Seq::<char>::empty();
        assert(name == stem + seq!['.'] + none);
        lemma_extension_follows_dot(dir, stem, none);
    } else if name.len() > 0 && name.last() != '.' {
        if let Some(extension) = extension_of(full) {
            let at = choose|at: int| is_extension_dot(name, at);
            assert(extension == name.skip(at + 1));
            if extension.len() == 0 {
                assert(at == name.len() - 1);
            }
        }
    }
}

/// What is made of an image is the image scaled so that its longer side has 200 pixels,
/// in the format of the name of the thumbnail. A thumbnail that is named as a WebP file
/// is one, and has the shape of the image.
pub proof fn lemma_thumbnail_is_scaled_image(
    image: Seq<ComponentView>,
    content: Seq<u8>,
    thumbnail: Seq<ComponentView>,
    made: Result<Vec<u8>, ThumbnailError>,
)
    requires
        is_made_thumbnail(image, content, thumbnail, made),
    ensures
        made matches Ok(out) ==> scaled_image(
            source_text(image),
            content,
            200,
            name_text(thumbnail),
        ) == Ok::<Result<Seq<u8>, Seq<char>>, Seq<char>>(Ok(out@)),
        made matches Err(error) ==> !(scaled_image(
            source_text(image),
            content,
            200,
            name_text(thumbnail),
        ) matches Ok(Ok(_))) && (error is Save || error is DecodeImage),
        made matches Ok(out) ==> ".webp"@.is_suffix_of(name_text(thumbnail)) ==> (image_shape(
            source_text(image),
            content,
        ) matches Some(shape) && is_webp_thumbnail(out@, shape.0, shape.1)),
{
}

/// What is made of pixels is the picture scaled so that its longer side has 200 pixels, in
/// the format of the name of the thumbnail. Nothing is made where there are fewer bytes
/// than the picture has pixels with its channels.
pub proof fn lemma_thumbnail_is_scaled_pixels(
    width: u32,
    height: u32,
    channels: Channels,
    pixels: Seq<u8>,
    thumbnail: Seq<ComponentView>,
    made: Result<Vec<u8>, ThumbnailError>,
)
    requires
        is_thumbnail_of_pixels(width, height, channels, pixels, thumbnail, made),
    ensures
        ({
            let count: nat = match channels {
                Channels::Grey => 1,
                Channels::GreyAlpha => 2,
                Channels::Rgb => 3,
                Channels::Rgba => 4,
            };
            &&& pixels.len() < count * width * height <==> (made matches Err(
                ThumbnailError::TooFewPixels,
            ))
            &&& made matches Ok(out) ==> scaled_pixels(
                width,
                height,
                count,
                pixels,
                200,
                name_text(thumbnail),
            ) == Ok::<Seq<u8>, Seq<char>>(out@)
        }),
        made matches Ok(out) ==> ".webp"@.is_suffix_of(name_text(thumbnail)) ==> is_webp_thumbnail(
            out@,
            width,
            height,
        ),
{
}

/// The directory of files is known by the text of its canonical path, and by that of its path
/// where it has no canonical one, when a thumbnail is made as when it is asked for.
pub proof fn lemma_directory_known_by(event: ThumbTaskEvent, files_dir: &str, canonical: &str)
    ensures
        known_as(files_dir, Some(canonical)) == canonical@,
        known_as(files_dir, None) == files_dir@,
        event matches ThumbTaskEvent::DirectoryText(path, Some(text)) ==> event@
            == ThumbTaskEventView::DirectoryText(text@),
        event matches ThumbTaskEvent::DirectoryText(path, None) ==> event@
            == ThumbTaskEventView::DirectoryText(path@),
        event matches ThumbTaskEvent::Thumbnail(Err(error)) ==> event@
            == ThumbTaskEventView::Thumbnail(Err(error.text())),
{
}

} // verus!
