//! The name under which an uploaded file is kept.

use vstd::prelude::*;
use vstd::utf8::{encode_scalar, encode_utf8};

use crate::outside::{
    before_dot, can_be_inferred, fitting_name, frames_fit, infer_extension, inferred_extension,
    is_clean_file_name, is_device_name, is_dots, is_file_name_char, kept_name, listed_extensions,
    little_endian, media_type_extensions, optional_texts, posix_file_name, sanitize,
    windows_file_name, without_trailing,
};
use crate::path::{
    begins_with_drive, child_of, extension_of, is_plain_name, is_separator, joined,
    lemma_extension_follows_dot, lemma_join_nothing, lemma_join_plain_name,
    lemma_no_dot_no_extension, lemma_path_begins, lemma_path_goes_on, lemma_plain_name_path,
    lemma_windows_path_without_volume, name_extension, opened, path_of, volume_len, ComponentView,
    FilePath,
};
use crate::text::{
    ascii_lowered, decimal, decimal_text, has_text, lemma_numeral_injective, optional_text,
    same_but_for_case, texts,
};

verus! {

/// A media type without its parameters and its suffix.
#[derive(Debug)]
pub struct MediaType {
    pub type_: String,
    pub subtype: String,
}

/// What a form field says of the file in it.
#[derive(Debug)]
pub struct FieldInfo {
    pub file_name: Option<String>,
    pub content_type: Option<MediaType>,
}

/// The extension of the file that `text`, read as a path, ends in.
pub open spec fn text_extension(text: Seq<char>, windows: bool) -> Option<Seq<char>> {
    extension_of(path_of(text, windows))
}

impl MediaType {
    /// Whether this is the media type that says nothing of the content.
    pub open spec fn is_octet_stream(&self) -> bool {
        &&& ascii_lowered(self.type_@) == ascii_lowered("application"@)
        &&& ascii_lowered(self.subtype@) == ascii_lowered("octet-stream"@)
    }
}

impl FieldInfo {
    /// Whether the field names a file with an extension.
    pub open spec fn has_extension(&self, windows: bool) -> bool {
        self.file_name matches Some(name) && text_extension(name@, windows) is Some
    }

    /// Whether only the content can tell the extension: the field names no
    /// extension, and no media type that would.
    pub open spec fn needs_content(&self, windows: bool) -> bool {
        &&& !self.has_extension(windows)
        &&& match self.content_type {
            Some(media_type) => media_type.is_octet_stream(),
            None => true,
        }
    }

    /// The name before an extension is added: the one that the field gives, or
    /// one made from the time where it gives none.
    pub open spec fn base_name(&self, now_millis: nat) -> Seq<char> {
        match self.file_name {
            Some(name) => if name@.len() > 0 {
                name@
            } else {
                "unnamed_"@ + decimal(now_millis)
            },
            None => "unnamed_"@ + decimal(now_millis),
        }
    }

    /// The extension that is added to the base name. `content` is how the content
    /// begins, where it was asked for and there was any.
    pub open spec fn added_extension(&self, windows: bool, content: Option<Seq<u8>>) -> Option<
        Seq<char>,
    > {
        if self.has_extension(windows) {
            None
        } else if self.needs_content(windows) {
            match content {
                Some(bytes) => inferred_extension(bytes),
                None => None,
            }
        } else {
            match self.content_type {
                Some(media_type) => first_choice(
                    listed_extensions(media_type.type_@, media_type.subtype@),
                ),
                None => None,
            }
        }
    }

    /// The name that the uploaded file gets.
    pub open spec fn generated_name(
        &self,
        windows: bool,
        now_millis: nat,
        content: Option<Seq<u8>>,
    ) -> Seq<char> {
        extended(self.base_name(now_millis), self.added_extension(windows, content))
    }
}

/// Of several extensions `jpg` is preferred, and then the first.
pub open spec fn first_choice(extensions: Option<Seq<Seq<char>>>) -> Option<Seq<char>> {
    match extensions {
        Some(list) => if list.contains("jpg"@) {
            Some("jpg"@)
        } else if list.len() > 0 {
            Some(list[0])
        } else {
            None
        },
        None => None,
    }
}

/// `name` with a dot and the extension added, where there is one.
pub open spec fn extended(name: Seq<char>, extension: Option<Seq<char>>) -> Seq<char> {
    match extension {
        Some(e) => name + "."@ + e,
        None => name,
    }
}

/// How the content begins.
pub open spec fn content_view(content: Option<&Vec<u8>>) -> Option<Seq<u8>> {
    match content {
        Some(bytes) => Some(bytes@),
        None => None,
    }
}

/// Chooses among the extensions that a media type has.
pub fn choose_extension(extensions: Option<Vec<String>>) -> (extension: Option<String>)
    ensures
        optional_text(extension) == first_choice(optional_texts(extensions)),
{
    match extensions {
        Some(list) => {
            if has_text(&list, "jpg") {
                Some("jpg".to_owned())
            } else if list.len() > 0 {
                assert(texts(list@)[0] == list@[0]@);
                Some(list[0].clone())
            } else {
                None
            }
        },
        None => None,
    }
}

/// Adds a dot and the extension, where there is one.
pub fn add_extension(name: String, extension: Option<String>) -> (out: String)
    ensures
        out@ == extended(name@, optional_text(extension)),
{
    let mut out: String = name;
    match extension {
        Some(e) => {
            out.append(".");
            out.append(e.as_str());
        },
        None => {},
    }
    out
}

fn extension_of_text(text: &str, windows: bool) -> (extension: Option<String>)
    ensures
        optional_text(extension) == text_extension(text@, windows),
{
    FilePath::parse(text, windows).extension()
}

impl FieldInfo {
    fn names_extension(&self, windows: bool) -> (named: bool)
        ensures
            named == self.has_extension(windows),
    {
        match &self.file_name {
            Some(name) => extension_of_text(name.as_str(), windows).is_some(),
            None => false,
        }
    }

    /// Whether the beginning of the content is needed to name the file.
    pub fn need_magic_check(&self, windows: bool) -> (needed: bool)
        ensures
            needed == self.needs_content(windows),
    {
        if self.names_extension(windows) {
            return false;
        }
        match &self.content_type {
            Some(media_type) => same_but_for_case(media_type.type_.as_str(), "application")
                && same_but_for_case(media_type.subtype.as_str(), "octet-stream"),
            None => true,
        }
    }
}

fn read_number(bytes: &Vec<u8>, at: usize) -> (number: u64)
    requires
        at + 4 <= bytes@.len(),
    ensures
        number == little_endian(bytes@, at as int),
        number <= 0xffff_ffff,
{
    let count: usize = bytes.len();
    assert(at + 4 <= count);
    bytes[at] as u64 + 256 * bytes[at + 1] as u64 + 65536 * bytes[at + 2] as u64 + 16777216
        * bytes[at + 3] as u64
}

fn check_frames(content: &Vec<u8>) -> (fit: bool)
    ensures
        fit == frames_fit(content@),
{
    let count: usize = content.len();
    let mut at: usize = 0;
    assert(content@.skip(0) == content@);
    while count - at >= 8
        invariant
            at <= count,
            count == content@.len(),
            frames_fit(content@) == frames_fit(content@.skip(at as int)),
        decreases count - at,
    {
        let ghost rest = content@.skip(at as int);
        let magic: bool = 0x50 <= content[at] && content[at] < 0x60 && content[at + 1] == 0x2a
            && content[at + 2] == 0x4d && content[at + 3] == 0x18;
        if !magic {
            return true;
        }
        let next: u64 = 8 + read_number(content, at + 4);
        assert(next == 8 + little_endian(rest, 4));
        if next > 0xffff_ffff {
            return false;
        }
        if next > (count - at) as u64 {
            return true;
        }
        assert(rest.skip(next as int) == content@.skip(at + next));
        at = at + next as usize;
    }
    true
}

/// Whether the extension can be told from the content on this machine.
pub fn can_infer(content: &Vec<u8>) -> (can: bool)
    ensures
        can == can_be_inferred(content@),
{
    if usize::MAX as u64 > 0xffff_ffff {
        return true;
    }
    let archive: bool = content.len() >= 22 && content[0] == 0x50 && content[1] == 0x4b
        && content[2] == 3 && content[3] == 4;
    if archive && read_number(content, 18) + 6049 > 0xffff_ffff {
        return false;
    }
    check_frames(content)
}

/// The name for the file in a form field. The time counts where the field gives
/// no name, and the content where it gives no extension and no media type that
/// tells one.
pub fn generate_filename_from_field(
    field: &FieldInfo,
    windows: bool,
    now_millis: u128,
    first_chunk: Option<&Vec<u8>>,
) -> (name: String)
    requires
        field.needs_content(windows) ==> (first_chunk matches Some(content) ==> can_be_inferred(
            content@,
        )),
    ensures
        name@ == field.generated_name(windows, now_millis as nat, content_view(first_chunk)),
{
    let named: Option<String> = match &field.file_name {
        Some(name) => if name.as_str().is_empty() {
            None
        } else {
            Some(name.clone())
        },
        None => None,
    };
    let base: String = match named {
        Some(name) => name,
        None => {
            let mut made: String = "unnamed_".to_owned();
            made.append(decimal_text(now_millis).as_str());
            made
        },
    };
    let extension: Option<String> = if field.names_extension(windows) {
        None
    } else if field.need_magic_check(windows) {
        match first_chunk {
            Some(content) => infer_extension(content),
            None => None,
        }
    } else {
        match &field.content_type {
            Some(media_type) => choose_extension(
                media_type_extensions(media_type.type_.as_str(), media_type.subtype.as_str()),
            ),
            None => None,
        }
    };
    add_extension(base, extension)
}

/// The name under which a file is stored, under the rules of the system.
pub open spec fn stored_name(file_name: Seq<char>, windows: bool) -> Seq<char> {
    if windows {
        windows_file_name(file_name)
    } else {
        posix_file_name(file_name)
    }
}

/// The path of the file that an upload of that name is written to.
pub fn upload_path(base: &FilePath, file_name: &str, windows: bool) -> (path: FilePath)
    ensures
        path@ == joined(base@, stored_name(file_name@, windows), windows),
        path@ == opened(base@) || path@ == child_of(base@, stored_name(file_name@, windows)),
        path@ == opened(base@) <==> stored_name(file_name@, windows).len() == 0,
{
    let name: String = sanitize(file_name, windows);
    let path: FilePath = base.join(name.as_str(), windows);
    proof {
        lemma_stored_name_clean(file_name@, windows);
        lemma_upload_stays_in_base(base@, name@, windows);
    }
    path
}

proof fn lemma_encoding_bound(text: Seq<char>)
    ensures
        encode_utf8(text).len() <= 4 * text.len(),
    decreases text.len(),
{
    if text.len() > 0 {
        lemma_encoding_bound(text.drop_first());
        assert(encode_scalar(text[0] as u32).len() <= 4);
    }
}

proof fn lemma_fitting_name(name: Seq<char>)
    ensures
        encode_utf8(fitting_name(name)).len() <= 255,
        fitting_name(name).len() <= name.len(),
        fitting_name(name) == name.take(fitting_name(name).len() as int),
        fitting_name(name).len() < 3 ==> fitting_name(name) == name,
    decreases name.len(),
{
    if name.len() == 0 || encode_utf8(name).len() <= 255 {
        assert(name.take(name.len() as int) == name);
    } else {
        let shorter = name.drop_last();
        lemma_fitting_name(shorter);
        let fit = fitting_name(shorter);
        assert(shorter.take(fit.len() as int) == name.take(fit.len() as int));
        if fit.len() < 3 {
            lemma_encoding_bound(name);
            assert(shorter.len() < 3);
        }
    }
}

proof fn lemma_kept_name(name: Seq<char>)
    ensures
        forall|i: int| 0 <= i < kept_name(name).len() ==> is_file_name_char(
            #[trigger] kept_name(name)[i],
        ),
        !is_dots(kept_name(name)),
{
    let kept = name.filter(|c: char| is_file_name_char(c));
    assert forall|i: int| 0 <= i < kept.len() implies is_file_name_char(#[trigger] kept[i]) by {
        name.lemma_filter_pred(|c: char| is_file_name_char(c), i);
    }
}

proof fn lemma_without_trailing(name: Seq<char>)
    ensures
        without_trailing(name).len() <= name.len(),
        without_trailing(name) == name.take(without_trailing(name).len() as int),
        without_trailing(name).len() > 0 ==> without_trailing(name).last() != '.',
    decreases name.len(),
{
    if name.len() > 0 && (name.last() == '.' || name.last() == ' ') {
        let shorter = name.drop_last();
        lemma_without_trailing(shorter);
        let count = without_trailing(name).len() as int;
        assert(shorter.take(count) == name.take(count));
    } else {
        assert(name.take(name.len() as int) == name);
    }
}

proof fn lemma_fitting_is_clean(name: Seq<char>)
    requires
        forall|i: int| 0 <= i < name.len() ==> is_file_name_char(#[trigger] name[i]),
        name != seq!['.'],
        name != seq!['.', '.'],
    ensures
        is_clean_file_name(fitting_name(name)),
{
    let clean = fitting_name(name);
    lemma_fitting_name(name);
    assert forall|i: int| 0 <= i < clean.len() implies is_file_name_char(#[trigger] clean[i]) by {
        assert(clean == name.take(clean.len() as int));
        assert(clean[i] == name[i]);
    }
    assert(clean != seq!['.']);
    assert(clean != seq!['.', '.']);
}

/// The name of a stored file holds only characters that a file name may hold, is
/// not one of the two names of directories, and takes up to 255 bytes.
pub proof fn lemma_stored_name_clean(name: Seq<char>, windows: bool)
    ensures
        is_clean_file_name(stored_name(name, windows)),
{
    let kept = kept_name(name);
    lemma_kept_name(name);
    assert(kept != seq!['.']) by {
        assert(is_dots(seq!['.']));
    }
    assert(kept != seq!['.', '.']) by {
        assert(is_dots(seq!['.', '.']));
    }
    if windows {
        let ended = without_trailing(kept);
        lemma_without_trailing(kept);
        assert forall|i: int| 0 <= i < ended.len() implies is_file_name_char(
            #[trigger] ended[i],
        ) by {
            assert(ended == kept.take(ended.len() as int));
            assert(ended[i] == kept[i]);
        }
        assert(seq!['.'].last() == '.');
        assert(seq!['.', '.'].last() == '.');
        lemma_fitting_is_clean(ended);
        assert(encode_utf8(Seq::<char>::empty()).len() == 0);
    } else {
        lemma_fitting_is_clean(kept);
    }
}

/// A stored file lies directly in the directory of uploads, whatever name came
/// with it. A name of which nothing is left stands for the directory itself.
pub proof fn lemma_upload_stays_in_base(
    base: Seq<ComponentView>,
    name: Seq<char>,
    windows: bool,
)
    requires
        is_clean_file_name(name),
    ensures
        name.len() > 0 ==> joined(base, name, windows) == child_of(base, name),
        name.len() == 0 ==> joined(base, name, windows) == opened(base),
{
    if name.len() > 0 {
        assert forall|i: int| 0 <= i < name.len() implies !is_separator(
            #[trigger] name[i],
            windows,
        ) by {
            assert(is_file_name_char(name[i]));
        }
        if begins_with_drive(name) {
            assert(is_file_name_char(name[1]));
        }
        lemma_join_plain_name(base, name, windows);
    } else {
        lemma_join_nothing(base, name, windows);
    }
}

/// A name that is clean already is stored as it is, outside Windows.
pub proof fn lemma_clean_name_kept(name: Seq<char>)
    requires
        is_clean_file_name(name),
        !is_dots(name),
    ensures
        posix_file_name(name) == name,
{
    lemma_filter_all(name);
}

proof fn lemma_filter_all(name: Seq<char>)
    requires
        forall|i: int| 0 <= i < name.len() ==> is_file_name_char(#[trigger] name[i]),
    ensures
        name.filter(|c: char| is_file_name_char(c)) == name,
    decreases name.len(),
{
    reveal(Seq::filter);
    if name.len() > 0 {
        let shorter = name.drop_last();
        assert forall|i: int| 0 <= i < shorter.len() implies is_file_name_char(
            #[trigger] shorter[i],
        ) by {
            assert(shorter[i] == name[i]);
        }
        lemma_filter_all(shorter);
        assert(is_file_name_char(name[name.len() - 1]));
        assert(shorter.push(name.last()) == name);
    } else {
        assert(name == Seq::<char>::empty());
    }
}

/// A name that is clean already is stored as it is: on Windows where it does not end in
/// a dot or a space and is not that of a device, with or without an extension. Nothing is
/// stored under the name of a device there.
pub proof fn lemma_clean_name_stored(name: Seq<char>, windows: bool)
    requires
        is_clean_file_name(name),
        !is_dots(name),
    ensures
        !windows ==> stored_name(name, windows) == name,
        windows && name.len() > 0 && name.last() != '.' && name.last() != ' ' && !is_device_name(
            before_dot(name),
        ) ==> stored_name(name, windows) == name,
        windows && is_device_name(before_dot(name)) ==> stored_name(name, windows).len() == 0,
{
    lemma_filter_all(name);
}

/// Whether a text ends in the name of a file, in a directory or in none.
pub open spec fn ends_in_name(dir: Seq<char>, name: Seq<char>, windows: bool) -> bool {
    &&& is_plain_name(name, windows)
    &&& dir.len() > 0 ==> is_separator(dir.last(), windows)
    &&& dir.len() > 0 && windows ==> volume_len(dir + name, true) == 0
}

proof fn lemma_slash_extension(dir: Seq<char>, name: Seq<char>)
    requires
        dir.len() > 0,
        dir.last() == '/',
        is_plain_name(name, false),
    ensures
        text_extension(dir + name, false) == name_extension(name),
{
    let before = dir.drop_last();
    assert(!name.contains('/')) by {
        if name.contains('/') {
            let i = choose|i: int| 0 <= i < name.len() && name[i] == '/';
            assert(is_separator(name[i], false));
        }
    }
    if before.len() == 0 {
        assert(dir + name == seq!['/'] + name);
        lemma_path_begins(name);
    } else {
        assert(dir + name == before.push('/') + name);
        lemma_path_goes_on(before, name);
    }
}

/// The extension of a text is that of the name that it ends in.
pub proof fn lemma_text_extension(dir: Seq<char>, name: Seq<char>, windows: bool)
    requires
        ends_in_name(dir, name, windows),
    ensures
        text_extension(dir + name, windows) == name_extension(name),
        (dir + name).len() > 0,
{
    if dir.len() == 0 {
        assert(dir + name == name);
        lemma_plain_name_path(name, windows);
    } else if !windows {
        lemma_slash_extension(dir, name);
    } else {
        let slashed = dir.map_values(|c: char| if c == '\\' { '/' } else { c });
        let text = dir + name;
        let other = slashed + name;
        assert(is_separator(dir[dir.len() - 1], true));
        assert forall|i: int| 0 <= i < name.len() implies !is_separator(#[trigger] name[i], false)
            && name[i] != '\\' by {
            assert(!is_separator(name[i], true));
        }
        assert(!other.contains('\\')) by {
            if other.contains('\\') {
                let i = choose|i: int| 0 <= i < other.len() && other[i] == '\\';
                if i >= dir.len() {
                    assert(other[i] == name[i - dir.len()]);
                }
            }
        }
        lemma_windows_path_without_volume(text, other);
        lemma_slash_extension(slashed, name);
    }
}

/// Where the name that a field gives has an extension, in letters of whatever case, the
/// file gets that name unchanged: whatever the media type says, and whatever the time
/// and the content are, which is not looked at.
pub proof fn lemma_extension_kept(
    field: FieldInfo,
    dir: Seq<char>,
    stem: Seq<char>,
    extension: Seq<char>,
    windows: bool,
    now_millis: nat,
    content: Option<Seq<u8>>,
)
    requires
        stem.len() > 0,
        !extension.contains('.'),
        ends_in_name(dir, stem + seq!['.'] + extension, windows),
        field.file_name matches Some(name) && name@ == dir + (stem + seq!['.'] + extension),
    ensures
        field.generated_name(windows, now_millis, content) == dir + (stem + seq!['.'] + extension),
        !field.needs_content(windows),
{
    lemma_text_extension(dir, stem + seq!['.'] + extension, windows);
    lemma_extension_follows_dot(Seq::empty(), stem, extension);
}

/// Whether a field gives its file a name without an extension.
pub open spec fn names_no_extension(
    field: FieldInfo,
    dir: Seq<char>,
    name: Seq<char>,
    windows: bool,
) -> bool {
    &&& ends_in_name(dir, name, windows)
    &&& forall|i: int| 0 < i < name.len() ==> #[trigger] name[i] != '.'
    &&& field.file_name matches Some(given) && given@ == dir + name
}

/// Where the name that a field gives has no extension and the field has a media type
/// other than `application/octet-stream`, in whatever case, the media type decides: the
/// file gets the name, a dot and an extension that is listed for the media type, which is
/// `jpg` where that is among them and the first otherwise. Where none is listed the file
/// gets the name unchanged. The content is not looked at.
pub proof fn lemma_media_type_adds_extension(
    field: FieldInfo,
    dir: Seq<char>,
    name: Seq<char>,
    windows: bool,
    now_millis: nat,
    content: Option<Seq<u8>>,
)
    requires
        names_no_extension(field, dir, name, windows),
        field.content_type matches Some(media_type) && (ascii_lowered(media_type.type_@)
            != "application"@ || ascii_lowered(media_type.subtype@) != "octet-stream"@),
    ensures
        !field.needs_content(windows),
        ({
            let media_type = field.content_type.unwrap();
            let generated = field.generated_name(windows, now_millis, content);
            match listed_extensions(media_type.type_@, media_type.subtype@) {
                Some(list) => {
                    &&& list.contains("jpg"@) ==> generated == dir + name + ".jpg"@
                    &&& !list.contains("jpg"@) && list.len() > 0 ==> generated == dir + name + "."@
                        + list[0]
                    &&& list.len() == 0 ==> generated == dir + name
                },
                None => generated == dir + name,
            }
        }),
{
    lemma_text_extension(dir, name, windows);
    lemma_no_dot_no_extension(Seq::empty(), name);
    lemma_octet_stream(field.content_type.unwrap());
    reveal_strlit(".");
    reveal_strlit("jpg");
    reveal_strlit(".jpg");
    assert("."@ + "jpg"@ == ".jpg"@);
    assert(dir + name + "."@ + "jpg"@ == dir + name + ("."@ + "jpg"@));
}

/// A media type says nothing of the content where it is `application/octet-stream`, in
/// whatever case, and only there.
pub proof fn lemma_octet_stream(media_type: MediaType)
    ensures
        media_type.is_octet_stream() == (ascii_lowered(media_type.type_@) == "application"@
            && ascii_lowered(media_type.subtype@) == "octet-stream"@),
{
    reveal_strlit("application");
    reveal_strlit("octet-stream");
    assert(ascii_lowered("application"@) == "application"@);
    assert(ascii_lowered("octet-stream"@) == "octet-stream"@);
}

/// Where the name that a field gives has no extension and the field has no media type, or
/// one that says nothing of the content, the content decides: the file gets the name, a
/// dot and the extension that the content has, and the name unchanged where it has none
/// that is known.
pub proof fn lemma_content_adds_extension(
    field: FieldInfo,
    dir: Seq<char>,
    name: Seq<char>,
    windows: bool,
    now_millis: nat,
    content: Option<Seq<u8>>,
)
    requires
        names_no_extension(field, dir, name, windows),
        field.content_type matches Some(media_type) ==> ascii_lowered(media_type.type_@)
            == "application"@ && ascii_lowered(media_type.subtype@) == "octet-stream"@,
    ensures
        field.needs_content(windows),
        ({
            let generated = field.generated_name(windows, now_millis, content);
            match content {
                Some(bytes) => match inferred_extension(bytes) {
                    Some(extension) => generated == dir + name + "."@ + extension,
                    None => generated == dir + name,
                },
                None => generated == dir + name,
            }
        }),
{
    lemma_text_extension(dir, name, windows);
    lemma_no_dot_no_extension(Seq::empty(), name);
    if let Some(media_type) = field.content_type {
        lemma_octet_stream(media_type);
    }
}

/// A file without a name is named by the time, and gets its extension as if its field had
/// given that name. So unnamed files that come at different times get different names
/// where they get the same extension.
pub proof fn lemma_unnamed_file(
    field: FieldInfo,
    windows: bool,
    now_millis: nat,
    content: Option<Seq<u8>>,
)
    requires
        field.file_name matches Some(name) ==> name@.len() == 0,
    ensures
        ({
            let generated = field.generated_name(windows, now_millis, content);
            let unnamed = "unnamed_"@ + decimal(now_millis);
            match field.content_type {
                Some(media_type) => if ascii_lowered(media_type.type_@) == "application"@
                    && ascii_lowered(media_type.subtype@) == "octet-stream"@ {
                    generated == match content {
                        Some(bytes) => match inferred_extension(bytes) {
                            Some(extension) => unnamed + "."@ + extension,
                            None => unnamed,
                        },
                        None => unnamed,
                    }
                } else {
                    match listed_extensions(media_type.type_@, media_type.subtype@) {
                        Some(list) => {
                            &&& list.contains("jpg"@) ==> generated == unnamed + ".jpg"@
                            &&& !list.contains("jpg"@) && list.len() > 0 ==> generated == unnamed
                                + "."@ + list[0]
                            &&& list.len() == 0 ==> generated == unnamed
                        },
                        None => generated == unnamed,
                    }
                },
                None => generated == match content {
                    Some(bytes) => match inferred_extension(bytes) {
                        Some(extension) => unnamed + "."@ + extension,
                        None => unnamed,
                    },
                    None => unnamed,
                },
            }
        }),
        forall|later: nat|
            field.generated_name(windows, now_millis, content) == #[trigger] field.generated_name(
                windows,
                later,
                content,
            ) ==> now_millis == later,
{
    if let Some(name) = field.file_name {
        lemma_empty_text_has_no_extension(name@, windows);
    }
    assert(!field.has_extension(windows));
    if let Some(media_type) = field.content_type {
        lemma_octet_stream(media_type);
    }
    reveal_strlit(".");
    reveal_strlit("jpg");
    reveal_strlit(".jpg");
    let unnamed = "unnamed_"@ + decimal(now_millis);
    assert("."@ + "jpg"@ == ".jpg"@);
    assert(unnamed + "."@ + "jpg"@ == unnamed + ("."@ + "jpg"@));
    let generated = field.generated_name(windows, now_millis, content);
    assert forall|later: nat| generated == #[trigger] field.generated_name(
        windows,
        later,
        content,
    ) implies now_millis == later by {
        let start = "unnamed_"@.len() as int;
        let a = decimal(now_millis);
        let b = decimal(later);
        let extension = field.added_extension(windows, content);
        let tail: int = match extension {
            Some(e) => 1 + e.len() as int,
            None => 0,
        };
        let second = field.generated_name(windows, later, content);
        assert(generated.len() == start + a.len() + tail);
        assert(second.len() == start + b.len() + tail);
        assert(generated.subrange(start, generated.len() - tail) == a);
        assert(second.subrange(start, second.len() - tail) == b);
        lemma_numeral_injective(now_millis, later, 10);
    }
}

proof fn lemma_empty_text_has_no_extension(text: Seq<char>, windows: bool)
    requires
        text.len() == 0,
    ensures
        text_extension(text, windows) is None,
{
    let base = Seq::<ComponentView>::empty();
    lemma_join_nothing(base, text, windows);
    assert(base + path_of(text, windows) == path_of(text, windows));
    if path_of(text, windows).len() > 0 {
        assert(joined(base, text, windows).len() > 0);
    }
}

} // verus!
