//! How far the uploads have come that are under way.

use vstd::hash_map::StringHashMap;
use vstd::prelude::*;

verus! {

/// Bytes of an upload between two changes of what is shown of it.
pub const UPDATE_THRESHOLD: usize = 65536;

/// The uploads that are under way: for each file name, the bytes received so far
/// as they are shown.
pub struct ProgressMap {
    uploads: StringHashMap<usize>,
}

impl View for ProgressMap {
    type V = Map<Seq<char>, usize>;

    closed spec fn view(&self) -> Map<Seq<char>, usize> {
        self.uploads@
    }
}

impl ProgressMap {
    /// No uploads.
    pub fn new() -> (map: ProgressMap)
        ensures
            map@ == Map::<Seq<char>, usize>::empty(),
    {
        ProgressMap { uploads: StringHashMap::new() }
    }

    /// What is shown of the upload of that name.
    pub fn get(&self, filename: &str) -> (bytes: Option<usize>)
        ensures
            bytes == if self@.contains_key(filename@) {
                Some(self@[filename@])
            } else {
                None
            },
    {
        match self.uploads.get(filename) {
            Some(bytes) => Some(*bytes),
            None => None,
        }
    }
}

/// The entry of one upload in the table.
#[derive(Debug)]
pub struct ProgressEntry {
    pub filename: String,
}

/// The table once an upload has begun.
pub open spec fn entered(map: Map<Seq<char>, usize>, filename: Seq<char>) -> Map<Seq<char>, usize> {
    map.insert(filename, 0)
}

/// The table once an upload shows that many bytes. What is not in the table does
/// not get into it.
pub open spec fn updated(
    map: Map<Seq<char>, usize>,
    filename: Seq<char>,
    bytes: usize,
) -> Map<Seq<char>, usize> {
    if map.contains_key(filename) {
        map.insert(filename, bytes)
    } else {
        map
    }
}

/// The table once an upload has shown the counts, one after the other.
pub open spec fn updated_by(
    map: Map<Seq<char>, usize>,
    filename: Seq<char>,
    counts: Seq<usize>,
) -> Map<Seq<char>, usize>
    decreases counts.len(),
{
    if counts.len() == 0 {
        map
    } else {
        updated(updated_by(map, filename, counts.drop_last()), filename, counts.last())
    }
}

/// The table once an upload is over.
pub open spec fn left(map: Map<Seq<char>, usize>, filename: Seq<char>) -> Map<Seq<char>, usize> {
    map.remove(filename)
}

impl ProgressEntry {
    /// Enters an upload that has received nothing yet.
    pub fn new(map: &mut ProgressMap, filename: String) -> (entry: ProgressEntry)
        ensures
            final(map)@ == entered(old(map)@, filename@),
            entry.filename@ == filename@,
    {
        map.uploads.insert(filename.clone(), 0);
        ProgressEntry { filename }
    }

    /// Shows that many bytes, if the upload is still in the table.
    pub fn update(&self, map: &mut ProgressMap, bytes: usize)
        ensures
            final(map)@ == updated(old(map)@, self.filename@, bytes),
    {
        if map.uploads.contains_key(self.filename.as_str()) {
            map.uploads.insert(self.filename.clone(), bytes);
        }
    }

    /// Takes the upload out of the table.
    pub fn leave(self, map: &mut ProgressMap)
        ensures
            final(map)@ == left(old(map)@, self.filename@),
    {
        map.uploads.remove(self.filename.as_str());
    }
}

/// How far a file has come.
#[derive(Debug, Clone, Copy, PartialEq, Eq, Structural)]
pub enum ProgressStatus {
    Uploading,
    Done,
    Pending,
}

/// The answer to the question how far a file has come.
#[derive(Debug, Clone, Copy, PartialEq, Eq, Structural)]
pub struct ProgressReply {
    pub progress: usize,
    pub status: ProgressStatus,
}

impl ProgressStatus {
    /// The word for the status.
    pub open spec fn word(&self) -> Seq<char> {
        match self {
            ProgressStatus::Uploading => "uploading"@,
            ProgressStatus::Done => "done"@,
            ProgressStatus::Pending => "pending"@,
        }
    }

    /// The word for the status.
    pub fn as_str(&self) -> (word: &'static str)
        ensures
            word@ == self.word(),
    {
        match self {
            ProgressStatus::Uploading => "uploading",
            ProgressStatus::Done => "done",
            ProgressStatus::Pending => "pending",
        }
    }
}

/// How far a file has come: the bytes shown of its upload, or a hundred where it
/// is there and not being uploaded, or nothing.
pub open spec fn progress_of(
    map: Map<Seq<char>, usize>,
    filename: Seq<char>,
    exists_on_disk: bool,
) -> ProgressReply {
    if map.contains_key(filename) {
        ProgressReply { progress: map[filename], status: ProgressStatus::Uploading }
    } else if exists_on_disk {
        ProgressReply { progress: 100, status: ProgressStatus::Done }
    } else {
        ProgressReply { progress: 0, status: ProgressStatus::Pending }
    }
}

/// Answers how far a file has come.
pub fn progress_handler(map: &ProgressMap, filename: &str, exists_on_disk: bool) -> (reply:
    ProgressReply)
    ensures
        reply == progress_of(map@, filename@, exists_on_disk),
{
    match map.get(filename) {
        Some(bytes) => ProgressReply { progress: bytes, status: ProgressStatus::Uploading },
        None => if exists_on_disk {
            ProgressReply { progress: 100, status: ProgressStatus::Done }
        } else {
            ProgressReply { progress: 0, status: ProgressStatus::Pending }
        },
    }
}

/// Counts the bytes of one upload and says when what is shown of it changes.
#[derive(Debug)]
pub struct UploadMeter {
    pub total: usize,
    pub last_updated: usize,
}

impl UploadMeter {
    /// What is shown lags behind by less than the threshold.
    pub open spec fn wf(&self) -> bool {
        self.last_updated <= self.total < self.last_updated + UPDATE_THRESHOLD
    }

    /// Nothing received.
    pub fn new() -> (meter: UploadMeter)
        ensures
            meter.wf(),
            meter.total == 0,
            meter.last_updated == 0,
    {
        UploadMeter { total: 0, last_updated: 0 }
    }

    /// Counts bytes that were received. Gives the number to show, where the bytes
    /// received since the last such number reach the threshold.
    pub fn record(&mut self, bytes: usize) -> (shown: Option<usize>)
        requires
            old(self).wf(),
            old(self).total + bytes <= usize::MAX,
        ensures
            final(self).wf(),
            final(self).total == old(self).total + bytes,
            shown is Some <==> final(self).total - old(self).last_updated >= UPDATE_THRESHOLD,
            shown matches Some(n) ==> n == final(self).total && final(self).last_updated
                == final(self).total,
            shown is None ==> final(self).last_updated == old(self).last_updated,
    {
        self.total = self.total + bytes;
        if self.total - self.last_updated >= UPDATE_THRESHOLD {
            self.last_updated = self.total;
            Some(self.total)
        } else {
            None
        }
    }
}

/// While an upload is in the table its progress is what was shown last, and once
/// it is over the table says nothing of it. No other entry changes.
pub proof fn lemma_upload_lifecycle(
    map: Map<Seq<char>, usize>,
    filename: Seq<char>,
    counts: Seq<usize>,
    other: Seq<char>,
    exists_on_disk: bool,
)
    requires
        other != filename,
    ensures
        progress_of(updated_by(entered(map, filename), filename, counts), filename, exists_on_disk)
            == (ProgressReply {
            progress: if counts.len() == 0 {
                0
            } else {
                counts.last()
            },
            status: ProgressStatus::Uploading,
        }),
        progress_of(left(map, filename), filename, exists_on_disk).status
            != ProgressStatus::Uploading,
        progress_of(entered(map, filename), other, exists_on_disk) == progress_of(
            map,
            other,
            exists_on_disk,
        ),
        progress_of(updated_by(map, filename, counts), other, exists_on_disk) == progress_of(
            map,
            other,
            exists_on_disk,
        ),
        progress_of(left(map, filename), other, exists_on_disk) == progress_of(
            map,
            other,
            exists_on_disk,
        ),
    decreases counts.len(),
{
    if counts.len() > 0 {
        lemma_upload_lifecycle(map, filename, counts.drop_last(), other, exists_on_disk);
    }
}

/// When an upload is over, the table is the one that it found without its name,
/// however often it was updated, and later updates change nothing. A table that did
/// not hold the name is as it was.
pub proof fn lemma_upload_leaves_no_trace(
    map: Map<Seq<char>, usize>,
    filename: Seq<char>,
    counts: Seq<usize>,
)
    ensures
        left(updated_by(entered(map, filename), filename, counts), filename) == left(map, filename),
        left(updated_by(map, filename, counts), filename) == left(map, filename),
        updated_by(left(map, filename), filename, counts) == left(map, filename),
        !map.contains_key(filename) ==> left(map, filename) == map,
    decreases counts.len(),
{
    if counts.len() > 0 {
        lemma_upload_leaves_no_trace(map, filename, counts.drop_last());
    }
    assert(left(updated_by(entered(map, filename), filename, counts), filename) == left(
        map,
        filename,
    ));
    assert(left(updated_by(map, filename, counts), filename) == left(map, filename));
    assert(updated_by(left(map, filename), filename, counts) == left(map, filename));
    assert(!map.contains_key(filename) ==> left(map, filename) == map);
}

/// What is said of a file rests on the table where its upload is under way, and only
/// otherwise on whether the file is there: then it is done in full, or nothing of it came
/// yet. Only of an upload under way it is said that it goes on.
pub proof fn lemma_progress_said(
    map: Map<Seq<char>, usize>,
    filename: Seq<char>,
    exists_on_disk: bool,
    bytes: usize,
)
    ensures
        progress_of(map, filename, exists_on_disk).status == ProgressStatus::Uploading
            <==> map.contains_key(filename),
        progress_of(map.insert(filename, bytes), filename, exists_on_disk) == (ProgressReply {
            progress: bytes,
            status: ProgressStatus::Uploading,
        }),
        progress_of(map.remove(filename), filename, true) == (ProgressReply {
            progress: 100,
            status: ProgressStatus::Done,
        }),
        progress_of(map.remove(filename), filename, false) == (ProgressReply {
            progress: 0,
            status: ProgressStatus::Pending,
        }),
{
}

/// Each status has a word of its own.
pub proof fn lemma_status_words(status: ProgressStatus)
    ensures
        status.word() == "uploading"@ <==> status is Uploading,
        status.word() == "done"@ <==> status is Done,
        status.word() == "pending"@ <==> status is Pending,
{
    reveal_strlit("uploading");
    reveal_strlit("done");
    reveal_strlit("pending");
    assert("uploading"@[0] == 'u' && "done"@[0] == 'd' && "pending"@[0] == 'p');
}

/// An upload that begins is entered with nothing received and one that is over is taken
/// out. One that is shown to have received more changes its entry, if it still has one.
/// Each of these leaves the entries of other files as they are.
pub proof fn lemma_table_by_file(
    map: Map<Seq<char>, usize>,
    filename: Seq<char>,
    bytes: usize,
    other: Seq<char>,
)
    ensures
        entered(map, filename).contains_pair(filename, 0),
        !left(map, filename).contains_key(filename),
        map.contains_key(filename) ==> updated(map, filename, bytes).contains_pair(filename, bytes),
        !map.contains_key(filename) ==> updated(map, filename, bytes) == map,
        other != filename ==> entered(map, filename).contains_key(other) == map.contains_key(other)
            && updated(map, filename, bytes).contains_key(other) == map.contains_key(other) && left(
            map,
            filename,
        ).contains_key(other) == map.contains_key(other),
        other != filename && map.contains_key(other) ==> entered(map, filename)[other] == map[other]
            && updated(map, filename, bytes)[other] == map[other] && left(map, filename)[other]
            == map[other],
{
}

} // verus!
