//! The state of a client that the server keeps: the image of its database, and the edits
//! that were not saved when the workspace stopped.

use vstd::prelude::*;
use vstd::string::*;

use async_compression::futures::bufread::GzipDecoder;
use async_compression::futures::write::GzipEncoder;
use futures::{AsyncReadExt, AsyncWriteExt, FutureExt};

use crate::text::{byte_len, bytes_in, opt_text, same};

verus! {

/// The largest image of a database, in bytes.
pub const MAX_IMAGE_BYTES: usize = 12_582_912;

/// The largest sum of the texts of one snapshot, in bytes.
pub const UNSAVED_SNAPSHOT_LIMIT_BYTES: usize = 8_388_608;

/// How hard images are compressed.
pub const GZIP_LEVEL: i32 = 3;

/// The bytes that a gzip encoder of this level makes of bytes, if it makes any.
pub uninterp spec fn gzip_of(bytes: Seq<u8>, level: i32) -> Option<Seq<u8>>;

/// The first bytes of what a gzip stream stands for, up to a number, if that much of the
/// stream is in order.
pub uninterp spec fn gunzip_of(bytes: Seq<u8>, most: u64) -> Option<Seq<u8>>;

/// The first bytes, up to a number.
pub open spec fn at_most(bytes: Seq<u8>, most: nat) -> Seq<u8> {
    if bytes.len() <= most {
        bytes
    } else {
        bytes.take(most as int)
    }
}

/// Feeds bytes to `async_compression`'s `GzipEncoder` over a vector, which is always ready,
/// and closes it. The outcome is a function of the bytes and the level; and what comes out,
/// the decoder of the same crate turns back into the bytes.
#[verifier::external_body]
fn encode_gzip(bytes: &[u8], level: i32) -> (r: Option<Vec<u8>>)
    ensures
        match r {
            Some(z) => gzip_of(bytes@, level) == Some(z@),
            None => gzip_of(bytes@, level) is None,
        },
        r is Some ==> forall|most: u64|
            #[trigger] gunzip_of(r->0@, most) == Some(at_most(bytes@, most as nat)),
{
    let level = async_compression::Level::Precise(level);
    let mut encoder = GzipEncoder::with_quality(Vec::new(), level);
    encoder.write_all(bytes).now_or_never()?.ok()?;
    encoder.close().now_or_never()?.ok()?;
    Some(encoder.into_inner())
}

/// Reads at most a number of bytes from `async_compression`'s `GzipDecoder` over a slice,
/// which is always ready. The outcome is a function of the slice and the number; there are
/// never more bytes than asked for.
#[verifier::external_body]
fn decode_gzip(bytes: &[u8], most: u64) -> (r: Option<Vec<u8>>)
    ensures
        match r {
            Some(data) => gunzip_of(bytes@, most) == Some(data@) && data@.len() <= most,
            None => gunzip_of(bytes@, most) is None,
        },
{
    let decoder = GzipDecoder::new(futures::io::BufReader::new(bytes));
    let mut data = Vec::new();
    decoder.take(most).read_to_end(&mut data).now_or_never()?.ok()?;
    Some(data)
}

/// Why an image could not be had.
#[derive(Debug, Clone, Copy, PartialEq, Eq, Structural)]
pub enum ImageError {
    /// It could not be compressed.
    NotCompressed,
    /// It could not be decompressed.
    NotDecompressed,
    /// It is over the limit.
    TooLarge,
}

/// Compresses an image.
pub fn gzip(bytes: &[u8]) -> (r: Result<Vec<u8>, ImageError>)
    ensures
        match r {
            Ok(z) => {
                &&& gzip_of(bytes@, GZIP_LEVEL) == Some(z@)
                &&& forall|most: u64|
                    #[trigger] gunzip_of(z@, most) == Some(at_most(bytes@, most as nat))
            },
            Err(e) => e == ImageError::NotCompressed && gzip_of(bytes@, GZIP_LEVEL) is None,
        },
{
    match encode_gzip(bytes, GZIP_LEVEL) {
        Some(z) => Ok(z),
        None => Err(ImageError::NotCompressed),
    }
}

/// What becomes of the beginning of a stream that was decompressed up to one byte more than
/// the limit.
pub open spec fn within_limit(data: Option<Seq<u8>>, limit: nat) -> Result<Seq<u8>, ImageError> {
    match data {
        None => Err(ImageError::NotDecompressed),
        Some(d) => if d.len() <= limit {
            Ok(d)
        } else {
            Err(ImageError::TooLarge)
        },
    }
}

/// Takes the beginning of a stream that was decompressed, unless it is over the limit.
pub fn take_image(data: Option<Vec<u8>>, limit: usize) -> (r: Result<Vec<u8>, ImageError>)
    ensures
        ({
            let d = match data {
                Some(d) => Some(d@),
                None => None,
            };
            match r {
                Ok(image) => within_limit(d, limit as nat) == Ok::<_, ImageError>(image@),
                Err(e) => within_limit(d, limit as nat) == Err::<Seq<u8>, _>(e),
            }
        }),
{
    match data {
        None => Err(ImageError::NotDecompressed),
        Some(d) => {
            if d.len() <= limit {
                Ok(d)
            } else {
                Err(ImageError::TooLarge)
            }
        },
    }
}

/// Decompresses an image that may have at most this many bytes.
pub fn gunzip(bytes: &[u8], limit: usize) -> (r: Result<Vec<u8>, ImageError>)
    requires
        limit < usize::MAX,
    ensures
        match r {
            Ok(image) => within_limit(gunzip_of(bytes@, (limit + 1) as u64), limit as nat) == Ok::<
                _,
                ImageError,
            >(image@),
            Err(e) => within_limit(gunzip_of(bytes@, (limit + 1) as u64), limit as nat) == Err::<
                Seq<u8>,
                _,
            >(e),
        },
{
    take_image(decode_gzip(bytes, limit as u64 + 1), limit)
}

/// What the server has stored of a client.
#[derive(Debug)]
pub struct StoredState {
    pub sqlite: Vec<u8>,
    pub gzip: bool,
    pub version: u64,
    /// The build that wrote it.
    pub client_build: Option<String>,
}

/// The image in what the server has stored, and its version: none where nothing is stored,
/// else the bytes, decompressed where they are compressed, unless they are over the limit.
pub fn load_client_state(stored: StoredState) -> (r: Result<(Option<Vec<u8>>, u64), ImageError>)
    ensures
        match loaded_image(stored.sqlite@, stored.gzip) {
            Ok(None) => r matches Ok((None, version)) && version == stored.version,
            Ok(Some(data)) => r matches Ok((Some(i), version)) && i@ == data && version
                == stored.version,
            Err(e) => r matches Err(x) && x == e,
        },
{
    if stored.sqlite.len() == 0 {
        return Ok((None, stored.version));
    }
    let version = stored.version;
    let image = if stored.gzip {
        gunzip(stored.sqlite.as_slice(), MAX_IMAGE_BYTES)
    } else {
        take_image(Some(stored.sqlite), MAX_IMAGE_BYTES)
    };
    match image {
        Ok(data) => Ok((Some(data), version)),
        Err(e) => Err(e),
    }
}

/// Whether what is stored was written by another build, where both builds are known.
pub fn written_by_another_build(stored: Option<&str>, own: Option<&str>) -> (r: bool)
    ensures
        r == (stored is Some && own is Some && stored->0@ != own->0@),
{
    match (stored, own) {
        (Some(stored), Some(own)) => !same(stored, own),
        _ => false,
    }
}

/// What was saved gives back what was to be saved, as long as it is within the limit, and is
/// refused where it is not.
pub proof fn law_images_survive(bytes: Seq<u8>, compressed: Seq<u8>, limit: usize)
    requires
        limit < u64::MAX,
        forall|most: u64|
            #[trigger] gunzip_of(compressed, most) == Some(at_most(bytes, most as nat)),
    ensures
        within_limit(gunzip_of(compressed, (limit + 1) as u64), limit as nat) == if bytes.len()
            <= limit {
            Ok::<Seq<u8>, ImageError>(bytes)
        } else {
            Err::<Seq<u8>, ImageError>(ImageError::TooLarge)
        },
{
    assert(gunzip_of(compressed, (limit + 1) as u64) == Some(at_most(bytes, (limit + 1) as nat)));
}

/// The time of a file's last change, in seconds and nanoseconds since 1970.
#[derive(Debug, Clone, Copy, PartialEq, Eq, Structural)]
pub struct MTime {
    pub seconds: u64,
    pub nanos: u32,
}

/// An edit that was not saved.
#[derive(Debug)]
pub struct UnsavedBufferRow {
    pub abs_path: String,
    pub text: String,
    /// The state of the file that was edited.
    pub mtime: Option<MTime>,
    /// When the snapshot was taken, in unix milliseconds.
    pub snapshot_at_unix_ms: u64,
}

/// An edit that was not saved, on the level of specifications.
pub struct RowView {
    pub abs_path: Seq<char>,
    pub text: Seq<char>,
    pub mtime: Option<MTime>,
    pub snapshot_at_unix_ms: u64,
}

impl UnsavedBufferRow {
    pub open spec fn view(self) -> RowView {
        RowView {
            abs_path: self.abs_path@,
            text: self.text@,
            mtime: self.mtime,
            snapshot_at_unix_ms: self.snapshot_at_unix_ms,
        }
    }
}

/// The columns of a file's time.
pub fn mtime_columns(mtime: Option<MTime>) -> (r: (Option<u64>, Option<u32>))
    ensures
        r == columns_of(mtime),
{
    match mtime {
        Some(mtime) => (Some(mtime.seconds), Some(mtime.nanos)),
        None => (None, None),
    }
}

/// The columns of a file's time.
pub open spec fn columns_of(mtime: Option<MTime>) -> (Option<u64>, Option<u32>) {
    match mtime {
        Some(mtime) => (Some(mtime.seconds), Some(mtime.nanos)),
        None => (None, None),
    }
}

/// The time that columns stand for.
pub open spec fn mtime_of(seconds: Option<u64>, nanos: Option<u32>) -> Option<MTime> {
    match seconds {
        Some(seconds) => Some(
            MTime {
                seconds,
                nanos: match nanos {
                    Some(nanos) => nanos,
                    None => 0,
                },
            },
        ),
        None => None,
    }
}

/// The time that columns stand for.
pub fn mtime_from_columns(seconds: Option<u64>, nanos: Option<u32>) -> (r: Option<MTime>)
    ensures
        r == mtime_of(seconds, nanos),
{
    match seconds {
        Some(seconds) => Some(
            MTime {
                seconds,
                nanos: match nanos {
                    Some(nanos) => nanos,
                    None => 0,
                },
            },
        ),
        None => None,
    }
}

/// A file's time comes back from its columns.
pub proof fn law_times_survive(mtime: Option<MTime>)
    ensures
        mtime_of(columns_of(mtime).0, columns_of(mtime).1) == mtime,
{
}

/// A text that is open.
#[derive(Debug)]
pub struct OpenBuffer {
    pub dirty: bool,
    /// The file that it belongs to, if it belongs to one.
    pub abs_path: Option<String>,
    pub text: String,
    pub saved_mtime: Option<MTime>,
}

/// A text that is open, on the level of specifications.
pub struct BufferView {
    pub dirty: bool,
    pub abs_path: Option<Seq<char>>,
    pub text: Seq<char>,
    pub saved_mtime: Option<MTime>,
}

impl OpenBuffer {
    pub open spec fn view(self) -> BufferView {
        BufferView {
            dirty: self.dirty,
            abs_path: opt_text(self.abs_path),
            text: self.text@,
            saved_mtime: self.saved_mtime,
        }
    }
}

/// Texts that are open, on the level of specifications.
pub open spec fn buffer_views(v: Seq<OpenBuffer>) -> Seq<BufferView> {
    v.map_values(|b: OpenBuffer| b.view())
}

/// Rows, on the level of specifications.
pub open spec fn row_views(v: Seq<UnsavedBufferRow>) -> Seq<RowView> {
    v.map_values(|r: UnsavedBufferRow| r.view())
}

/// How many bytes the texts of rows have.
pub open spec fn row_bytes(rows: Seq<RowView>) -> nat
    decreases rows.len(),
{
    if rows.len() == 0 {
        0
    } else {
        row_bytes(rows.drop_last()) + byte_len(rows.last().text)
    }
}

/// The rows of a snapshot: one for each text that was changed and belongs to a file, as long
/// as there is room for it.
pub open spec fn snapshot_rows(buffers: Seq<BufferView>, now: u64) -> Seq<RowView>
    decreases buffers.len(),
{
    if buffers.len() == 0 {
        Seq::empty()
    } else {
        let rows = snapshot_rows(buffers.drop_last(), now);
        let b = buffers.last();
        if b.dirty && b.abs_path is Some && row_bytes(rows) + byte_len(b.text)
            <= UNSAVED_SNAPSHOT_LIMIT_BYTES {
            rows.push(
                RowView {
                    abs_path: b.abs_path->0,
                    text: b.text,
                    mtime: b.saved_mtime,
                    snapshot_at_unix_ms: now,
                },
            )
        } else {
            rows
        }
    }
}

/// Takes a snapshot of the edits that were not saved.
pub fn snapshot_unsaved_buffers(buffers: &Vec<OpenBuffer>, now: u64) -> (r: Vec<UnsavedBufferRow>)
    ensures
        row_views(r@) == snapshot_rows(buffer_views(buffers@), now),
        row_bytes(row_views(r@)) <= UNSAVED_SNAPSHOT_LIMIT_BYTES,
{
    let ghost all = buffer_views(buffers@);
    let mut rows: Vec<UnsavedBufferRow> = Vec::new();
    let mut total: usize = 0;
    let mut i: usize = 0;
    proof {
        assert(row_views(rows@) =~= Seq::<RowView>::empty());
    }
    while i < buffers.len()
        invariant
            i <= buffers@.len(),
            all == buffer_views(buffers@),
            row_views(rows@) == snapshot_rows(all.take(i as int), now),
            total == row_bytes(row_views(rows@)),
            total <= UNSAVED_SNAPSHOT_LIMIT_BYTES,
        decreases buffers@.len() - i,
    {
        let b = &buffers[i];
        let ghost before = row_views(rows@);
        proof {
            assert(all.take(i + 1).drop_last() =~= all.take(i as int));
            assert(all.take(i + 1).last() == b.view());
        }
        if b.dirty {
            if let Some(path) = &b.abs_path {
                let len: usize = bytes_in(b.text.as_str());
                if len <= UNSAVED_SNAPSHOT_LIMIT_BYTES - total {
                    total = total + len;
                    let row = UnsavedBufferRow {
                        abs_path: path.clone(),
                        text: b.text.clone(),
                        mtime: b.saved_mtime,
                        snapshot_at_unix_ms: now,
                    };
                    rows.push(row);
                    proof {
                        assert(row_views(rows@) =~= before.push(row.view()));
                        assert(before.push(row.view()).drop_last() =~= before);
                    }
                }
            }
        }
        i = i + 1;
    }
    proof {
        assert(all.take(i as int) =~= all);
    }
    rows
}

/// What opening the file of a row gave.
#[derive(Debug)]
pub enum RowBuffer {
    /// No open directory holds it.
    NotInProject,
    /// It could not be opened.
    Failed,
    /// It has this text.
    Opened(String),
}

/// What is done with a row.
#[derive(Debug, Clone, Copy, PartialEq, Eq, Structural)]
pub enum RestoreStep {
    /// Nothing: the row is lost.
    Drop,
    /// Show the file; its text is the one of the row already.
    Show,
    /// Note that the file was read as of this time, if one is known, then replace its text
    /// by that of the row, without a way back, and show it.
    Replace { reloaded_at: Option<MTime> },
}

/// What is done with a row.
pub open spec fn restore_step(row: RowView, buffer: RowBuffer) -> RestoreStep {
    match buffer {
        RowBuffer::NotInProject | RowBuffer::Failed => RestoreStep::Drop,
        RowBuffer::Opened(text) => if text@ == row.text {
            RestoreStep::Show
        } else {
            RestoreStep::Replace { reloaded_at: row.mtime }
        },
    }
}

/// Edits that are being restored.
#[derive(Debug)]
pub struct Restore {
    /// How many were.
    pub restored: usize,
}

impl Restore {
    /// None yet.
    pub fn new() -> (r: Restore)
        ensures
            r.restored == 0,
    {
        Restore { restored: 0 }
    }

    /// Decides what is done with a row, and counts it unless it is lost.
    pub fn restore_row(&mut self, row: &UnsavedBufferRow, buffer: &RowBuffer) -> (r: RestoreStep)
        requires
            old(self).restored < usize::MAX,
        ensures
            r == restore_step(row.view(), *buffer),
            final(self).restored == old(self).restored + if r == RestoreStep::Drop {
                0int
            } else {
                1
            },
    {
        let step = match buffer {
            RowBuffer::NotInProject | RowBuffer::Failed => {
                return RestoreStep::Drop;
            },
            RowBuffer::Opened(text) => {
                if same(text.as_str(), row.text.as_str()) {
                    RestoreStep::Show
                } else {
                    RestoreStep::Replace { reloaded_at: row.mtime }
                }
            },
        };
        self.restored = self.restored + 1;
        step
    }
}

/// Only edits are snapshotted: a text that was not changed, or belongs to no file, gives no
/// row, and every row is the text of one that was, as of that file.
pub proof fn law_snapshots_hold_edits_only(buffers: Seq<BufferView>, now: u64, i: int) -> (k: int)
    requires
        0 <= i < snapshot_rows(buffers, now).len(),
    ensures
        0 <= k < buffers.len(),
        buffers[k].dirty,
        buffers[k].abs_path == Some(snapshot_rows(buffers, now)[i].abs_path),
        buffers[k].text == snapshot_rows(buffers, now)[i].text,
        buffers[k].saved_mtime == snapshot_rows(buffers, now)[i].mtime,
    decreases buffers.len(),
{
    let rows = snapshot_rows(buffers.drop_last(), now);
    if i < rows.len() {
        let k = law_snapshots_hold_edits_only(buffers.drop_last(), now, i);
        assert(buffers[k] == buffers.drop_last()[k]);
        k
    } else {
        buffers.len() - 1
    }
}

/// An edit that was snapshotted comes back as it was: after a row was restored, its file
/// shows the text of the row.
pub proof fn law_restored_files_show_the_edit(row: RowView, text: String)
    ensures
        match restore_step(row, RowBuffer::Opened(text)) {
            RestoreStep::Drop => false,
            RestoreStep::Show => text@ == row.text,
            RestoreStep::Replace { reloaded_at } => text@ != row.text && reloaded_at == row.mtime,
        },
{
}

/// The image in what is stored, if there is one.
pub open spec fn loaded_image(stored: Seq<u8>, gzip: bool) -> Result<Option<Seq<u8>>, ImageError> {
    if stored.len() == 0 {
        Ok(None)
    } else {
        let image = if gzip {
            within_limit(
                gunzip_of(stored, (MAX_IMAGE_BYTES + 1) as u64),
                MAX_IMAGE_BYTES as nat,
            )
        } else {
            within_limit(Some(stored), MAX_IMAGE_BYTES as nat)
        };
        match image {
            Ok(data) => Ok(Some(data)),
            Err(e) => Err(e),
        }
    }
}

/// Nothing is loaded where nothing is stored; what is stored as it is comes back as it is, up
/// to 12 MiB, and no larger image is loaded; what is compressed comes back as what it was.
pub proof fn law_stored_images_are_loaded(stored: Seq<u8>, image: Seq<u8>)
    requires
        stored.len() > 0,
    ensures
        loaded_image(Seq::empty(), true) == Ok::<Option<Seq<u8>>, ImageError>(None),
        loaded_image(Seq::empty(), false) == Ok::<Option<Seq<u8>>, ImageError>(None),
        stored.len() <= 12_582_912 ==> loaded_image(stored, false) == Ok::<
            Option<Seq<u8>>,
            ImageError,
        >(Some(stored)),
        stored.len() > 12_582_912 ==> loaded_image(stored, false) == Err::<
            Option<Seq<u8>>,
            ImageError,
        >(ImageError::TooLarge),
        (forall|most: u64|
            #[trigger] gunzip_of(stored, most) == Some(
                image.take(
                    if image.len() <= most {
                        image.len() as int
                    } else {
                        most as int
                    },
                ),
            )) ==> {
            &&& image.len() <= 12_582_912 ==> loaded_image(stored, true) == Ok::<
                Option<Seq<u8>>,
                ImageError,
            >(Some(image))
            &&& image.len() > 12_582_912 ==> loaded_image(stored, true) == Err::<
                Option<Seq<u8>>,
                ImageError,
            >(ImageError::TooLarge)
        },
        gunzip_of(stored, 12_582_913) is None ==> loaded_image(stored, true) == Err::<
            Option<Seq<u8>>,
            ImageError,
        >(ImageError::NotDecompressed),
{
    assert(image.take(image.len() as int) =~= image);
    if forall|most: u64|
        #[trigger] gunzip_of(stored, most) == Some(
            image.take(
                if image.len() <= most {
                    image.len() as int
                } else {
                    most as int
                },
            ),
        ) {
        let read = gunzip_of(stored, 12_582_913);
        assert(read is Some);
    }
}

/// No edit is left out: every changed text that belongs to a file, and fits beside those
/// before it, has a row with its file, its text, its time and that of the snapshot.
pub proof fn law_no_edit_is_left_out(buffers: Seq<BufferView>, now: u64, k: int) -> (i: int)
    requires
        0 <= k < buffers.len(),
        buffers[k].dirty,
        buffers[k].abs_path is Some,
        row_bytes(snapshot_rows(buffers.take(k), now)) + byte_len(buffers[k].text) <= 8_388_608,
    ensures
        0 <= i < snapshot_rows(buffers, now).len(),
        snapshot_rows(buffers, now)[i] == (RowView {
            abs_path: buffers[k].abs_path->0,
            text: buffers[k].text,
            mtime: buffers[k].saved_mtime,
            snapshot_at_unix_ms: now,
        }),
        i == snapshot_rows(buffers.take(k), now).len(),
    decreases buffers.len(),
{
    let front = buffers.drop_last();
    if k == buffers.len() - 1 {
        assert(buffers.take(k) =~= front);
        snapshot_rows(front, now).len() as int
    } else {
        assert(front.take(k) =~= buffers.take(k));
        let i = law_no_edit_is_left_out(front, now, k);
        i
    }
}

/// The bytes of texts.
pub open spec fn text_bytes(buffers: Seq<BufferView>) -> nat
    decreases buffers.len(),
{
    if buffers.len() == 0 {
        0
    } else {
        text_bytes(buffers.drop_last()) + byte_len(buffers.last().text)
    }
}

/// The changed texts that belong to files, in order.
pub open spec fn edits(buffers: Seq<BufferView>) -> Seq<BufferView> {
    buffers.filter(|b: BufferView| b.dirty && b.abs_path is Some)
}

/// Where all edits fit, there is one row for each, in order.
pub proof fn law_edits_that_fit_are_all_kept(buffers: Seq<BufferView>, now: u64)
    requires
        text_bytes(edits(buffers)) <= 8_388_608,
    ensures
        snapshot_rows(buffers, now).len() == edits(buffers).len(),
        forall|i: int|
            0 <= i < edits(buffers).len() ==> #[trigger] snapshot_rows(buffers, now)[i] == (
            RowView {
                abs_path: edits(buffers)[i].abs_path->0,
                text: edits(buffers)[i].text,
                mtime: edits(buffers)[i].saved_mtime,
                snapshot_at_unix_ms: now,
            }),
        row_bytes(snapshot_rows(buffers, now)) == text_bytes(edits(buffers)),
    decreases buffers.len(),
{
    reveal(Seq::filter);
    if buffers.len() > 0 {
        let front = buffers.drop_last();
        let last = buffers.last();
        if last.dirty && last.abs_path is Some {
            assert(edits(buffers) =~= edits(front).push(last));
            assert(edits(buffers).drop_last() =~= edits(front));
            law_edits_that_fit_are_all_kept(front, now);
            let rows = snapshot_rows(front, now);
            assert(snapshot_rows(buffers, now).drop_last() =~= rows);
            assert forall|i: int|
                0 <= i < edits(buffers).len() implies #[trigger] snapshot_rows(buffers, now)[i] == (
            RowView {
                abs_path: edits(buffers)[i].abs_path->0,
                text: edits(buffers)[i].text,
                mtime: edits(buffers)[i].saved_mtime,
                snapshot_at_unix_ms: now,
            }) by {
                if i < rows.len() {
                    assert(snapshot_rows(buffers, now)[i] == rows[i]);
                    assert(edits(buffers)[i] == edits(front)[i]);
                }
            }
        } else {
            assert(edits(buffers) =~= edits(front));
            law_edits_that_fit_are_all_kept(front, now);
        }
    } else {
        assert(edits(buffers).len() == 0);
    }
}

/// A snapshot is never over 8 MiB of text, and one that is full leaves the rows before it as
/// they are.
pub proof fn law_snapshots_are_bounded(buffers: Seq<BufferView>, now: u64)
    ensures
        row_bytes(snapshot_rows(buffers, now)) <= 8_388_608,
        buffers.len() > 0 ==> snapshot_rows(buffers.drop_last(), now).is_prefix_of(
            snapshot_rows(buffers, now),
        ),
    decreases buffers.len(),
{
    if buffers.len() > 0 {
        law_snapshots_are_bounded(buffers.drop_last(), now);
        let rows = snapshot_rows(buffers.drop_last(), now);
        let all = snapshot_rows(buffers, now);
        assert(all.take(rows.len() as int) =~= rows);
        if all.len() > rows.len() {
            assert(all.drop_last() =~= rows);
        }
    }
}

/// A row is dropped only where its file cannot be opened in the project; a file whose text is
/// another gets the text of the row, as of the time at which the edit was begun.
pub proof fn law_rows_are_restored(row: RowView, buffer: RowBuffer)
    ensures
        restore_step(row, buffer) is Drop <==> !(buffer is Opened),
        buffer matches RowBuffer::Opened(text) ==> {
            &&& text@ == row.text ==> restore_step(row, buffer) is Show
            &&& text@ != row.text ==> restore_step(row, buffer) == (RestoreStep::Replace {
                reloaded_at: row.mtime,
            })
        },
{
}

/// The time of a file is kept to the nanosecond, and a file without one has none.
pub proof fn law_times_have_their_columns(seconds: u64, nanos: u32)
    ensures
        columns_of(Some(MTime { seconds, nanos })) == (Some(seconds), Some(nanos)),
        columns_of(None).0 is None && columns_of(None).1 is None,
        mtime_of(Some(seconds), None) == Some(MTime { seconds, nanos: 0 }),
        mtime_of(None, Some(nanos)) is None,
{
}

} // verus!
