//! Upload and download of files, and the assets of extensions.
//!
//! Bodies are streamed and files are opened outside; the rules here say which paths,
//! sizes and counts are accepted, what is done with each entry of a directory, and what is
//! answered.

use vstd::prelude::*;
use vstd::string::*;

use crate::request::{first_text, header_text_of, RequestHead};
use crate::serve::auth::{pair_texts, pairs_of, query_pairs};
use crate::serve::paths::{
    bad_path, is_bad_path, law_plain_paths_are_found, lemma_plain_path, names_of, path_names,
    plain_name, RelPath, resolve_decoded, resolved,
};
use crate::text::{
    alphanumeric, ascii_lower, chars_of, concat3, control, decimal, decimal_digits, is_alphanumeric,
    is_control, join, joined, lemma_position, lemma_split_concat, parse_u64, parsed_u64, same,
    split, split_on, texts, to_ascii_lower,
    trim, trimmed,
};

verus! {

/// The largest upload, in bytes.
pub const MAX_UPLOAD_BYTES: u64 = 536_870_912;

/// The largest number of files in one upload.
pub const MAX_FILES_PER_UPLOAD: usize = 512;

/// The largest number of entries in the download of a directory.
pub const MAX_DOWNLOAD_ENTRIES: usize = 100_000;

/// What stands behind the name of a file while it is uploaded, before a tag.
pub const TEMP_SUFFIX: &'static str = ".zs-upload-";

/// The longest id of an extension.
pub const MAX_EXTENSION_ID_BYTES: usize = 64;

/// The size of the pieces in which files are read.
pub const READ_CHUNK_BYTES: usize = 65_536;

/// How many frames of an archive wait at most.
pub const TAR_CHANNEL_FRAMES: usize = 16;

/// How deep the sweep of left-over files goes.
pub const SWEEP_MAX_DEPTH: usize = 32;

/// How many entries the sweep of left-over files looks at.
pub const SWEEP_MAX_ENTRIES: usize = 200_000;

/// The longest tag of a temporary file, in characters.
pub const TEMP_TAG_CHARS: usize = 64;

/// Why a request for a file failed.
#[derive(Debug)]
pub enum FilesError {
    /// The path leads out of the workspace.
    Traversal,
    /// The path is none that a request may name.
    InvalidPath,
    NotFound,
    /// The upload is too large.
    TooLarge,
    /// The upload has too many files.
    TooManyFiles,
    /// The content type is none that is accepted.
    UnsupportedMedia,
    /// The body cannot be read.
    Malformed(String),
    /// Any other failure.
    Io(String),
}

/// Why a request for a file failed, on the level of specifications.
pub enum FilesErrorView {
    Traversal,
    InvalidPath,
    NotFound,
    TooLarge,
    TooManyFiles,
    UnsupportedMedia,
    Malformed(Seq<char>),
    Io(Seq<char>),
}

impl FilesError {
    pub open spec fn view(self) -> FilesErrorView {
        match self {
            FilesError::Traversal => FilesErrorView::Traversal,
            FilesError::InvalidPath => FilesErrorView::InvalidPath,
            FilesError::NotFound => FilesErrorView::NotFound,
            FilesError::TooLarge => FilesErrorView::TooLarge,
            FilesError::TooManyFiles => FilesErrorView::TooManyFiles,
            FilesError::UnsupportedMedia => FilesErrorView::UnsupportedMedia,
            FilesError::Malformed(m) => FilesErrorView::Malformed(m@),
            FilesError::Io(m) => FilesErrorView::Io(m@),
        }
    }

    /// The HTTP status of a failure.
    pub fn status(&self) -> (r: u16)
        ensures
            r == match *self {
                FilesError::Traversal | FilesError::InvalidPath | FilesError::Malformed(_) => 400u16,
                FilesError::NotFound => 404,
                FilesError::TooLarge | FilesError::TooManyFiles => 413,
                FilesError::UnsupportedMedia => 415,
                FilesError::Io(_) => 500,
            },
    {
        match self {
            FilesError::Traversal | FilesError::InvalidPath | FilesError::Malformed(_) => 400,
            FilesError::NotFound => 404,
            FilesError::TooLarge | FilesError::TooManyFiles => 413,
            FilesError::UnsupportedMedia => 415,
            FilesError::Io(_) => 500,
        }
    }

    /// The name of a failure in a response body.
    pub fn code(&self) -> (r: &'static str)
        ensures
            r@ == match *self {
                FilesError::Traversal => "path_outside_root"@,
                FilesError::InvalidPath => "invalid_path"@,
                FilesError::NotFound => "not_found"@,
                FilesError::TooLarge => "upload_too_large"@,
                FilesError::TooManyFiles => "too_many_files"@,
                FilesError::UnsupportedMedia => "unsupported_media_type"@,
                FilesError::Malformed(_) => "malformed_request"@,
                FilesError::Io(_) => "io_error"@,
            },
    {
        match self {
            FilesError::Traversal => "path_outside_root",
            FilesError::InvalidPath => "invalid_path",
            FilesError::NotFound => "not_found",
            FilesError::TooLarge => "upload_too_large",
            FilesError::TooManyFiles => "too_many_files",
            FilesError::UnsupportedMedia => "unsupported_media_type",
            FilesError::Malformed(_) => "malformed_request",
            FilesError::Io(_) => "io_error",
        }
    }
}

/// What an upload is answered.
#[derive(Debug)]
pub struct UploadResponse {
    /// Every file that was written, in order, relative to the workspace.
    pub written: Vec<String>,
}

/// A character that the id of an extension may begin with.
pub open spec fn id_start(c: char) -> bool {
    ('a' <= c <= 'z') || ('0' <= c <= '9')
}

/// The form of an extension's id: small letters and digits, and after the first also `_` and
/// `-`; 64 characters at most.
pub open spec fn extension_id_ok(s: Seq<char>) -> bool {
    &&& 1 <= s.len() <= MAX_EXTENSION_ID_BYTES
    &&& id_start(s[0])
    &&& forall|i: int| 0 <= i < s.len() ==> (id_start(#[trigger] s[i]) || s[i] == '_' || s[i] == '-')
}

/// Whether a text has the form of an extension's id.
pub fn is_valid_extension_id(id: &str) -> (r: bool)
    ensures
        r == extension_id_ok(id@),
{
    let v = chars_of(id);
    if v.len() == 0 || v.len() > MAX_EXTENSION_ID_BYTES {
        return false;
    }
    let mut i: usize = 0;
    while i < v.len()
        invariant
            0 < v@.len() <= MAX_EXTENSION_ID_BYTES,
            i <= v@.len(),
            v@ == id@,
            i > 0 ==> id_start(v@[0]),
            forall|j: int|
                0 <= j < i ==> (id_start(#[trigger] v@[j]) || v@[j] == '_' || v@[j] == '-'),
        decreases v@.len() - i,
    {
        let c = v[i];
        let start = ('a' <= c && c <= 'z') || ('0' <= c && c <= '9');
        if !start && (i == 0 || !(c == '_' || c == '-')) {
            return false;
        }
        i = i + 1;
    }
    true
}

/// The value of the first pair with this key.
pub open spec fn value_of(pairs: Seq<(Seq<char>, Seq<char>)>, key: Seq<char>) -> Option<Seq<char>>
    decreases pairs.len(),
{
    if pairs.len() == 0 {
        None
    } else if pairs[0].0 == key {
        Some(pairs[0].1)
    } else {
        value_of(pairs.skip(1), key)
    }
}

/// The path that a request names in its query, decoded.
pub open spec fn named_path(req: RequestHead) -> Option<Seq<char>> {
    value_of(pairs_of(req.query_text()), "path"@)
}

/// The path that a request names in its query, decoded.
pub fn path_param(req: &RequestHead) -> (r: Option<String>)
    ensures
        match r {
            Some(path) => named_path(*req) == Some(path@),
            None => named_path(*req) is None,
        },
{
    let empty = String::new();
    let query = match &req.query {
        Some(query) => query.as_str(),
        None => empty.as_str(),
    };
    proof {
        assert(query@ =~= req.query_text());
    }
    let pairs = query_pairs(query);
    let ghost all = pair_texts(pairs@);
    let mut i: usize = 0;
    proof {
        assert(all.skip(0) =~= all);
    }
    while i < pairs.len()
        invariant
            i <= pairs@.len(),
            all == pair_texts(pairs@),
            all == pairs_of(req.query_text()),
            value_of(all.skip(i as int), "path"@) == value_of(all, "path"@),
        decreases pairs@.len() - i,
    {
        proof {
            assert(all.skip(i as int)[0] == (pairs@[i as int].0@, pairs@[i as int].1@));
            assert(all.skip(i as int).skip(1) =~= all.skip(i + 1));
        }
        if same(pairs[i].0.as_str(), "path") {
            return Some(pairs[i].1.clone());
        }
        i = i + 1;
    }
    None
}

/// The length that a request says its body has.
pub open spec fn stated_length(req: RequestHead) -> Option<u64> {
    match first_text(req.values("content-length"@)) {
        Some(t) => parsed_u64(trimmed(t)),
        None => None,
    }
}

/// The length that a request says its body has.
pub fn content_length(req: &RequestHead) -> (r: Option<u64>)
    ensures
        r == stated_length(*req),
{
    match req.first_header("content-length") {
        Some(t) => parse_u64(trim(t.as_str()).as_str()),
        None => None,
    }
}

/// A character that may stand in the tag of a temporary file.
pub open spec fn tag_char(c: char) -> bool {
    alphanumeric(c) || c == '_' || c == '-'
}

/// The tag characters of a text, up to the limit.
pub open spec fn tag_chars(s: Seq<char>) -> Seq<char>
    decreases s.len(),
{
    if s.len() == 0 {
        Seq::empty()
    } else {
        let rest = tag_chars(s.drop_last());
        if tag_char(s.last()) && rest.len() < TEMP_TAG_CHARS {
            rest.push(s.last())
        } else {
            rest
        }
    }
}

/// The tag of the temporary files of an upload: what is harmless of the token's id, or the
/// number of the process where that is nothing.
pub fn temp_tag(jti: &str, process_id: u32) -> (r: String)
    ensures
        r@ == if tag_chars(jti@).len() == 0 {
            decimal_digits(process_id as nat)
        } else {
            tag_chars(jti@)
        },
{
    let v = chars_of(jti);
    let mut tag = String::new();
    let mut count: usize = 0;
    let mut i: usize = 0;
    while i < v.len()
        invariant
            i <= v@.len(),
            tag@ == tag_chars(v@.take(i as int)),
            count == tag@.len(),
            count <= TEMP_TAG_CHARS,
        decreases v@.len() - i,
    {
        proof {
            assert(v@.take(i + 1).drop_last() =~= v@.take(i as int));
        }
        let c = v[i];
        if (is_alphanumeric(c) || c == '_' || c == '-') && count < TEMP_TAG_CHARS {
            tag.push(c);
            count = count + 1;
        }
        i = i + 1;
    }
    proof {
        assert(v@.take(i as int) =~= v@);
    }
    if count == 0 {
        decimal(process_id as u64)
    } else {
        tag
    }
}

/// The path of the temporary file of an upload.
pub fn temp_path(target: &str, tag: &str) -> (r: String)
    ensures
        r@ == target@ + TEMP_SUFFIX@ + tag@,
{
    concat3(target, TEMP_SUFFIX, tag)
}

/// What is left of a budget after a chunk, or nothing where the chunk does not fit.
pub open spec fn spend(left: nat, len: nat) -> Option<nat> {
    if len <= left {
        Some((left - len) as nat)
    } else {
        None
    }
}

/// How many bytes an upload may still have.
#[derive(Debug)]
pub struct UploadBudget {
    pub remaining: u64,
}

impl UploadBudget {
    /// Takes bytes from the budget; where they are too many nothing is left of it.
    pub fn consume(&mut self, len: usize) -> (r: Result<(), FilesError>)
        ensures
            match spend(old(self).remaining as nat, len as nat) {
                Some(left) => r is Ok && final(self).remaining == left,
                None => {
                    &&& r matches Err(e)
                    &&& e.view() == FilesErrorView::TooLarge
                    &&& final(self).remaining == 0
                },
            },
    {
        let len: u64 = len as u64;
        if len > self.remaining {
            self.remaining = 0;
            return Err(FilesError::TooLarge);
        }
        self.remaining = self.remaining - len;
        Ok(())
    }
}

/// Why reading the body of an upload stopped.
#[derive(Debug)]
pub enum BodyReadError {
    TooLarge,
    /// Reading failed.
    Body(String),
}

impl BodyReadError {
    /// A sentence for the log.
    pub fn message(&self) -> (r: String)
        ensures
            r@ == match *self {
                BodyReadError::TooLarge => "upload body over the limit"@,
                BodyReadError::Body(error) => "reading the upload body failed: "@ + error@,
            },
    {
        match self {
            BodyReadError::TooLarge => "upload body over the limit".to_owned(),
            BodyReadError::Body(error) => crate::text::concat2(
                "reading the upload body failed: ",
                error.as_str(),
            ),
        }
    }

    /// The failure of the request.
    pub fn into_files_error(self) -> (r: FilesError)
        ensures
            r == match self {
                BodyReadError::TooLarge => FilesError::TooLarge,
                BodyReadError::Body(message) => FilesError::Malformed(message),
            },
    {
        match self {
            BodyReadError::TooLarge => FilesError::TooLarge,
            BodyReadError::Body(message) => FilesError::Malformed(message),
        }
    }
}

/// A body that ends with an error at the first byte past its limit.
#[derive(Debug)]
pub struct BoundedBody {
    pub remaining: u64,
}

impl BoundedBody {
    /// Lets one chunk of the body pass, or one failure to read it.
    pub fn pass(&mut self, chunk: Result<usize, String>) -> (r: Result<usize, BodyReadError>)
        ensures
            match chunk {
                Err(error) => r == Err::<usize, _>(BodyReadError::Body(error)) && *final(self)
                    == *old(self),
                Ok(len) => match spend(old(self).remaining as nat, len as nat) {
                    Some(left) => r == Ok::<_, BodyReadError>(len) && final(self).remaining
                        == left,
                    None => r == Err::<usize, _>(BodyReadError::TooLarge)
                        && final(self).remaining == 0,
                },
            },
    {
        match chunk {
            Err(error) => Err(BodyReadError::Body(error)),
            Ok(len) => {
                if len as u64 > self.remaining {
                    self.remaining = 0;
                    Err(BodyReadError::TooLarge)
                } else {
                    self.remaining = self.remaining - len as u64;
                    Ok(len)
                }
            },
        }
    }
}

/// How reading a multipart body failed.
#[derive(Debug)]
pub enum MultipartFault {
    StreamSizeExceeded,
    FieldSizeExceeded,
    /// The body under the parser stopped with this error.
    StreamReadFailed(Option<BodyReadError>, String),
    Other(String),
}

/// The failure of the request: a size limit, of the parser or of the body, or a malformed
/// request.
pub fn multer_error(fault: MultipartFault) -> (r: FilesError)
    ensures
        r.view() == match fault {
            MultipartFault::StreamSizeExceeded
            | MultipartFault::FieldSizeExceeded
            | MultipartFault::StreamReadFailed(Some(BodyReadError::TooLarge), _) => {
                FilesErrorView::TooLarge
            },
            MultipartFault::StreamReadFailed(_, message) => FilesErrorView::Malformed(message@),
            MultipartFault::Other(message) => FilesErrorView::Malformed(message@),
        },
{
    match fault {
        MultipartFault::StreamSizeExceeded | MultipartFault::FieldSizeExceeded => {
            FilesError::TooLarge
        },
        MultipartFault::StreamReadFailed(Some(BodyReadError::TooLarge), _) => FilesError::TooLarge,
        MultipartFault::StreamReadFailed(_, message) => FilesError::Malformed(message),
        MultipartFault::Other(message) => FilesError::Malformed(message),
    }
}

/// A name that an uploaded file may have: it may be a path, and ends in the name of a file.
pub open spec fn file_name_ok(s: Seq<char>) -> bool {
    &&& !bad_path(s)
    &&& path_names(s).len() > 0
    &&& path_names(s).last() != ".."@
}

/// Checks the name of an uploaded file.
pub fn validate_upload_file_name(file_name: &str) -> (r: Result<(), FilesError>)
    ensures
        match r {
            Ok(()) => file_name_ok(file_name@),
            Err(e) => !file_name_ok(file_name@) && e.view() == FilesErrorView::InvalidPath,
        },
{
    if is_bad_path(file_name) {
        return Err(FilesError::InvalidPath);
    }
    let names = names_of(file_name);
    proof {
        assert(texts(names@).len() == names@.len());
        if names@.len() > 0 {
            assert(texts(names@).last() == names@[names@.len() - 1]@);
        }
    }
    if names.len() == 0 || same(names[names.len() - 1].as_str(), "..") {
        return Err(FilesError::InvalidPath);
    }
    Ok(())
}

/// What `multer::parse_boundary` makes of a content type: the boundary, or why there is
/// none.
pub uninterp spec fn multipart_boundary(content_type: Seq<char>) -> Result<Seq<char>, Seq<char>>;

/// Calls `multer::parse_boundary`. The boundary, or the text of the error, is a function of
/// the content type.
#[verifier::external_body]
fn parse_boundary(content_type: &str) -> (r: Result<String, String>)
    ensures
        match r {
            Ok(b) => multipart_boundary(content_type@) == Ok::<_, Seq<char>>(b@),
            Err(e) => multipart_boundary(content_type@) == Err::<Seq<char>, _>(e@),
        },
{
    multer::parse_boundary(content_type).map_err(|error| error.to_string())
}

/// How an upload comes.
#[derive(Debug)]
pub enum UploadKind {
    /// In parts, below a directory.
    Multipart { boundary: String },
    /// As one file.
    OctetStream,
}

/// An upload whose head was accepted.
#[derive(Debug)]
pub struct UploadPlan {
    pub kind: UploadKind,
    /// The path as the request names it.
    pub path: String,
    /// Where that path leads: the directory of the parts, or the file.
    pub place: RelPath,
}

/// The content type of a request, trimmed.
pub open spec fn content_type(req: RequestHead) -> Seq<char> {
    match first_text(req.values("content-type"@)) {
        Some(t) => trimmed(t),
        None => trimmed(Seq::empty()),
    }
}

/// The media type of a content type, without parameters.
pub open spec fn media_type(content_type: Seq<char>) -> Seq<char> {
    ascii_lower(trimmed(split(content_type, ';')[0]))
}

/// An accepted upload, on the level of specifications.
pub struct UploadPlanView {
    /// The boundary, for an upload in parts.
    pub boundary: Option<Seq<char>>,
    pub path: Seq<char>,
    pub place: Seq<Seq<char>>,
}

impl UploadPlan {
    pub open spec fn view(self) -> UploadPlanView {
        UploadPlanView {
            boundary: match self.kind {
                UploadKind::Multipart { boundary } => Some(boundary@),
                UploadKind::OctetStream => None,
            },
            path: self.path@,
            place: texts(self.place@),
        }
    }
}

/// What the head of an upload says, given what its boundary is: the path must be there, the
/// stated length within the limit, the media type one of two, and the path one that a request
/// may name.
pub open spec fn upload_plan(
    path: Option<Seq<char>>,
    length: Option<u64>,
    limit: u64,
    media: Seq<char>,
    boundary: Result<Seq<char>, Seq<char>>,
) -> Result<UploadPlanView, FilesErrorView> {
    if path is None {
        Err(FilesErrorView::InvalidPath)
    } else if length is Some && length->0 > limit {
        Err(FilesErrorView::TooLarge)
    } else if media == "multipart/form-data"@ {
        match boundary {
            Err(message) => Err(FilesErrorView::Malformed(message)),
            Ok(boundary) => match resolved(path->0) {
                Err(e) => Err(e),
                Ok(place) => Ok(
                    UploadPlanView { boundary: Some(boundary), path: path->0, place },
                ),
            },
        }
    } else if media == "application/octet-stream"@ {
        match resolved(path->0) {
            Err(e) => Err(e),
            Ok(place) => Ok(UploadPlanView { boundary: None, path: path->0, place }),
        }
    } else {
        Err(FilesErrorView::UnsupportedMedia)
    }
}

/// Decides on an upload from what its head says.
pub fn plan_upload(
    path: Option<String>,
    length: Option<u64>,
    limit: u64,
    media: &str,
    boundary: Result<String, String>,
) -> (r: Result<UploadPlan, FilesError>)
    ensures
        ({
            let b = match boundary {
                Ok(b) => Ok(b@),
                Err(e) => Err(e@),
            };
            let p = match path {
                Some(p) => Some(p@),
                None => None,
            };
            match r {
                Ok(plan) => upload_plan(p, length, limit, media@, b) == Ok::<_, FilesErrorView>(
                    plan.view(),
                ),
                Err(e) => upload_plan(p, length, limit, media@, b) == Err::<UploadPlanView, _>(
                    e.view(),
                ),
            }
        }),
{
    let path = match path {
        Some(path) => path,
        None => {
            return Err(FilesError::InvalidPath);
        },
    };
    if let Some(len) = length {
        if len > limit {
            return Err(FilesError::TooLarge);
        }
    }
    proof {
        reveal_strlit("multipart/form-data");
        reveal_strlit("application/octet-stream");
    }
    let kind = if same(media, "multipart/form-data") {
        match boundary {
            Ok(boundary) => UploadKind::Multipart { boundary },
            Err(message) => {
                return Err(FilesError::Malformed(message));
            },
        }
    } else if same(media, "application/octet-stream") {
        UploadKind::OctetStream
    } else {
        return Err(FilesError::UnsupportedMedia);
    };
    match resolve_decoded(path.as_str()) {
        Ok(place) => Ok(UploadPlan { kind, path, place }),
        Err(e) => Err(e),
    }
}

/// Reads the head of an upload.
pub fn begin_upload(req: &RequestHead, limit: u64) -> (r: Result<UploadPlan, FilesError>)
    ensures
        ({
            let plan = upload_plan(
                named_path(*req),
                stated_length(*req),
                limit,
                media_type(content_type(*req)),
                multipart_boundary(content_type(*req)),
            );
            match r {
                Ok(p) => plan == Ok::<_, FilesErrorView>(p.view()),
                Err(e) => plan == Err::<UploadPlanView, _>(e.view()),
            }
        }),
{
    let path = path_param(req);
    let length = content_length(req);
    let raw = match req.first_header("content-type") {
        Some(t) => t,
        None => String::new(),
    };
    let full = trim(raw.as_str());
    proof {
        assert(raw@ =~= match first_text(req.values("content-type"@)) {
            Some(t) => t,
            None => Seq::empty(),
        });
    }
    let pieces = split_on(full.as_str(), ';');
    proof {
        assert(split(full@, ';')[0] == pieces@[0]@);
    }
    let media = to_ascii_lower(trim(pieces[0].as_str()).as_str());
    let boundary = parse_boundary(full.as_str());
    plan_upload(path, length, limit, media.as_str(), boundary)
}

/// An upload under way.
#[derive(Debug)]
pub struct Upload {
    pub plan: UploadPlan,
    pub tag: String,
    pub budget: UploadBudget,
    /// How many files have begun.
    pub file_count: usize,
    /// The files that were written.
    pub written: Vec<RelPath>,
}

/// What is done with a part of an upload.
#[derive(Debug)]
pub enum PartStep {
    /// The part is no file.
    Skip,
    /// Write it here, if the file system agrees.
    Write(RelPath),
}

/// Where a part of an upload goes: its name is joined to the directory.
pub open spec fn part_place(path: Seq<char>, file_name: Seq<char>) -> Result<
    Seq<Seq<char>>,
    FilesErrorView,
> {
    if !file_name_ok(file_name) {
        Err(FilesErrorView::InvalidPath)
    } else {
        resolved(path + "/"@ + file_name)
    }
}

/// What becomes of a part of an upload, after so many files: how many there are then, and
/// where the part is written, if anywhere.
pub open spec fn part_outcome(count: nat, path: Seq<char>, file_name: Option<Seq<char>>) -> (
    nat,
    Result<Option<Seq<Seq<char>>>, FilesErrorView>,
) {
    match file_name {
        None => (count, Ok(None)),
        Some(name) => if count >= MAX_FILES_PER_UPLOAD {
            (count, Err(FilesErrorView::TooManyFiles))
        } else {
            (
                count + 1,
                match part_place(path, name) {
                    Ok(place) => Ok(Some(place)),
                    Err(e) => Err(e),
                },
            )
        },
    }
}

/// Whether a path is below a directory, and not the directory itself.
pub open spec fn target_fault(directory: Seq<Seq<char>>, target: Seq<Seq<char>>) -> Option<
    FilesErrorView,
> {
    if target == directory {
        Some(FilesErrorView::InvalidPath)
    } else if !directory.is_prefix_of(target) {
        Some(FilesErrorView::Traversal)
    } else {
        None
    }
}

/// Checks that a path is below a directory, and not the directory itself.
pub fn check_target(directory: &RelPath, target: &RelPath) -> (r: Result<(), FilesError>)
    ensures
        match r {
            Ok(()) => target_fault(texts(directory@), texts(target@)) is None,
            Err(e) => target_fault(texts(directory@), texts(target@)) == Some(e.view()),
        },
{
    let ghost d = texts(directory@);
    let ghost t = texts(target@);
    let mut below = directory.len() <= target.len();
    let mut i: usize = 0;
    while below && i < directory.len()
        invariant
            i <= directory@.len(),
            d == texts(directory@),
            t == texts(target@),
            below ==> directory@.len() <= target@.len() && forall|j: int|
                0 <= j < i ==> d[j] == t[j],
            !below ==> !d.is_prefix_of(t),
        decreases directory@.len() - i,
    {
        if !same(directory[i].as_str(), target[i].as_str()) {
            proof {
                assert(d[i as int] != t[i as int]);
                assert(t.subrange(0, d.len() as int)[i as int] == t[i as int]);
            }
            below = false;
        }
        i = i + 1;
    }
    proof {
        if below {
            assert(t.subrange(0, d.len() as int) =~= d);
            if t.len() == d.len() {
                assert(t =~= d);
            }
        } else if t == d {
            assert(t.subrange(0, d.len() as int) =~= d);
        }
    }
    if !below {
        return Err(FilesError::Traversal);
    }
    if directory.len() == target.len() {
        return Err(FilesError::InvalidPath);
    }
    Ok(())
}

/// A file cannot be written where a directory is.
pub fn check_not_a_directory(is_dir: bool) -> (r: Result<(), FilesError>)
    ensures
        is_dir ==> (r matches Err(e) && e.view() == FilesErrorView::InvalidPath),
        !is_dir ==> r is Ok,
{
    if is_dir {
        Err(FilesError::InvalidPath)
    } else {
        Ok(())
    }
}

impl Upload {
    /// An upload that may have this many bytes.
    pub fn new(plan: UploadPlan, tag: String, limit: u64) -> (r: Upload)
        ensures
            r.plan == plan,
            r.tag == tag,
            r.budget.remaining == limit,
            r.file_count == 0,
            r.written@.len() == 0,
    {
        Upload { plan, tag, budget: UploadBudget { remaining: limit }, file_count: 0, written: Vec::new() }
    }

    /// The next part of an upload; one without a file name is passed over, and after the
    /// largest number of files no further one is accepted.
    pub fn next_part(&mut self, file_name: Option<&str>) -> (r: Result<PartStep, FilesError>)
        requires
            old(self).file_count <= MAX_FILES_PER_UPLOAD,
        ensures
            final(self).plan == old(self).plan,
            final(self).tag == old(self).tag,
            final(self).budget == old(self).budget,
            final(self).written == old(self).written,
            ({
                let name = match file_name {
                    Some(name) => Some(name@),
                    None => None,
                };
                let (count, outcome) = part_outcome(
                    old(self).file_count as nat,
                    old(self).plan.path@,
                    name,
                );
                &&& final(self).file_count == count
                &&& match r {
                    Ok(PartStep::Skip) => outcome == Ok::<_, FilesErrorView>(
                        None::<Seq<Seq<char>>>,
                    ),
                    Ok(PartStep::Write(target)) => outcome == Ok::<_, FilesErrorView>(
                        Some(texts(target@)),
                    ),
                    Err(e) => outcome == Err::<Option<Seq<Seq<char>>>, _>(e.view()),
                }
            }),
    {
        let name = match file_name {
            Some(name) => name,
            None => {
                return Ok(PartStep::Skip);
            },
        };
        if self.file_count >= MAX_FILES_PER_UPLOAD {
            return Err(FilesError::TooManyFiles);
        }
        self.file_count = self.file_count + 1;
        match validate_upload_file_name(name) {
            Ok(()) => {},
            Err(e) => {
                return Err(e);
            },
        }
        let full = concat3(self.plan.path.as_str(), "/", name);
        match resolve_decoded(full.as_str()) {
            Ok(target) => Ok(PartStep::Write(target)),
            Err(e) => Err(e),
        }
    }

    /// Takes a chunk of a file from the budget.
    pub fn chunk(&mut self, len: usize) -> (r: Result<(), FilesError>)
        ensures
            final(self).plan == old(self).plan,
            final(self).tag == old(self).tag,
            final(self).file_count == old(self).file_count,
            final(self).written == old(self).written,
            match spend(old(self).budget.remaining as nat, len as nat) {
                Some(left) => r is Ok && final(self).budget.remaining == left,
                None => {
                    &&& r matches Err(e)
                    &&& e.view() == FilesErrorView::TooLarge
                    &&& final(self).budget.remaining == 0
                },
            },
    {
        self.budget.consume(len)
    }

    /// Notes a file that was written.
    pub fn file_written(&mut self, target: RelPath)
        ensures
            final(self).plan == old(self).plan,
            final(self).tag == old(self).tag,
            final(self).budget == old(self).budget,
            final(self).file_count == old(self).file_count,
            final(self).written@ == old(self).written@.push(target),
    {
        self.written.push(target);
    }

    /// What the upload is answered: the files that were written, in order.
    pub fn response(&self) -> (r: UploadResponse)
        ensures
            r.written@.len() == self.written@.len(),
            forall|i: int|
                0 <= i < r.written@.len() ==> (#[trigger] r.written@[i])@ == joined(
                    texts(self.written@[i]@),
                    "/"@,
                ),
    {
        let mut written: Vec<String> = Vec::new();
        let mut i: usize = 0;
        while i < self.written.len()
            invariant
                i <= self.written@.len(),
                written@.len() == i,
                forall|j: int|
                    0 <= j < i ==> (#[trigger] written@[j])@ == joined(
                        texts(self.written@[j]@),
                        "/"@,
                    ),
            decreases self.written@.len() - i,
        {
            written.push(relative_display(&self.written[i]));
            i = i + 1;
        }
        UploadResponse { written }
    }
}

/// A path relative to the workspace, as a text.
pub fn relative_display(path: &RelPath) -> (r: String)
    ensures
        r@ == joined(texts(path@), "/"@),
{
    join(path, "/")
}

/// What the file system says of a file.
#[derive(Debug)]
pub enum Metadata {
    File { len: u64 },
    Directory,
    /// Neither a file nor a directory.
    Special,
    NotFound,
    Failed(String),
}

/// How a file or a directory is sent.
#[derive(Debug)]
pub enum Download {
    /// A file, with its headers.
    File { len: u64, content_type: &'static str, disposition: Option<String> },
    /// A directory as an archive, under this name in it.
    Archive { name: String, disposition: String },
}

/// A character that would end a quoted file name, or a control character.
pub open spec fn unsafe_in_name(c: char) -> bool {
    c == '"' || c == '\\' || c == '\r' || c == '\n' || control(c)
}

/// A file name with such characters replaced.
pub open spec fn sanitized(name: Seq<char>) -> Seq<char> {
    name.map_values(
        |c: char|
            if unsafe_in_name(c) {
                '_'
            } else {
                c
            },
    )
}

/// A file name that can stand in a quoted string.
pub fn sanitize_filename(name: &str) -> (r: String)
    ensures
        r@ == sanitized(name@),
{
    let v = chars_of(name);
    let mut r = String::new();
    let mut i: usize = 0;
    while i < v.len()
        invariant
            i <= v@.len(),
            r@ == sanitized(v@.take(i as int)),
        decreases v@.len() - i,
    {
        let c = v[i];
        let ghost before = r@;
        if c == '"' || c == '\\' || c == '\r' || c == '\n' || is_control(c) {
            r.push('_');
        } else {
            r.push(c);
        }
        i = i + 1;
        proof {
            assert(r@ =~= sanitized(v@.take(i as int)));
        }
    }
    proof {
        assert(v@.take(i as int) =~= v@);
    }
    r
}

/// What is sent, on the level of specifications.
pub enum DownloadView {
    File { len: u64, content_type: Seq<char>, disposition: Option<Seq<char>> },
    Archive { name: Seq<char>, disposition: Seq<char> },
}

impl Download {
    pub open spec fn view(self) -> DownloadView {
        match self {
            Download::File { len, content_type, disposition } => DownloadView::File {
                len,
                content_type: content_type@,
                disposition: match disposition {
                    Some(d) => Some(d@),
                    None => None,
                },
            },
            Download::Archive { name, disposition } => DownloadView::Archive {
                name: name@,
                disposition: disposition@,
            },
        }
    }
}

/// What is sent for a path of this name, given what is there.
pub open spec fn downloaded(name: Seq<char>, metadata: Metadata) -> Result<
    DownloadView,
    FilesErrorView,
> {
    match metadata {
        Metadata::File { len } => Ok(
            DownloadView::File {
                len,
                content_type: "application/octet-stream"@,
                disposition: Some("attachment; filename=\""@ + sanitized(name) + "\""@),
            },
        ),
        Metadata::Directory => Ok(
            DownloadView::Archive {
                name,
                disposition: "attachment; filename=\""@ + sanitized(name) + ".tar\""@,
            },
        ),
        Metadata::Special | Metadata::NotFound => Err(FilesErrorView::NotFound),
        Metadata::Failed(m) => Err(FilesErrorView::Io(m@)),
    }
}

/// The name of the file or directory at a path: its last name, or that of the root, or a
/// fixed word where the root has none.
pub open spec fn download_name(target: Seq<Seq<char>>, root_name: Option<Seq<char>>) -> Seq<char> {
    if target.len() > 0 {
        target.last()
    } else {
        match root_name {
            Some(name) => name,
            None => "workspace"@,
        }
    }
}

/// Decides how the file or directory at a path is sent.
pub fn plan_download(target: &RelPath, root_name: Option<&str>, metadata: Metadata) -> (r: Result<
    Download,
    FilesError,
>)
    ensures
        ({
            let name = download_name(
                texts(target@),
                match root_name {
                    Some(n) => Some(n@),
                    None => None,
                },
            );
            match r {
                Ok(download) => downloaded(name, metadata) == Ok::<_, FilesErrorView>(
                    download.view(),
                ),
                Err(e) => downloaded(name, metadata) == Err::<DownloadView, _>(e.view()),
            }
        }),
{
    let name = if target.len() > 0 {
        target[target.len() - 1].clone()
    } else {
        match root_name {
            Some(name) => name.to_owned(),
            None => "workspace".to_owned(),
        }
    };
    proof {
        if target@.len() > 0 {
            assert(texts(target@).last() == target@[target@.len() - 1]@);
        }
    }
    match metadata {
        Metadata::File { len } => {
            let safe = sanitize_filename(name.as_str());
            Ok(
                Download::File {
                    len,
                    content_type: "application/octet-stream",
                    disposition: Some(concat3("attachment; filename=\"", safe.as_str(), "\"")),
                },
            )
        },
        Metadata::Directory => {
            let safe = sanitize_filename(name.as_str());
            let disposition = concat3("attachment; filename=\"", safe.as_str(), ".tar\"");
            Ok(Download::Archive { name, disposition })
        },
        Metadata::Special | Metadata::NotFound => Err(FilesError::NotFound),
        Metadata::Failed(message) => Err(FilesError::Io(message)),
    }
}

/// A path of an asset that a request may name.
pub open spec fn asset_path_ok(s: Seq<char>) -> bool {
    !bad_path(s) && !split(s, '/').contains(".."@)
}

/// Checks the path of an asset.
pub fn validate_asset_segment(segment: &str) -> (r: Result<(), FilesError>)
    ensures
        match r {
            Ok(()) => asset_path_ok(segment@),
            Err(e) => !asset_path_ok(segment@) && e.view() == FilesErrorView::InvalidPath,
        },
{
    if is_bad_path(segment) {
        return Err(FilesError::InvalidPath);
    }
    let parts = split_on(segment, '/');
    let mut i: usize = 0;
    while i < parts.len()
        invariant
            i <= parts@.len(),
            texts(parts@) == split(segment@, '/'),
            forall|j: int| 0 <= j < i ==> #[trigger] texts(parts@)[j] != ".."@,
        decreases parts@.len() - i,
    {
        if same(parts[i].as_str(), "..") {
            proof {
                assert(texts(parts@)[i as int] == ".."@);
            }
            return Err(FilesError::InvalidPath);
        }
        i = i + 1;
    }
    Ok(())
}

/// Checks the id of an extension and the path of its asset, before anyone is asked for it.
pub fn validate_extension_asset(id: &str, rel: &str) -> (r: Result<(), FilesError>)
    ensures
        match r {
            Ok(()) => extension_id_ok(id@) && asset_path_ok(rel@),
            Err(e) => !(extension_id_ok(id@) && asset_path_ok(rel@)) && e.view()
                == FilesErrorView::InvalidPath,
        },
{
    if !is_valid_extension_id(id) {
        return Err(FilesError::InvalidPath);
    }
    validate_asset_segment(rel)
}

/// The last name of a path, unless it is `..`.
pub open spec fn last_name(path: Seq<char>) -> Option<Seq<char>> {
    let names = path_names(path);
    if names.len() > 0 && names.last() != ".."@ {
        Some(names.last())
    } else {
        None
    }
}

/// The index of the last `c`, or -1.
pub open spec fn last_position(s: Seq<char>, c: char) -> int
    decreases s.len(),
{
    if s.len() == 0 {
        -1
    } else if s.last() == c {
        s.len() - 1
    } else {
        last_position(s.drop_last(), c)
    }
}

/// What stands behind the last dot of a name that does not begin with that dot.
pub open spec fn extension_of(name: Seq<char>) -> Option<Seq<char>> {
    let k = last_position(name, '.');
    if k > 0 {
        Some(name.skip(k + 1))
    } else {
        None
    }
}

/// The content type of an asset, by the extension of its file.
pub open spec fn content_type_of(extension: Option<Seq<char>>) -> Seq<char> {
    match extension {
        None => "application/octet-stream"@,
        Some(e) => {
            let e = ascii_lower(e);
            if e == "css"@ {
                "text/css; charset=utf-8"@
            } else if e == "json"@ {
                "application/json"@
            } else if e == "png"@ {
                "image/png"@
            } else if e == "svg"@ {
                "image/svg+xml"@
            } else if e == "ttf"@ {
                "font/ttf"@
            } else if e == "woff2"@ {
                "font/woff2"@
            } else if e == "wasm"@ {
                "application/wasm"@
            } else {
                "application/octet-stream"@
            }
        },
    }
}

fn extension(name: &str) -> (r: Option<String>)
    ensures
        match r {
            Some(e) => extension_of(name@) == Some(e@),
            None => extension_of(name@) is None,
        },
{
    let v = chars_of(name);
    let mut k: usize = v.len();
    proof {
        assert(v@.take(k as int) =~= v@);
    }
    while k > 0 && v[k - 1] != '.'
        invariant
            k <= v@.len(),
            last_position(v@.take(k as int), '.') == last_position(v@, '.'),
        decreases k,
    {
        proof {
            assert(v@.take(k as int).drop_last() =~= v@.take(k - 1));
        }
        k = k - 1;
    }
    if k > 1 {
        let e = crate::text::string_of(&v, k, v.len());
        proof {
            assert(v@.take(k as int).last() == '.');
            assert(e@ =~= name@.skip(k as int));
        }
        Some(e)
    } else {
        proof {
            if k == 1 {
                assert(v@.take(1).last() == '.');
            } else {
                assert(v@.take(0).len() == 0);
            }
        }
        None
    }
}

/// The content type of an asset, by the extension of its file.
pub fn content_type_for(path: &str) -> (r: &'static str)
    ensures
        r@ == content_type_of(
            match last_name(path@) {
                Some(name) => extension_of(name),
                None => None,
            },
        ),
{
    let names = names_of(path);
    proof {
        assert(texts(names@).len() == names@.len());
        if names@.len() > 0 {
            assert(texts(names@).last() == names@[names@.len() - 1]@);
        }
    }
    if names.len() == 0 || same(names[names.len() - 1].as_str(), "..") {
        return "application/octet-stream";
    }
    let e = match extension(names[names.len() - 1].as_str()) {
        Some(e) => to_ascii_lower(e.as_str()),
        None => {
            return "application/octet-stream";
        },
    };
    let e = e.as_str();
    if same(e, "css") {
        "text/css; charset=utf-8"
    } else if same(e, "json") {
        "application/json"
    } else if same(e, "png") {
        "image/png"
    } else if same(e, "svg") {
        "image/svg+xml"
    } else if same(e, "ttf") {
        "font/ttf"
    } else if same(e, "woff2") {
        "font/woff2"
    } else if same(e, "wasm") {
        "application/wasm"
    } else {
        "application/octet-stream"
    }
}

/// What is sent for an asset at a path, if it was found, given what is there.
pub open spec fn sent_asset(path: Option<Seq<char>>, metadata: Metadata) -> Result<
    DownloadView,
    FilesErrorView,
> {
    match path {
        None => Err(FilesErrorView::NotFound),
        Some(path) => match metadata {
            Metadata::File { len } => Ok(
                DownloadView::File {
                    len,
                    content_type: content_type_of(
                        match last_name(path) {
                            Some(name) => extension_of(name),
                            None => None,
                        },
                    ),
                    disposition: None,
                },
            ),
            Metadata::Failed(m) => Err(FilesErrorView::Io(m@)),
            _ => Err(FilesErrorView::NotFound),
        },
    }
}

/// Decides how the asset that was found at a path is sent; `None` where none was found.
pub fn plan_asset(path: Option<&str>, metadata: Metadata) -> (r: Result<Download, FilesError>)
    ensures
        ({
            let p = match path {
                Some(path) => Some(path@),
                None => None,
            };
            match r {
                Ok(download) => sent_asset(p, metadata) == Ok::<_, FilesErrorView>(download.view()),
                Err(e) => sent_asset(p, metadata) == Err::<DownloadView, _>(e.view()),
            }
        }),
{
    let path = match path {
        Some(path) => path,
        None => {
            return Err(FilesError::NotFound);
        },
    };
    match metadata {
        Metadata::File { len } => Ok(
            Download::File { len, content_type: content_type_for(path), disposition: None },
        ),
        Metadata::Directory | Metadata::Special | Metadata::NotFound => Err(FilesError::NotFound),
        Metadata::Failed(message) => Err(FilesError::Io(message)),
    }
}

/// What is left of a budget after a number of chunks, or nothing where one did not fit.
pub open spec fn budget_after(limit: nat, chunks: Seq<nat>) -> Option<nat>
    decreases chunks.len(),
{
    if chunks.len() == 0 {
        Some(limit)
    } else {
        match budget_after(limit, chunks.drop_last()) {
            Some(left) => spend(left, chunks.last()),
            None => None,
        }
    }
}

/// The sum of the sizes of chunks.
pub open spec fn total(chunks: Seq<nat>) -> nat
    decreases chunks.len(),
{
    if chunks.len() == 0 {
        0
    } else {
        total(chunks.drop_last()) + chunks.last()
    }
}

/// An upload is accepted exactly as long as its chunks, over all its files, are within the
/// limit together, however they are cut.
pub proof fn law_upload_stays_within_its_limit(limit: nat, chunks: Seq<nat>)
    ensures
        match budget_after(limit, chunks) {
            Some(left) => total(chunks) + left == limit,
            None => total(chunks) > limit,
        },
    decreases chunks.len(),
{
    if chunks.len() > 0 {
        law_upload_stays_within_its_limit(limit, chunks.drop_last());
    }
}

/// A part of an upload is written below the directory that the request names, and nowhere
/// else.
pub proof fn law_parts_stay_in_their_directory(directory: Seq<Seq<char>>, target: Seq<Seq<char>>)
    requires
        target_fault(directory, target) is None,
    ensures
        directory.is_prefix_of(target),
        target.len() > directory.len(),
{
    assert(target.subrange(0, directory.len() as int) == directory);
    if target.len() == directory.len() {
        assert(target =~= directory);
    }
}

/// A file name that was made safe neither ends the quoted string that it stands in nor
/// holds a control character, and a safe one is left as it is.
pub proof fn law_sanitized_names_are_safe(name: Seq<char>)
    ensures
        sanitized(name).len() == name.len(),
        forall|i: int| 0 <= i < name.len() ==> !unsafe_in_name(#[trigger] sanitized(name)[i]),
        (forall|i: int| 0 <= i < name.len() ==> !unsafe_in_name(#[trigger] name[i]))
            ==> sanitized(name) == name,
{
    if forall|i: int| 0 <= i < name.len() ==> !unsafe_in_name(#[trigger] name[i]) {
        assert(sanitized(name) =~= name);
    }
}

/// An id that an extension may have is the plain name of a file, and one that a request may
/// name: it cannot lead out of the directory of extensions.
pub proof fn law_extension_ids_are_plain_names(id: Seq<char>)
    requires
        extension_id_ok(id),
    ensures
        crate::serve::paths::plain_name(id),
        !bad_path(id),
{
    reveal_strlit(".");
    reveal_strlit("..");
    if id.contains('/') {
        let i = choose|i: int| 0 <= i < id.len() && id[i] == '/';
        assert(id_start(id[i]) || id[i] == '_' || id[i] == '-');
    }
    if id.contains('\0') {
        let i = choose|i: int| 0 <= i < id.len() && id[i] == '\0';
        assert(id_start(id[i]) || id[i] == '_' || id[i] == '-');
    }
    if id.contains('\\') {
        let i = choose|i: int| 0 <= i < id.len() && id[i] == '\\';
        assert(id_start(id[i]) || id[i] == '_' || id[i] == '-');
    }
    if id.len() >= 2 {
        assert(id_start(id[1]) || id[1] == '_' || id[1] == '-');
    }
}

/// Parts of an upload are written where they say, below the directory that the request names:
/// plain names behind plain names.
pub proof fn law_parts_are_written_where_they_say(
    directory: Seq<Seq<char>>,
    file: Seq<Seq<char>>,
    count: nat,
)
    requires
        directory.len() > 0,
        file.len() > 0,
        forall|i: int| 0 <= i < directory.len() ==> plain_name(#[trigger] directory[i]),
        forall|i: int| 0 <= i < file.len() ==> plain_name(#[trigger] file[i]),
        !bad_path(joined(directory, "/"@)),
        !bad_path(joined(file, "/"@)),
        count < 512,
    ensures
        part_outcome(count, joined(directory, "/"@), Some(joined(file, "/"@))) == (
            count + 1,
            Ok::<Option<Seq<Seq<char>>>, FilesErrorView>(Some(directory + file)),
        ),
        target_fault(directory, directory + file) is None,
{
    let all = directory + file;
    let a = joined(directory, "/"@);
    let b = joined(file, "/"@);
    assert forall|i: int| 0 <= i < all.len() implies plain_name(#[trigger] all[i]) by {
        if i < directory.len() {
            assert(all[i] == directory[i]);
        } else {
            assert(all[i] == file[i - directory.len()]);
        }
    }
    lemma_plain_path(file);
    lemma_joined_concat(directory, file, "/"@);
    assert(plain_name(file[file.len() - 1]));
    reveal_strlit("/");
    let whole = a + "/"@ + b;
    assert(whole[0] == a[0]);
    if whole.len() >= 2 && whole[1] == ':' {
        if a.len() >= 2 {
            assert(whole[1] == a[1]);
        } else {
            assert(whole[1] == "/"@[0]);
        }
    }
    law_plain_paths_are_found(all);
    assert(all.subrange(0, directory.len() as int) =~= directory);
    assert(directory.is_prefix_of(all));
    assert(all.len() != directory.len());
}

proof fn lemma_joined_concat(a: Seq<Seq<char>>, b: Seq<Seq<char>>, sep: Seq<char>)
    requires
        a.len() > 0,
        b.len() > 0,
    ensures
        joined(a + b, sep) == joined(a, sep) + sep + joined(b, sep),
    decreases b.len(),
{
    let all = a + b;
    if b.len() == 1 {
        assert(all.drop_last() =~= a);
        assert(all.last() == b[0]);
    } else {
        lemma_joined_concat(a, b.drop_last(), sep);
        assert(all.drop_last() =~= a + b.drop_last());
        assert(joined(all, sep) =~= joined(a, sep) + sep + joined(b, sep));
    }
}

/// A part without a file name is passed over, the 513th file is one too many, and a name that
/// is no place for a file is refused, whatever the directory.
pub proof fn law_parts_are_counted(count: nat, path: Seq<char>, name: Seq<char>)
    ensures
        part_outcome(count, path, None) == (
            count,
            Ok::<Option<Seq<Seq<char>>>, FilesErrorView>(None),
        ),
        count >= 512 ==> part_outcome(count, path, Some(name)) == (
            count,
            Err::<Option<Seq<Seq<char>>>, FilesErrorView>(FilesErrorView::TooManyFiles),
        ),
        count < 512 ==> part_outcome(count, path, Some(name)).0 == count + 1,
        count < 512 && bad_path(name) ==> part_outcome(count, path, Some(name)).1 == Err::<
            Option<Seq<Seq<char>>>,
            FilesErrorView,
        >(FilesErrorView::InvalidPath),
{
}

/// An upload is planned exactly where the request names a path that may be written, is not
/// too long by its own account, and comes in one of the two forms; the plan has the path and
/// the place that it leads to.
pub proof fn law_uploads_are_planned(
    path: Seq<char>,
    length: Option<u64>,
    limit: u64,
    media: Seq<char>,
    boundary: Result<Seq<char>, Seq<char>>,
)
    ensures
        ({
            let plan = upload_plan(Some(path), length, limit, media, boundary);
            let fits = length is None || length->0 <= limit;
            &&& !fits ==> plan == Err::<UploadPlanView, FilesErrorView>(FilesErrorView::TooLarge)
            &&& fits && media == "application/octet-stream"@ ==> match resolved(path) {
                Ok(place) => plan == Ok::<UploadPlanView, FilesErrorView>(
                    UploadPlanView { boundary: None, path, place },
                ),
                Err(e) => plan == Err::<UploadPlanView, FilesErrorView>(e),
            }
            &&& fits && media == "multipart/form-data"@ && boundary is Ok ==> match resolved(
                path,
            ) {
                Ok(place) => plan == Ok::<UploadPlanView, FilesErrorView>(
                    UploadPlanView { boundary: Some(boundary->Ok_0), path, place },
                ),
                Err(e) => plan == Err::<UploadPlanView, FilesErrorView>(e),
            }
            &&& fits && media == "multipart/form-data"@ && boundary is Err ==> plan == Err::<
                UploadPlanView,
                FilesErrorView,
            >(FilesErrorView::Malformed(boundary->Err_0))
            &&& fits && media != "application/octet-stream"@ && media != "multipart/form-data"@
                ==> plan == Err::<UploadPlanView, FilesErrorView>(FilesErrorView::UnsupportedMedia)
        }),
        upload_plan(None, length, limit, media, boundary) == Err::<UploadPlanView, FilesErrorView>(
            FilesErrorView::InvalidPath,
        ),
{
    reveal_strlit("application/octet-stream");
    reveal_strlit("multipart/form-data");
    assert("application/octet-stream"@.len() != "multipart/form-data"@.len());
}

/// A budget is spent by what is taken from it and by nothing else, and is never overdrawn.
pub proof fn law_budgets_are_not_overdrawn(left: nat, len: nat)
    ensures
        spend(left, len) is Some <==> len <= left,
        spend(left, len) is Some ==> spend(left, len)->0 + len == left,
{
}

/// The first pair with a name has the value that counts.
pub proof fn law_the_first_pair_counts(
    pairs: Seq<(Seq<char>, Seq<char>)>,
    key: Seq<char>,
    k: int,
)
    requires
        0 <= k <= pairs.len(),
        forall|i: int| 0 <= i < k ==> (#[trigger] pairs[i]).0 != key,
        k < pairs.len() ==> pairs[k].0 == key,
    ensures
        k < pairs.len() ==> value_of(pairs, key) == Some(pairs[k].1),
        k == pairs.len() ==> value_of(pairs, key) is None,
    decreases k,
{
    if k > 0 {
        assert(pairs[0].0 != key);
        let rest = pairs.skip(1);
        assert forall|i: int| 0 <= i < k - 1 implies (#[trigger] rest[i]).0 != key by {
            assert(pairs[i + 1].0 != key);
        }
        law_the_first_pair_counts(rest, key, k - 1);
    }
}

/// Ids of extensions are one to 64 small letters, digits, underscores and hyphens, the first a
/// letter or a digit; every such text is one.
pub proof fn law_extension_ids(s: Seq<char>)
    ensures
        extension_id_ok(s) <==> {
            &&& 1 <= s.len() <= 64
            &&& s[0] != '_' && s[0] != '-'
            &&& forall|i: int|
                0 <= i < s.len() ==> ('a' <= #[trigger] s[i] <= 'z') || ('0' <= s[i] <= '9')
                    || s[i] == '_' || s[i] == '-'
        },
{
    if 1 <= s.len() <= 64 && s[0] != '_' && s[0] != '-' && (forall|i: int|
        0 <= i < s.len() ==> ('a' <= #[trigger] s[i] <= 'z') || ('0' <= s[i] <= '9') || s[i] == '_'
            || s[i] == '-') {
        assert(id_start(s[0]));
        assert forall|i: int| 0 <= i < s.len() implies (id_start(#[trigger] s[i]) || s[i] == '_'
            || s[i] == '-') by {
            assert(('a' <= s[i] <= 'z') || ('0' <= s[i] <= '9') || s[i] == '_' || s[i] == '-');
        }
    }
    if extension_id_ok(s) {
        assert forall|i: int| 0 <= i < s.len() implies ('a' <= #[trigger] s[i] <= 'z') || ('0'
            <= s[i] <= '9') || s[i] == '_' || s[i] == '-' by {
            assert(id_start(s[i]) || s[i] == '_' || s[i] == '-');
        }
    }
}

/// A tag that is fit for a file name stays as it is, and any other loses only what is not fit
/// and what is over 64 characters.
pub proof fn law_tags_are_fit_for_names(s: Seq<char>)
    ensures
        tag_chars(s).len() <= 64,
        forall|i: int|
            0 <= i < tag_chars(s).len() ==> {
                let c = #[trigger] tag_chars(s)[i];
                ('a' <= c <= 'z') || ('A' <= c <= 'Z') || ('0' <= c <= '9') || c == '_' || c == '-'
            },
        s.len() <= 64 && (forall|i: int| 0 <= i < s.len() ==> tag_char(#[trigger] s[i]))
            ==> tag_chars(s) == s,
    decreases s.len(),
{
    if s.len() > 0 {
        let front = s.drop_last();
        law_tags_are_fit_for_names(front);
        if s.len() <= 64 && (forall|i: int| 0 <= i < s.len() ==> tag_char(#[trigger] s[i])) {
            assert forall|i: int| 0 <= i < front.len() implies tag_char(#[trigger] front[i]) by {
                assert(front[i] == s[i]);
            }
            assert(tag_char(s[s.len() - 1]));
            assert(tag_chars(s) =~= s);
        }
    } else {
        assert(tag_chars(s) =~= s);
    }
}

/// A file is sent whole, as an attachment under its name; a directory as an archive; what is
/// neither is not found.
pub proof fn law_downloads_are_attachments(name: Seq<char>, len: u64, message: String)
    ensures
        downloaded(name, Metadata::File { len }) matches Ok(
            DownloadView::File { len: l, content_type, disposition: Some(d) },
        ) && l == len && content_type == "application/octet-stream"@ && d
            == "attachment; filename=\""@ + sanitized(name) + "\""@,
        downloaded(name, Metadata::Directory) matches Ok(
            DownloadView::Archive { name: n, disposition: d },
        ) && n == name && d == "attachment; filename=\""@ + sanitized(name) + ".tar\""@,
        downloaded(name, Metadata::NotFound) == Err::<DownloadView, FilesErrorView>(
            FilesErrorView::NotFound,
        ),
        downloaded(name, Metadata::Special) == Err::<DownloadView, FilesErrorView>(
            FilesErrorView::NotFound,
        ),
        downloaded(name, Metadata::Failed(message)) == Err::<DownloadView, FilesErrorView>(
            FilesErrorView::Io(message@),
        ),
{
}

/// What is downloaded is named after itself; the root after its directory, where that has a
/// name.
pub proof fn law_downloads_have_their_names(
    names: Seq<Seq<char>>,
    last: Seq<char>,
    root: Seq<char>,
    any: Option<Seq<char>>,
)
    ensures
        download_name(names.push(last), any) == last,
        download_name(Seq::empty(), Some(root)) == root,
        download_name(Seq::empty(), None) == "workspace"@,
        sanitized(last).len() == last.len(),
        forall|i: int|
            0 <= i < last.len() && !control(#[trigger] last[i]) && last[i] != '"' && last[i] != '\\'
                ==> sanitized(last)[i] == last[i],
        forall|i: int|
            0 <= i < last.len() && (control(#[trigger] last[i]) || last[i] == '"' || last[i]
                == '\\') ==> sanitized(last)[i] == '_',
{
}

/// The extension of a name is what is behind its last dot, unless the name begins there.
pub proof fn law_extensions_are_behind_the_last_dot(stem: Seq<char>, extension: Seq<char>)
    requires
        !extension.contains('.'),
    ensures
        stem.len() > 0 ==> extension_of(stem.push('.') + extension) == Some(extension),
        extension_of(seq!['.'] + extension) is None,
        extension_of(extension) is None,
{
    lemma_last_position(stem, extension);
    lemma_last_position(Seq::empty(), extension);
    assert(Seq::<char>::empty().push('.') + extension =~= seq!['.'] + extension);
    lemma_no_position(extension);
    assert((stem.push('.') + extension).skip(stem.len() as int + 1) =~= extension);
}

proof fn lemma_last_position(stem: Seq<char>, extension: Seq<char>)
    requires
        !extension.contains('.'),
    ensures
        last_position(stem.push('.') + extension, '.') == stem.len(),
    decreases extension.len(),
{
    let s = stem.push('.') + extension;
    if extension.len() > 0 {
        let front = extension.drop_last();
        assert(extension.contains(extension.last()));
        assert forall|i: int| 0 <= i < front.len() implies front[i] != '.' by {
            assert(extension.contains(extension[i]));
        }
        lemma_last_position(stem, front);
        assert(s.drop_last() =~= stem.push('.') + front);
    } else {
        assert(s =~= stem.push('.'));
    }
}

proof fn lemma_no_position(s: Seq<char>)
    requires
        !s.contains('.'),
    ensures
        last_position(s, '.') == -1,
    decreases s.len(),
{
    if s.len() > 0 {
        assert(s.contains(s.last()));
        let front = s.drop_last();
        assert forall|i: int| 0 <= i < front.len() implies front[i] != '.' by {
            assert(s.contains(s[i]));
        }
        lemma_no_position(front);
    }
}

/// The assets that a browser has to know the kind of are sent as what they are, whatever the
/// case of their extension, and everything else as bytes.
pub proof fn law_assets_are_sent_as_what_they_are(extension: Seq<char>)
    ensures
        ({
            let e = ascii_lower(extension);
            let sent = content_type_of(Some(extension));
            &&& e == "css"@ ==> sent == "text/css; charset=utf-8"@
            &&& e == "json"@ ==> sent == "application/json"@
            &&& e == "png"@ ==> sent == "image/png"@
            &&& e == "svg"@ ==> sent == "image/svg+xml"@
            &&& e == "ttf"@ ==> sent == "font/ttf"@
            &&& e == "woff2"@ ==> sent == "font/woff2"@
            &&& e == "wasm"@ ==> sent == "application/wasm"@
            &&& !(e == "css"@ || e == "json"@ || e == "png"@ || e == "svg"@ || e == "ttf"@ || e
                == "woff2"@ || e == "wasm"@) ==> sent == "application/octet-stream"@
        }),
        content_type_of(None) == "application/octet-stream"@,
{
    reveal_strlit("css");
    reveal_strlit("json");
    reveal_strlit("png");
    reveal_strlit("svg");
    reveal_strlit("ttf");
    reveal_strlit("woff2");
    reveal_strlit("wasm");
    assert("css"@[0] == 'c');
    assert("json"@[0] == 'j');
    assert("png"@[0] == 'p');
    assert("svg"@[0] == 's');
    assert("ttf"@[0] == 't');
    assert("woff2"@[1] == 'o');
    assert("wasm"@[1] == 'a');
    assert("woff2"@[0] == 'w' && "wasm"@[0] == 'w');
}

/// An asset is sent where it was found and is a file, whole and not as an attachment.
pub proof fn law_assets_are_files(path: Seq<char>, len: u64, metadata: Metadata)
    ensures
        sent_asset(None, metadata) == Err::<DownloadView, FilesErrorView>(FilesErrorView::NotFound),
        sent_asset(Some(path), Metadata::Directory) == Err::<DownloadView, FilesErrorView>(
            FilesErrorView::NotFound,
        ),
        sent_asset(Some(path), Metadata::NotFound) == Err::<DownloadView, FilesErrorView>(
            FilesErrorView::NotFound,
        ),
        sent_asset(Some(path), Metadata::File { len }) matches Ok(
            DownloadView::File { len: l, disposition: None, .. },
        ) && l == len,
{
}

/// An asset of an extension is asked for by a path that goes down only.
pub proof fn law_asset_paths_go_down(names: Seq<Seq<char>>)
    requires
        names.len() > 0,
        forall|i: int| 0 <= i < names.len() ==> plain_name(#[trigger] names[i]),
        !bad_path(joined(names, "/"@)),
    ensures
        asset_path_ok(joined(names, "/"@)),
        file_name_ok(joined(names, "/"@)),
{
    lemma_plain_path(names);
    assert forall|i: int| 0 <= i < names.len() implies names[i] != ".."@ by {
        assert(plain_name(names[i]));
    }
    assert(plain_name(names[names.len() - 1]));
}

/// The kind of a body is what its content type says before any parameter, without regard to
/// case and to space around it.
pub proof fn law_media_types_have_no_parameters(media: Seq<char>, parameters: Seq<char>)
    requires
        !media.contains(';'),
    ensures
        media_type(media.push(';') + parameters) == ascii_lower(trimmed(media)),
        media_type(media) == ascii_lower(trimmed(media)),
{
    lemma_split_concat(media, parameters, ';');
    lemma_position(media, ';');
    assert(split(media, ';') =~= seq![media]);
}

/// A path that ends in two dots names no file that could be uploaded, and neither does one
/// without a name.
pub proof fn law_files_have_names(s: Seq<char>)
    ensures
        file_name_ok(s) ==> path_names(s).len() > 0 && path_names(s).last() != ".."@,
        file_name_ok(s) ==> s.len() > 0 && s[0] != '/' && !s.contains('\\') && !s.contains('\0'),
        !bad_path(s) && path_names(s).len() > 0 && path_names(s).last() != ".."@ ==> file_name_ok(
            s,
        ),
{
}

/// The content type of a request is its first one, without the space around it; a request
/// without one has an empty one.
pub proof fn law_the_first_content_type_counts(req: RequestHead)
    ensures
        ({
            let values = req.values("content-type"@);
            &&& values.len() > 0 && header_text_of(values[0]) is Some ==> content_type(req)
                == trimmed(header_text_of(values[0])->0)
            &&& values.len() == 0 ==> content_type(req).len() == 0
        }),
{
}

/// The path of a request is the value of the first pair with that name in its query, and its
/// length is what the first header of that name says, as a number.
pub proof fn law_requests_name_path_and_length(req: RequestHead)
    ensures
        named_path(req) == value_of(pairs_of(req.query_text()), "path"@),
        ({
            let values = req.values("content-length"@);
            &&& values.len() == 0 ==> stated_length(req) is None
            &&& values.len() > 0 && header_text_of(values[0]) is Some ==> stated_length(req)
                == parsed_u64(trimmed(header_text_of(values[0])->0))
            &&& values.len() > 0 && header_text_of(values[0]) is None ==> stated_length(req) is None
        }),
{
}

} // verus!
