//! One upload: what the request says about the source file, how it is
//! assembled, and what becomes of the service's answer.
use vstd::prelude::*;
use vstd::utf8::*;
use crate::multipart::{build_body, content_type_header, content_type_value, framed, is_boundary_token, new_boundary};

verus! {

/// Address of the background-removal service.
pub const ENDPOINT: &'static str = "https://api.backgrounderase.net/v2";

/// Header that carries the API key.
pub const API_KEY_HEADER: &'static str = "x-api-key";

/// Status with which the service hands back the processed image.
pub const STATUS_OK: u16 = 200;

/// Why an upload did not take place.
#[derive(Debug, PartialEq, Eq)]
pub enum UploadError {
    /// The source path has no file name.
    InvalidPath,
    /// A local file could not be read or written.
    Io(String),
    /// The request could not be sent or its response not received.
    Network(String),
}

/// The message that reports an error of each kind.
pub open spec fn error_message(e: UploadError) -> Seq<char> {
    match e {
        UploadError::InvalidPath => "bad file name"@,
        UploadError::Io(m) => "I/O error: "@ + m@,
        UploadError::Network(m) => "network error: "@ + m@,
    }
}

impl UploadError {
    /// A human-readable description of the error.
    pub fn message(&self) -> (r: String)
        ensures
            r@ == error_message(*self),
    {
        match self {
            UploadError::InvalidPath => String::from_str("bad file name"),
            UploadError::Io(m) => {
                let mut r = String::from_str("I/O error: ");
                r.append(m.as_str());
                r
            },
            UploadError::Network(m) => {
                let mut r = String::from_str("network error: ");
                r.append(m.as_str());
                r
            },
        }
    }
}

/// The last component of a path, as std's `Path::file_name` finds it.
pub uninterp spec fn path_file_name(path: Seq<char>) -> Option<Seq<char>>;

/// The media type that mime_guess registers for a path's extension.
pub uninterp spec fn guessed_mime(path: Seq<char>) -> Seq<char>;

/// Relies on std's `Path::file_name`, which depends on the path's text alone
/// (under the path syntax of the target the crate is built for). The path is
/// valid UTF-8, so the lossy conversion of the name changes nothing.
#[verifier::external_body]
fn file_name_of(path: &str) -> (r: Option<String>)
    ensures
        r is None <==> path_file_name(path@) is None,
        r matches Some(name) ==> path_file_name(path@) == Some(name@),
{
    match std::path::Path::new(path).file_name() {
        Some(name) => Some(name.to_string_lossy().into_owned()),
        None => None,
    }
}

/// Relies on mime_guess's `from_path(..).first_or_octet_stream()`: the first
/// media type registered for the path's extension, `application/octet-stream`
/// when there is none; `essence_str` leaves out any parameters. A path without
/// a dot has no extension (std's `Path::extension`).
#[verifier::external_body]
fn mime_of(path: &str) -> (r: String)
    ensures
        r@ == guessed_mime(path@),
        !path@.contains('.') ==> r@ == "application/octet-stream"@,
{
    mime_guess::from_path(path).first_or_octet_stream().essence_str().to_string()
}

/// Relies on std's `String::from_utf8`, which accepts exactly the valid UTF-8
/// byte sequences and keeps their characters.
#[verifier::external_body]
fn utf8_string(bytes: Vec<u8>) -> (r: Option<String>)
    ensures
        r is Some <==> valid_utf8(bytes@),
        r matches Some(s) ==> s@ == decode_utf8(bytes@),
{
    String::from_utf8(bytes).ok()
}

/// What the request says about the file it carries.
#[derive(Debug, PartialEq, Eq)]
pub struct SourceFile {
    /// The file name sent in the part's `Content-Disposition`.
    pub file_name: String,
    /// The part's media type.
    pub content_type: String,
}

/// A path that names a directory by its trailing separator.
pub open spec fn ends_with_separator(path: Seq<char>) -> bool {
    path.len() > 0 && path.last() == '/'
}

/// Finds the file name and media type of the file at `path`. A path without a
/// file name, or one that ends with a separator, is refused before anything is
/// read or sent.
pub fn describe_source(path: &str) -> (r: Result<SourceFile, UploadError>)
    ensures
        (path_file_name(path@) is None || ends_with_separator(path@)) <==> r is Err,
        r is Err ==> r matches Err(UploadError::InvalidPath),
        r matches Ok(f) ==> path_file_name(path@) == Some(f.file_name@) && f.content_type@ == guessed_mime(path@),
{
    let n = path.unicode_len();
    if n > 0 && path.get_char(n - 1) == '/' {
        return Err(UploadError::InvalidPath);
    }
    match file_name_of(path) {
        None => Err(UploadError::InvalidPath),
        Some(file_name) => {
            let content_type = mime_of(path);
            Ok(SourceFile { file_name, content_type })
        },
    }
}

/// The parts of the POST that vary: its `Content-Type` header and its body.
#[derive(Debug, PartialEq, Eq)]
pub struct UploadRequest {
    /// Value of the `Content-Type` header, which announces the boundary.
    pub content_type: String,
    /// The multipart/form-data body.
    pub body: Vec<u8>,
}

/// Assembles the request that uploads `data` as `source`, framed with
/// `boundary`.
pub fn build_request(source: &SourceFile, data: &[u8], boundary: &str) -> (r: UploadRequest)
    ensures
        r.content_type@ == content_type_value(boundary@),
        r.body@ == framed(boundary@, source.file_name@, source.content_type@, data@),
{
    let content_type = content_type_header(boundary);
    let body = build_body(boundary, source.file_name.as_str(), source.content_type.as_str(), data);
    UploadRequest { content_type, body }
}

/// Assembles the request that uploads `data` as `source`, framed with a fresh
/// boundary token.
pub fn new_request(source: &SourceFile, data: &[u8]) -> (r: UploadRequest)
    ensures
        exists|b: Seq<char>|
            {
                &&& is_boundary_token(b)
                &&& r.content_type@ == content_type_value(b)
                &&& r.body@ == framed(b, source.file_name@, source.content_type@, data@)
            },
{
    let boundary = new_boundary();
    build_request(source, data, boundary.as_str())
}

/// What to do with the service's answer.
#[derive(Debug, PartialEq, Eq)]
pub enum Outcome {
    /// The service answered 200: these bytes become the destination file.
    Save(Vec<u8>),
    /// The service refused: its status and the text of its answer are
    /// reported, and no file is written.
    Rejected { status: u16, text: String },
}

/// The text of an answer: its bytes read as UTF-8, or nothing where they are
/// not valid UTF-8.
pub open spec fn answer_text(body: Seq<u8>) -> Seq<char> {
    if valid_utf8(body) {
        decode_utf8(body)
    } else {
        Seq::empty()
    }
}

/// Decides what becomes of the answer with `status` and `body`: on 200 the
/// body is saved as it is, on any other status it is reported.
pub fn handle_response(status: u16, body: Vec<u8>) -> (r: Outcome)
    ensures
        status == STATUS_OK ==> (r matches Outcome::Save(bytes) && bytes@ == body@),
        status != STATUS_OK ==> (r matches Outcome::Rejected { status: s, text } && s == status
            && text@ == answer_text(body@)),
{
    if status == STATUS_OK {
        Outcome::Save(body)
    } else {
        let text = match utf8_string(body) {
            Some(t) => t,
            None => String::new(),
        };
        Outcome::Rejected { status, text }
    }
}

} // verus!
