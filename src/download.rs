use vstd::prelude::*;
use vstd::utf8::{decode_utf8, valid_utf8};

verus! {

/// The bytes that standard, padded base64 text decodes to, or `None` when
/// the text is not valid base64.
pub uninterp spec fn base64_decoded(text: Seq<u8>) -> Option<Seq<u8>>;

/// Relies on `base64::Engine::decode` with `general_purpose::STANDARD`: the
/// decoded bytes, a function of the input alone, or an error.
#[verifier::external_body]
fn decode_base64(text: &[u8]) -> (r: Option<Vec<u8>>)
    ensures
        match r {
            Some(v) => base64_decoded(text@) == Some(v@),
            None => base64_decoded(text@) is None,
        },
{
    base64::Engine::decode(&base64::engine::general_purpose::STANDARD, text).ok()
}

/// Relies on `String::from_utf8`: the text the bytes encode, or an error when
/// they are not valid UTF-8.
#[verifier::external_body]
fn utf8_string(bytes: Vec<u8>) -> (r: Option<String>)
    ensures
        r is Some <==> valid_utf8(bytes@),
        r matches Some(s) ==> s@ == decode_utf8(bytes@),
{
    String::from_utf8(bytes).ok()
}

/// Why a book's file could not be taken from the download service's answer.
#[derive(Clone, Copy, Debug, PartialEq, Eq, Structural)]
pub enum DownloadError {
    /// The service answered with a status other than 200.
    Status(u16),
    /// The answer carried no file name.
    MissingFilename,
    /// The file name was not base64 of UTF-8 text.
    BadFilename,
}

/// The file name that the decoded header bytes spell, if they are UTF-8.
pub open spec fn filename_of_bytes(bytes: Seq<u8>) -> Option<Seq<char>> {
    if valid_utf8(bytes) {
        Some(decode_utf8(bytes))
    } else {
        None
    }
}

/// The file name from the bytes that the name header decoded to.
pub fn filename_from_bytes(bytes: Vec<u8>) -> (r: Result<String, DownloadError>)
    ensures
        match filename_of_bytes(bytes@) {
            Some(n) => r matches Ok(s) && s@ == n,
            None => r == Err::<String, DownloadError>(DownloadError::BadFilename),
        },
{
    match utf8_string(bytes) {
        Some(s) => Ok(s),
        None => Err(DownloadError::BadFilename),
    }
}

/// Reads the download service's answer for one book: status 200 and a
/// base64 file name header give the entry's file name; anything else is an
/// error, and the book is skipped.
pub fn download(status: u16, filename_header: Option<Vec<u8>>) -> (r: Result<String, DownloadError>)
    ensures
        status != 200 ==> r == Err::<String, DownloadError>(DownloadError::Status(status)),
        status == 200 && filename_header is None ==> r == Err::<String, DownloadError>(
            DownloadError::MissingFilename,
        ),
        status == 200 && filename_header is Some ==> match base64_decoded(
            filename_header->0@,
        ) {
            None => r == Err::<String, DownloadError>(DownloadError::BadFilename),
            Some(bytes) => match filename_of_bytes(bytes) {
                Some(n) => r matches Ok(s) && s@ == n,
                None => r == Err::<String, DownloadError>(DownloadError::BadFilename),
            },
        },
{
    if status != 200 {
        return Err(DownloadError::Status(status));
    }
    match filename_header {
        None => Err(DownloadError::MissingFilename),
        Some(header) => match decode_base64(header.as_slice()) {
            None => Err(DownloadError::BadFilename),
            Some(bytes) => filename_from_bytes(bytes),
        },
    }
}

} // verus!
