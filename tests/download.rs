use batch_downloader::download::{download, filename_from_bytes, DownloadError};

#[test]
fn ok_answer_gives_decoded_name() {
    let header = b"0LrQvdC40LPQsC5mYjI=".to_vec();
    assert_eq!(download(200, Some(header)), Ok("книга.fb2".to_string()));
}

#[test]
fn other_status_is_an_error() {
    assert_eq!(download(404, Some(b"YS5mYjI=".to_vec())), Err(DownloadError::Status(404)));
    assert_eq!(download(204, None), Err(DownloadError::Status(204)));
}

#[test]
fn missing_or_bad_name_is_an_error() {
    assert_eq!(download(200, None), Err(DownloadError::MissingFilename));
    assert_eq!(download(200, Some(b"not base64!".to_vec())), Err(DownloadError::BadFilename));
    assert_eq!(download(200, Some(b"/w==".to_vec())), Err(DownloadError::BadFilename));
}

#[test]
fn name_bytes_must_be_utf8() {
    assert_eq!(filename_from_bytes(b"a.fb2".to_vec()), Ok("a.fb2".to_string()));
    assert_eq!(filename_from_bytes(vec![0xff, 0xfe]), Err(DownloadError::BadFilename));
}
