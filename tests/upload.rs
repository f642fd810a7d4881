use bg_erase::multipart::build_body;
use bg_erase::upload::{
    build_request, describe_source, handle_response, new_request, Outcome, SourceFile, UploadError, API_KEY_HEADER,
    ENDPOINT, STATUS_OK,
};

fn source(name: &str, content_type: &str) -> SourceFile {
    SourceFile { file_name: name.to_string(), content_type: content_type.to_string() }
}

#[test]
fn jpeg_extension_gives_image_jpeg() {
    let s = describe_source("photo.jpg").unwrap();
    assert_eq!(s.file_name, "photo.jpg");
    assert_eq!(s.content_type, "image/jpeg");
}

#[test]
fn png_in_directory_keeps_last_component() {
    let s = describe_source("images/input.png").unwrap();
    assert_eq!(s.file_name, "input.png");
    assert_eq!(s.content_type, "image/png");
}

#[test]
fn missing_extension_gives_octet_stream() {
    let s = describe_source("noextension").unwrap();
    assert_eq!(s.file_name, "noextension");
    assert_eq!(s.content_type, "application/octet-stream");
}

#[test]
fn unknown_extension_gives_octet_stream() {
    let s = describe_source("scan.zzqqxx").unwrap();
    assert_eq!(s.content_type, "application/octet-stream");
}

#[test]
fn path_without_file_name_is_invalid() {
    assert_eq!(describe_source("/"), Err(UploadError::InvalidPath));
    assert_eq!(describe_source("images/.."), Err(UploadError::InvalidPath));
    assert_eq!(describe_source(""), Err(UploadError::InvalidPath));
}

#[test]
fn path_ending_in_separator_is_invalid() {
    assert_eq!(describe_source("images/"), Err(UploadError::InvalidPath));
    assert_eq!(describe_source("photos/summer.jpg/"), Err(UploadError::InvalidPath));
}

#[test]
fn success_saves_body_unchanged() {
    let bytes = vec![0x89, b'P', b'N', b'G', 0, 255, 13, 10];
    assert_eq!(handle_response(200, bytes.clone()), Outcome::Save(bytes));
    assert_eq!(handle_response(STATUS_OK, Vec::new()), Outcome::Save(Vec::new()));
}

#[test]
fn forbidden_is_reported_with_status_and_text() {
    let r = handle_response(403, b"forbidden".to_vec());
    assert_eq!(r, Outcome::Rejected { status: 403, text: "forbidden".to_string() });
}

#[test]
fn non_utf8_error_body_gives_empty_text() {
    let r = handle_response(500, vec![0xff, 0xfe, 0x41]);
    assert_eq!(r, Outcome::Rejected { status: 500, text: String::new() });
}

#[test]
fn other_success_codes_are_reported() {
    let r = handle_response(204, Vec::new());
    assert_eq!(r, Outcome::Rejected { status: 204, text: String::new() });
}

#[test]
fn request_with_given_boundary() {
    let s = source("cat.png", "image/png");
    let r = build_request(&s, b"pixels", "----ffffffffffffffffffffffffffffffff");
    assert_eq!(r.content_type, "multipart/form-data; boundary=----ffffffffffffffffffffffffffffffff");
    assert_eq!(r.body, build_body("----ffffffffffffffffffffffffffffffff", "cat.png", "image/png", b"pixels"));
}

#[test]
fn fresh_request_uses_announced_boundary() {
    let s = source("cat.png", "image/png");
    let r = new_request(&s, b"pixels");
    let boundary = r.content_type.strip_prefix("multipart/form-data; boundary=").unwrap();
    assert_eq!(boundary.len(), 36);
    assert_eq!(r.body, build_body(boundary, "cat.png", "image/png", b"pixels"));
}

#[test]
fn error_messages() {
    assert_eq!(UploadError::InvalidPath.message(), "bad file name");
    assert_eq!(UploadError::Io("denied".to_string()).message(), "I/O error: denied");
    assert_eq!(UploadError::Network("timeout".to_string()).message(), "network error: timeout");
}

#[test]
fn service_address_and_key_header() {
    assert_eq!(ENDPOINT, "https://api.backgrounderase.net/v2");
    assert_eq!(API_KEY_HEADER, "x-api-key");
}
