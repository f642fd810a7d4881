use bg_erase::multipart::{
    boundary_from_digits, build_body, content_type_header, escape_quotes, new_boundary, TOKEN_DIGITS,
};

const TOKEN: &str = "----0123456789abcdef0123456789abcdef";

fn count_occurrences(haystack: &[u8], needle: &[u8]) -> usize {
    haystack.windows(needle.len()).filter(|w| *w == needle).count()
}

fn position(haystack: &[u8], needle: &[u8]) -> Option<usize> {
    haystack.windows(needle.len()).position(|w| w == needle)
}

#[test]
fn escape_quotes_prefixes_each_quote() {
    assert_eq!(escape_quotes("a\"b\"c"), "a\\\"b\\\"c");
    assert_eq!(escape_quotes("\""), "\\\"");
}

#[test]
fn escape_quotes_keeps_other_text() {
    assert_eq!(escape_quotes("photo.jpg"), "photo.jpg");
    assert_eq!(escape_quotes(""), "");
    assert_eq!(escape_quotes("ümlaut \\ name"), "ümlaut \\ name");
}

#[test]
fn content_type_header_announces_boundary() {
    assert_eq!(content_type_header(TOKEN), format!("multipart/form-data; boundary={}", TOKEN));
}

#[test]
fn body_has_exact_framing() {
    let body = build_body("XYZ", "a\"b.png", "image/png", &[1, 2, 3]);
    let mut expected = Vec::new();
    expected.extend_from_slice(b"--XYZ\r\n");
    expected.extend_from_slice(b"Content-Disposition: form-data; name=\"image_file\"; filename=\"a\\\"b.png\"\r\n");
    expected.extend_from_slice(b"Content-Type: image/png\r\n");
    expected.extend_from_slice(b"\r\n");
    expected.extend_from_slice(&[1, 2, 3]);
    expected.extend_from_slice(b"\r\n--XYZ--\r\n");
    assert_eq!(body, expected);
}

#[test]
fn body_of_empty_file() {
    let body = build_body("B", "f", "application/octet-stream", &[]);
    let expected = b"--B\r\nContent-Disposition: form-data; name=\"image_file\"; filename=\"f\"\r\nContent-Type: application/octet-stream\r\n\r\n\r\n--B--\r\n";
    assert_eq!(body, expected.to_vec());
}

#[test]
fn body_holds_one_part_with_file_bytes() {
    let data: Vec<u8> = (0..=255u8).chain(b"\r\n--not-a-boundary\r\n".iter().copied()).collect();
    let body = build_body(TOKEN, "photo.jpg", "image/jpeg", &data);
    let delimiter = format!("--{}", TOKEN).into_bytes();
    assert_eq!(count_occurrences(&body, &delimiter), 2);
    assert_eq!(count_occurrences(&body, b"name=\"image_file\""), 1);
    assert_eq!(position(&body, &delimiter), Some(0));
    let closing = format!("\r\n--{}--\r\n", TOKEN).into_bytes();
    assert!(body.ends_with(&closing));
    let head_end = position(&body, b"\r\n\r\n").unwrap() + 4;
    assert_eq!(&body[head_end..body.len() - closing.len()], &data[..]);
}

#[test]
fn new_boundary_is_dashes_and_hex_digits() {
    let b = new_boundary();
    assert_eq!(b.len(), 4 + TOKEN_DIGITS);
    assert!(b.starts_with("----"));
    assert!(b[4..].chars().all(|c| c.is_ascii_digit() || ('a'..='f').contains(&c)));
}

#[test]
fn two_bodies_with_fresh_boundaries_parse_independently() {
    let first = new_boundary();
    let second = new_boundary();
    assert_ne!(first, second);
    let a = build_body(&first, "one.png", "image/png", b"first image");
    let b = build_body(&second, "two.png", "image/png", b"second image");
    let da = format!("--{}", first).into_bytes();
    let db = format!("--{}", second).into_bytes();
    assert_eq!(count_occurrences(&a, &da), 2);
    assert_eq!(count_occurrences(&b, &db), 2);
    assert_eq!(count_occurrences(&a, &db), 0);
    assert_eq!(count_occurrences(&b, &da), 0);
}

#[test]
fn boundary_from_digits_prefixes_four_dashes() {
    assert_eq!(boundary_from_digits("0123456789abcdef0123456789abcdef"), TOKEN);
    assert_eq!(
        boundary_from_digits("ffffffffffffffffffffffffffffffff"),
        "----ffffffffffffffffffffffffffffffff"
    );
}
