use hyper::header::HeaderValue;
use rhythmix::error::RhythmixError;
use rhythmix::framing::{find_double_crlf, get_boundary, parse_multipart};

fn boundary_of(headers: &hyper::HeaderMap) -> Result<String, RhythmixError> {
    get_boundary(headers.get("content-type").map(|v| v.as_bytes()))
}

#[test]
fn test_boundary_extraction() {
    let mut headers = hyper::HeaderMap::new();
    headers.insert(
        "content-type",
        HeaderValue::from_static("multipart/form-data; boundary=test123"),
    );

    let boundary = boundary_of(&headers).unwrap();
    assert_eq!(boundary, "test123");
}

fn request_message(r: Result<String, RhythmixError>) -> String {
    match r {
        Err(RhythmixError::InvalidRequest(m)) => m,
        other => panic!("unexpected {:?}", other),
    }
}

#[test]
fn test_boundary_errors() {
    assert_eq!(request_message(get_boundary(None)), "Missing content-type header");
    assert_eq!(
        request_message(get_boundary(Some("multipart/form-data".as_bytes()))),
        "Missing boundary in content-type"
    );
    assert_eq!(
        request_message(get_boundary(Some(&[0x62, 0x6f, 0x75, 0x6e, 0xff]))),
        "Invalid content-type header"
    );
    // The boundary stops at a second key, as a split at the key does
    assert_eq!(get_boundary(Some("a; boundary=xy; boundary=z".as_bytes())).unwrap(), "xy; ");
    assert_eq!(get_boundary(Some("boundary=".as_bytes())).unwrap(), "");
}

#[test]
fn test_find_double_crlf() {
    assert_eq!(find_double_crlf(b"ab\r\n\r\ncd\r\n\r\n"), Some(2));
    assert_eq!(find_double_crlf(b"\r\n\r"), None);
    assert_eq!(find_double_crlf(b""), None);
}

fn form_body() -> Vec<u8> {
    let mut body = Vec::new();
    body.extend_from_slice(b"--XyZ\r\nContent-Disposition: form-data; name=\"complexity\"\r\n\r\n0.8\r\n");
    body.extend_from_slice(b"--XyZ\r\nContent-Disposition: form-data; name=\"file\"; filename=\"song.wav\"\r\nContent-Type: audio/wav\r\n\r\n");
    body.extend_from_slice(b"RIFF\x00\x01\r\n\r\nDATA");
    body.extend_from_slice(b"\r\n--XyZ--\r\n");
    body
}

#[test]
fn test_parse_multipart() {
    let form = parse_multipart(&form_body(), "XyZ");
    assert_eq!(form.file.as_deref(), Some(&b"RIFF\x00\x01\r\n\r\nDATA"[..]));
    assert_eq!(form.complexity_values, vec![b"0.8\r\n".to_vec()]);
    assert_eq!(form.into_file().unwrap(), b"RIFF\x00\x01\r\n\r\nDATA".to_vec());
}

#[test]
fn test_parse_multipart_without_file() {
    let body = b"--b\r\nContent-Disposition: form-data; name=\"complexity\"\r\n\r\n0.3\r\n--b--\r\n";
    let form = parse_multipart(body, "b");
    assert!(form.file.is_none());
    match form.into_file() {
        Err(RhythmixError::InvalidRequest(m)) => assert_eq!(m, "No file found in request"),
        other => panic!("unexpected {:?}", other),
    }
    // A wrong boundary finds no part at all
    let form = parse_multipart(&form_body(), "other");
    assert!(form.file.is_none());
    assert!(form.complexity_values.is_empty());
}

#[test]
fn test_parse_multipart_last_file_wins() {
    let body = b"--b\r\nname=\"file\"\r\n\r\nfirst\r\n--b\r\nname=\"file\"\r\n\r\nsecond--b--";
    let form = parse_multipart(body, "b");
    assert_eq!(form.file.unwrap(), b"second".to_vec());
}

#[test]
fn test_single_file_form_roundtrip() {
    let file: &[u8] = b"ID3\x00\r\n--not-a-boundary\r\n\r\nbytes";
    let mut body = Vec::new();
    body.extend_from_slice(b"--Q7b\r\nContent-Disposition: form-data; name=\"file\"; filename=\"a.mp3\"");
    body.extend_from_slice(b"\r\n\r\n");
    body.extend_from_slice(file);
    body.extend_from_slice(b"\r\n--Q7b--\r\n");
    let form = parse_multipart(&body, "Q7b");
    assert!(form.complexity_values.is_empty());
    assert_eq!(form.into_file().unwrap(), file.to_vec());
}

#[test]
fn test_boundary_roundtrip() {
    let boundary = "----WebKitFormBoundary7MA4YWxkTrZu0gW";
    let header = format!("multipart/form-data; charset=utf-8; boundary={}", boundary);
    assert_eq!(get_boundary(Some(header.as_bytes())).unwrap(), boundary);
}
