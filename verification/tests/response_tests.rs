use fileserver::response::{decimal_digits, make_contents, make_response, oversize_notice_bytes};
use fileserver::MAX_SIZE;

const NOTICE: &[u8] = b"File is bigger than 128 KB";

#[test]
fn small_content_served_verbatim_with_exact_length() {
    let response = make_response(b"hello world".to_vec());
    assert_eq!(
        response,
        b"HTTP/1.1 200 OK\r\nContent-Length: 11\r\n\r\nhello world".to_vec()
    );
}

#[test]
fn empty_content_has_length_zero() {
    let response = make_response(Vec::new());
    assert_eq!(
        response,
        b"HTTP/1.1 200 OK\r\nContent-Length: 0\r\n\r\n".to_vec()
    );
}

#[test]
fn content_at_the_cap_is_still_verbatim() {
    let content = vec![0x61u8; MAX_SIZE];
    let response = make_response(content.clone());
    let mut expected = b"HTTP/1.1 200 OK\r\nContent-Length: 131072\r\n\r\n".to_vec();
    expected.extend_from_slice(&content);
    assert_eq!(response, expected);
}

#[test]
fn oversize_content_is_replaced_by_the_notice() {
    let content = vec![0x62u8; MAX_SIZE + 1];
    let response = make_response(content);
    let mut expected = b"HTTP/1.1 200 OK\r\nContent-Length: 26\r\n\r\n".to_vec();
    expected.extend_from_slice(NOTICE);
    assert_eq!(response, expected);
}

#[test]
fn make_contents_caps_and_passes_through() {
    assert_eq!(make_contents(b"tiny".to_vec()), b"tiny".to_vec());
    let big = vec![0u8; MAX_SIZE + 5];
    assert_eq!(make_contents(big), NOTICE.to_vec());
    assert_eq!(oversize_notice_bytes(), NOTICE.to_vec());
    assert_eq!(NOTICE.len(), 26);
}

#[test]
fn decimal_digits_render_exactly() {
    assert_eq!(decimal_digits(0), b"0".to_vec());
    assert_eq!(decimal_digits(7), b"7".to_vec());
    assert_eq!(decimal_digits(10), b"10".to_vec());
    assert_eq!(decimal_digits(204800), b"204800".to_vec());
    assert_eq!(decimal_digits(131072), b"131072".to_vec());
    assert_eq!(
        decimal_digits(usize::MAX),
        format!("{}", usize::MAX).into_bytes()
    );
}
