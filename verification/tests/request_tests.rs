use fileserver::request::{bytes2string, decode_request, slice_end, DecodeError, Request};

/// A receive buffer: the request bytes followed by zero padding, as
/// one read of the connection leaves it.
fn padded(req: &[u8], size: usize) -> Vec<u8> {
    assert!(req.len() <= size);
    let mut buf = vec![0u8; size];
    buf[..req.len()].copy_from_slice(req);
    buf
}

#[test]
fn get_request_decodes_to_logical_name() {
    let buf = padded(b"GET /report HTTP/1.1\r\nHost: x\r\n\r\n", 512);
    match decode_request(&buf).unwrap() {
        Request::Get { name } => assert_eq!(name, b"report".to_vec()),
        _ => panic!("expected a GET"),
    }
}

#[test]
fn root_request_decodes_to_empty_name() {
    let buf = padded(b"GET / HTTP/1.1\r\n\r\n", 128);
    match decode_request(&buf).unwrap() {
        Request::Get { name } => assert_eq!(name, Vec::<u8>::new()),
        _ => panic!("expected a GET"),
    }
}

#[test]
fn unknown_method_is_treated_as_get() {
    let buf = padded(b"PUT /thing HTTP/1.1\r\n\r\n", 128);
    match decode_request(&buf).unwrap() {
        Request::Get { name } => assert_eq!(name, b"thing".to_vec()),
        _ => panic!("expected GET treatment"),
    }
}

#[test]
fn post_round_trip_preserves_target_and_body() {
    let buf = padded(
        b"POST /upload.txt HTTP/1.1\r\nHost: x\r\n\r\nhello world",
        512,
    );
    match decode_request(&buf).unwrap() {
        Request::Post { target, body } => {
            assert_eq!(target, b"upload.txt".to_vec());
            assert_eq!(body, b"hello world".to_vec());
        }
        _ => panic!("expected a POST"),
    }
}

#[test]
fn invalid_utf8_is_an_encoding_error() {
    let mut buf = padded(b"GET /x HTTP/1.1\r\n\r\n", 64);
    buf[4] = 0xff;
    assert_eq!(
        decode_request(&buf).unwrap_err(),
        DecodeError::InvalidEncoding
    );
}

#[test]
fn missing_target_token_is_malformed() {
    assert_eq!(
        decode_request(b"GET   ").unwrap_err(),
        DecodeError::MalformedRequest
    );
}

#[test]
fn empty_buffer_is_malformed() {
    assert_eq!(
        decode_request(b"").unwrap_err(),
        DecodeError::MalformedRequest
    );
    assert_eq!(
        decode_request(b"   \r\n ").unwrap_err(),
        DecodeError::MalformedRequest
    );
}

#[test]
fn post_without_blank_line_is_malformed() {
    let buf = padded(b"POST /x HTTP/1.1\r\nHost: x\r\n", 256);
    assert_eq!(
        decode_request(&buf).unwrap_err(),
        DecodeError::MalformedRequest
    );
}

#[test]
fn post_without_padding_null_is_malformed() {
    let buf = b"POST /x HTTP/1.1\r\n\r\nbody".to_vec();
    assert_eq!(
        decode_request(&buf).unwrap_err(),
        DecodeError::MalformedRequest
    );
}

#[test]
fn post_with_null_before_body_is_malformed() {
    let buf = padded(b"POST /x\x00y HTTP/1.1\r\n\r\nbody", 128);
    assert_eq!(
        decode_request(&buf).unwrap_err(),
        DecodeError::MalformedRequest
    );
}

#[test]
fn bytes2string_decodes_valid_utf8() {
    assert_eq!(bytes2string(b"hi there").unwrap(), String::from("hi there"));
    assert_eq!(
        bytes2string("na\u{ef}ve".as_bytes()).unwrap(),
        String::from("na\u{ef}ve")
    );
}

#[test]
fn bytes2string_rejects_invalid_utf8() {
    assert!(bytes2string(b"\xff\xfe").is_none());
    assert!(bytes2string(b"ab\xc3").is_none());
}

#[test]
fn slice_end_cuts_at_first_null() {
    assert_eq!(slice_end(b"abc\x00def", 1).unwrap(), b"bc".to_vec());
    assert_eq!(slice_end(b"abc\x00def", 0).unwrap(), b"abc".to_vec());
}

#[test]
fn slice_end_without_usable_null_is_none() {
    assert!(slice_end(b"abcdef", 0).is_none());
    assert!(slice_end(b"a\x00bcd", 3).is_none());
}
