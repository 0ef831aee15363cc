//! End-to-end scenarios over the verified core, the file and socket
//! bytes simulated in memory: decode the wire bytes, resolve the name
//! against a loaded mapping, and build the response around the bytes
//! the resolved path would yield.

use fileserver::request::{decode_request, Request};
use fileserver::response::make_response;
use fileserver::vfs::Vfs;

fn padded(req: &[u8], size: usize) -> Vec<u8> {
    let mut buf = vec![0u8; size];
    buf[..req.len()].copy_from_slice(req);
    buf
}

#[test]
fn report_is_served_with_its_exact_bytes() {
    let mapping = b"report$./docs/report.txt\n";
    let buf = padded(b"GET /report HTTP/1.1\r\nHost: x\r\n\r\n", 512);
    let name = match decode_request(&buf).unwrap() {
        Request::Get { name } => name,
        _ => panic!("expected a GET"),
    };
    let vfs = Vfs::new(mapping);
    let entry = vfs.resolve(&name);
    assert_eq!(entry.get_path().clone(), b"./docs/report.txt".to_vec());
    let file_bytes = b"quarterly numbers: all of them good".to_vec();
    let response = make_response(file_bytes.clone());
    let mut expected = b"HTTP/1.1 200 OK\r\nContent-Length: 35\r\n\r\n".to_vec();
    expected.extend_from_slice(&file_bytes);
    assert_eq!(response, expected);
}

#[test]
fn big_file_is_served_as_the_notice() {
    let mapping = b"big$./docs/huge.bin\n";
    let buf = padded(b"GET /big HTTP/1.1\r\n\r\n", 256);
    let name = match decode_request(&buf).unwrap() {
        Request::Get { name } => name,
        _ => panic!("expected a GET"),
    };
    let vfs = Vfs::new(mapping);
    let entry = vfs.resolve(&name);
    assert_eq!(entry.get_path().clone(), b"./docs/huge.bin".to_vec());
    let file_bytes = vec![0x2au8; 200 * 1024];
    let response = make_response(file_bytes);
    let mut expected = b"HTTP/1.1 200 OK\r\nContent-Length: 26\r\n\r\n".to_vec();
    expected.extend_from_slice(b"File is bigger than 128 KB");
    assert_eq!(response, expected);
}

#[test]
fn unknown_name_is_served_the_mapping_file_itself() {
    let mapping = b"one$1\n".to_vec();
    let buf = padded(b"GET /nowhere HTTP/1.1\r\n\r\n", 256);
    let name = match decode_request(&buf).unwrap() {
        Request::Get { name } => name,
        _ => panic!("expected a GET"),
    };
    let vfs = Vfs::new(&mapping);
    let entry = vfs.resolve(&name);
    assert_eq!(entry.get_path().clone(), b"./tmp.vfs".to_vec());
    let response = make_response(mapping.clone());
    let mut expected = b"HTTP/1.1 200 OK\r\nContent-Length: 6\r\n\r\n".to_vec();
    expected.extend_from_slice(&mapping);
    assert_eq!(response, expected);
}

#[test]
fn upload_decodes_to_target_file_and_exact_body() {
    let buf = padded(b"POST /upload.txt HTTP/1.1\r\nHost: x\r\n\r\nhello world", 8192);
    match decode_request(&buf).unwrap() {
        Request::Post { target, body } => {
            assert_eq!(target, b"upload.txt".to_vec());
            assert_eq!(body, b"hello world".to_vec());
        }
        _ => panic!("expected a POST"),
    }
}
