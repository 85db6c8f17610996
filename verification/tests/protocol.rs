use clipat::codec::{Connection, ProtocolError};
use clipat::content::{Content, Image};

fn loopback(sender: &mut Connection) -> Connection {
    let bytes = sender.take_output();
    let mut receiver = Connection::new();
    receiver.feed(&bytes);
    receiver
}

#[test]
fn string_round_trip_plain() {
    let mut tx = Connection::new();
    tx.send_string("hello");
    let mut rx = loopback(&mut tx);
    assert_eq!(rx.read_string().unwrap(), "hello");
}

#[test]
fn string_round_trip_empty() {
    let mut tx = Connection::new();
    tx.send_string("");
    let mut rx = loopback(&mut tx);
    assert_eq!(rx.read_string().unwrap(), "");
}

#[test]
fn string_round_trip_embedded_newlines() {
    let s = "line one\nline two\n\nline four";
    let mut tx = Connection::new();
    tx.send_string(s);
    let mut rx = loopback(&mut tx);
    assert_eq!(rx.read_string().unwrap(), s);
}

#[test]
fn string_round_trip_multibyte() {
    let s = "héllo wörld — 日本語 💾";
    let mut tx = Connection::new();
    tx.send_string(s);
    let mut rx = loopback(&mut tx);
    assert_eq!(rx.read_string().unwrap(), s);
}

#[test]
fn string_frame_bytes_exact() {
    let mut tx = Connection::new();
    tx.send_string("hi");
    assert_eq!(tx.take_output(), b"2\nhi\n".to_vec());
}

#[test]
fn image_round_trip() {
    let mut tx = Connection::new();
    let img = Image { width: 2, height: 1, bytes: vec![1, 2, 3, 4, 5, 6, 7, 8] };
    tx.send_clipboard(&Some(Content::Image(img)));
    let mut rx = loopback(&mut tx);
    assert_eq!(rx.read_command().unwrap(), "COPY IMAGE");
    let back = rx.read_image().unwrap();
    assert_eq!(back.width, 2);
    assert_eq!(back.height, 1);
    assert_eq!(back.bytes, vec![1, 2, 3, 4, 5, 6, 7, 8]);
}

#[test]
fn image_round_trip_zero_sized() {
    let mut rx = Connection::new();
    rx.feed(b"0\n5\n\n");
    let back = rx.read_image().unwrap();
    assert_eq!(back.width, 0);
    assert_eq!(back.height, 5);
    assert!(back.bytes.is_empty());
}

#[test]
fn copy_none_is_a_bare_line() {
    let mut tx = Connection::new();
    tx.send_clipboard(&None);
    let bytes = tx.take_output();
    assert_eq!(bytes, b"COPY NONE\n".to_vec());
    let mut rx = Connection::new();
    rx.feed(&bytes);
    assert_eq!(rx.read_command().unwrap(), "COPY NONE");
    assert!(matches!(rx.read_byte(), Err(ProtocolError::UnexpectedEof)));
}

#[test]
fn malformed_length_fails_read_string() {
    let mut rx = Connection::new();
    rx.feed(b"abc\nwhatever\n");
    assert!(matches!(rx.read_string(), Err(ProtocolError::MalformedInteger)));
}

#[test]
fn malformed_width_fails_read_image() {
    let mut rx = Connection::new();
    rx.feed(b"2x\n1\n");
    assert!(matches!(rx.read_image(), Err(ProtocolError::MalformedInteger)));
}

#[test]
fn empty_length_line_is_malformed() {
    let mut rx = Connection::new();
    rx.feed(b"\nx\n");
    assert!(matches!(rx.read_string(), Err(ProtocolError::MalformedInteger)));
}

#[test]
fn oversized_length_is_malformed() {
    let mut rx = Connection::new();
    rx.feed(b"99999999999999999999999999999999\nx\n");
    assert!(matches!(rx.read_string(), Err(ProtocolError::MalformedInteger)));
}

#[test]
fn image_dimension_overflow_is_malformed() {
    let mut rx = Connection::new();
    rx.feed(b"99999999999\n99999999999\n\n");
    assert!(matches!(rx.read_image(), Err(ProtocolError::MalformedInteger)));
}

#[test]
fn read_int_accepts_leading_zeros() {
    let mut rx = Connection::new();
    rx.feed(b"007\n");
    assert_eq!(rx.read_int().unwrap(), 7);
}

#[test]
fn send_int_writes_decimal_line() {
    let mut tx = Connection::new();
    tx.send_int(90217);
    assert_eq!(tx.take_output(), b"90217\n".to_vec());
}

#[test]
fn missing_terminator_after_payload() {
    let mut rx = Connection::new();
    rx.feed(b"2\nhiX");
    assert!(matches!(rx.read_string(), Err(ProtocolError::MissingTerminator)));
}

#[test]
fn invalid_utf8_payload() {
    let mut rx = Connection::new();
    rx.feed(b"2\n\xff\xfe\n");
    assert!(matches!(rx.read_string(), Err(ProtocolError::InvalidEncoding)));
}

#[test]
fn truncated_payload_is_eof() {
    let mut rx = Connection::new();
    rx.feed(b"10\nshort\n");
    assert!(matches!(rx.read_string(), Err(ProtocolError::UnexpectedEof)));
}

#[test]
fn read_byte_and_newline() {
    let mut rx = Connection::new();
    rx.feed(b"a\n");
    assert_eq!(rx.read_byte().unwrap(), b'a');
    assert!(rx.read_newline().is_ok());
    assert!(matches!(rx.read_byte(), Err(ProtocolError::UnexpectedEof)));
}

#[test]
fn read_newline_rejects_other_bytes() {
    let mut rx = Connection::new();
    rx.feed(b"z");
    assert!(matches!(rx.read_newline(), Err(ProtocolError::MissingTerminator)));
}

#[test]
fn failed_read_consumes_nothing() {
    let mut rx = Connection::new();
    rx.feed(b"12");
    assert!(matches!(rx.read_line(), Err(ProtocolError::UnexpectedEof)));
    rx.feed(b"3\n");
    assert_eq!(rx.read_int().unwrap(), 123);
}

#[test]
fn send_error_frame() {
    let mut tx = Connection::new();
    tx.send_error("boom");
    let bytes = tx.take_output();
    assert_eq!(bytes, b"ERROR\n4\nboom\n".to_vec());
}
