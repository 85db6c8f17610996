use clipat::client::{read_paste_response, ClientError};
use clipat::clipboard::{ClipboardError, ClipboardService};
use clipat::codec::{Connection, ProtocolError};
use clipat::content::{Content, Image};
use clipat::server::{server_step, StepResult};

/// Run one client request against a server-side connection and clipboard:
/// feed the request bytes, step until the server has consumed them, and
/// return whatever the server wrote back.
fn exchange(server: &mut Connection, clip: &mut ClipboardService, request: &[u8]) -> Vec<u8> {
    server.feed(request);
    loop {
        match server_step(server, clip, false) {
            Ok(StepResult::Handled) => {},
            Ok(StepResult::NeedInput) => break,
            other => panic!("server failed: {:?}", other),
        }
    }
    server.take_output()
}

fn copy_text_request(text: &str) -> Vec<u8> {
    let mut conn = Connection::new();
    conn.send_clipboard(&Some(Content::Text(String::from(text))));
    conn.take_output()
}

fn paste_request() -> Vec<u8> {
    let mut conn = Connection::new();
    conn.send_command("PASTE");
    conn.take_output()
}

fn paste_text(server: &mut Connection, clip: &mut ClipboardService) -> String {
    let response = exchange(server, clip, &paste_request());
    let mut conn = Connection::new();
    conn.feed(&response);
    match read_paste_response(&mut conn).unwrap() {
        Content::Text(t) => t,
        Content::Image(_) => panic!("expected text"),
    }
}

#[test]
fn test_copy_paste_text() {
    let mut clip = ClipboardService::new_memory();
    let mut server = Connection::new();

    let out = exchange(&mut server, &mut clip, &copy_text_request(
        "Hello, world!\nLorem ipsum dolor sit amet.",
    ));
    assert!(out.is_empty());
    assert_eq!(paste_text(&mut server, &mut clip), "Hello, world!\nLorem ipsum dolor sit amet.");

    let out = exchange(&mut server, &mut clip, &copy_text_request("Testing 1\n2\n3"));
    assert!(out.is_empty());
    assert_eq!(paste_text(&mut server, &mut clip), "Testing 1\n2\n3");
}

#[test]
fn copy_image_then_paste() {
    let mut clip = ClipboardService::new_memory();
    let mut server = Connection::new();

    let mut req = Connection::new();
    req.send_clipboard(&Some(Content::Image(Image {
        width: 2,
        height: 1,
        bytes: vec![9, 8, 7, 6, 5, 4, 3, 2],
    })));
    let out = exchange(&mut server, &mut clip, &req.take_output());
    assert!(out.is_empty());

    let response = exchange(&mut server, &mut clip, &paste_request());
    let mut conn = Connection::new();
    conn.feed(&response);
    match read_paste_response(&mut conn).unwrap() {
        Content::Image(img) => {
            assert_eq!(img.width, 2);
            assert_eq!(img.height, 1);
            assert_eq!(img.bytes, vec![9, 8, 7, 6, 5, 4, 3, 2]);
        },
        Content::Text(_) => panic!("expected an image"),
    }
}

#[test]
fn paste_on_fresh_server_returns_copy_none() {
    let mut clip = ClipboardService::new_memory();
    let mut server = Connection::new();
    let response = exchange(&mut server, &mut clip, &paste_request());
    assert_eq!(response, b"COPY NONE\n".to_vec());

    let mut conn = Connection::new();
    conn.feed(&response);
    match read_paste_response(&mut conn) {
        Err(ClientError::UnexpectedResponse(token)) => assert_eq!(token, "COPY NONE"),
        other => panic!("expected an unexpected-response failure, got {:?}", other.is_ok()),
    }
}

#[test]
fn copy_none_clears_the_clipboard() {
    let mut clip = ClipboardService::new_memory();
    let mut server = Connection::new();
    exchange(&mut server, &mut clip, &copy_text_request("soon gone"));
    exchange(&mut server, &mut clip, b"COPY NONE\n");
    let response = exchange(&mut server, &mut clip, &paste_request());
    assert_eq!(response, b"COPY NONE\n".to_vec());
}

#[test]
fn unknown_command_keeps_the_connection_open() {
    let mut clip = ClipboardService::new_memory();
    let mut server = Connection::new();
    exchange(&mut server, &mut clip, &copy_text_request("still here"));

    server.feed(b"FOO\n");
    assert!(matches!(server_step(&mut server, &mut clip, false), Ok(StepResult::Handled)));
    assert!(server.take_output().is_empty());

    assert_eq!(paste_text(&mut server, &mut clip), "still here");
}

#[test]
fn malformed_length_closes_the_connection() {
    let mut clip = ClipboardService::new_memory();
    let mut server = Connection::new();
    server.feed(b"COPY TEXT\nnot-a-number\nrest\n");
    assert!(matches!(
        server_step(&mut server, &mut clip, false),
        Err(ProtocolError::MalformedInteger)
    ));
}

#[test]
fn truncated_image_closes_with_eof() {
    let mut clip = ClipboardService::new_memory();
    let mut server = Connection::new();
    server.feed(b"COPY IMAGE\n3\n3\n0123456789");
    assert!(matches!(server_step(&mut server, &mut clip, false), Ok(StepResult::NeedInput)));
    assert!(matches!(
        server_step(&mut server, &mut clip, true),
        Err(ProtocolError::UnexpectedEof)
    ));
}

#[test]
fn partial_command_waits_then_completes() {
    let mut clip = ClipboardService::new_memory();
    let mut server = Connection::new();
    server.feed(b"PAS");
    assert!(matches!(server_step(&mut server, &mut clip, false), Ok(StepResult::NeedInput)));
    server.feed(b"TE\n");
    assert!(matches!(server_step(&mut server, &mut clip, false), Ok(StepResult::Handled)));
    assert_eq!(server.take_output(), b"COPY NONE\n".to_vec());
}

#[test]
fn clean_eof_between_commands_closes() {
    let mut clip = ClipboardService::new_memory();
    let mut server = Connection::new();
    exchange(&mut server, &mut clip, &copy_text_request("bye"));
    assert!(matches!(server_step(&mut server, &mut clip, true), Ok(StepResult::Closed)));
}

#[test]
fn two_copies_then_paste_sees_one_whole_value() {
    let first = "first value, long enough to notice interleaving";
    let second = "second value, also long enough to notice";
    for order in 0..2 {
        let mut clip = ClipboardService::new_memory();
        let mut server_a = Connection::new();
        let mut server_b = Connection::new();
        let (x, y) = if order == 0 { (first, second) } else { (second, first) };
        exchange(&mut server_a, &mut clip, &copy_text_request(x));
        exchange(&mut server_b, &mut clip, &copy_text_request(y));
        let mut server_c = Connection::new();
        let got = paste_text(&mut server_c, &mut clip);
        assert!(got == first || got == second);
        assert_eq!(got, y);
    }
}

#[test]
fn memory_clipboard_get_set_clear() {
    let mut clip = ClipboardService::new_memory();
    assert!(matches!(clip.get(), Ok(None)));
    clip.set(Content::Text(String::from("kept"))).unwrap();
    match clip.get() {
        Ok(Some(Content::Text(t))) => assert_eq!(t, "kept"),
        _ => panic!("expected the stored text"),
    }
    clip.clear().unwrap();
    assert!(matches!(clip.get(), Ok(None)));
}

#[test]
fn clipboard_error_messages() {
    assert_eq!(ClipboardError::OpenFailed.message(), "Failed to open clipboard");
    assert_eq!(ClipboardError::SetTextFailed.message(), "Failed to set text");
    assert_eq!(ClipboardError::SetImageFailed.message(), "Failed to set image");
    assert_eq!(ClipboardError::ClearFailed.message(), "Failed to clear clipboard");
}
