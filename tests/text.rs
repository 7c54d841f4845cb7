use rust_chat::frame;
use rust_chat::text::{decimal_string, room_full_message};

#[test]
fn frame_appends_newline() {
    assert_eq!(frame(b"{\"Connected\":null}"), Some(b"{\"Connected\":null}\n".to_vec()));
    assert_eq!(frame(b""), Some(b"\n".to_vec()));
}

#[test]
fn frame_refuses_embedded_newline() {
    assert_eq!(frame(b"a\nb"), None);
    assert_eq!(frame(b"\n"), None);
}

#[test]
fn decimal_string_writes_numbers() {
    assert_eq!(decimal_string(0), "0");
    assert_eq!(decimal_string(7), "7");
    assert_eq!(decimal_string(10), "10");
    assert_eq!(decimal_string(1234), "1234");
    assert_eq!(decimal_string(usize::MAX), usize::MAX.to_string());
}

#[test]
fn room_full_message_text() {
    assert_eq!(room_full_message(2, 2), "Room is full (2/2 users)");
    assert_eq!(room_full_message(10, 10), "Room is full (10/10 users)");
}
