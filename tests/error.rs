use temporal_bun_bridge::{set_error, take_error, ErrorSlot};

#[test]
fn set_then_take_returns_the_message_once() {
    let mut slot = ErrorSlot::new();
    set_error(&mut slot, "boom".to_string());
    let bytes = take_error(&mut slot).expect("message present");
    assert_eq!(bytes.len(), 4);
    assert_eq!(bytes, b"boom".to_vec());
    assert_eq!(take_error(&mut slot), None);
}

#[test]
fn take_without_message_finds_nothing() {
    let mut slot = ErrorSlot::new();
    assert_eq!(take_error(&mut slot), None);
}

#[test]
fn set_discards_an_unread_message() {
    let mut slot = ErrorSlot::new();
    set_error(&mut slot, "first".to_string());
    set_error(&mut slot, "second".to_string());
    assert_eq!(take_error(&mut slot), Some(b"second".to_vec()));
    assert_eq!(take_error(&mut slot), None);
}

#[test]
fn message_is_kept_as_utf8_bytes() {
    let mut slot = ErrorSlot::new();
    set_error(&mut slot, "\u{e9}!".to_string());
    assert_eq!(take_error(&mut slot), Some(vec![0xC3, 0xA9, b'!']));
    set_error(&mut slot, String::new());
    assert_eq!(take_error(&mut slot), Some(Vec::new()));
}
