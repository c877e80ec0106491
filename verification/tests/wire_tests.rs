use chatroom::wire::received_text;

#[test]
fn only_filled_bytes_are_read() {
    let buf = b"{\"Join\":\"bob\"}garbage";
    assert_eq!(received_text(buf, 14), "{\"Join\":\"bob\"}");
    assert_eq!(received_text(buf, 0), "");
}

#[test]
fn multibyte_text_is_decoded() {
    let buf = "héllo\u{3000}".as_bytes();
    assert_eq!(received_text(buf, buf.len()), "héllo\u{3000}");
}

#[test]
fn invalid_bytes_are_replaced() {
    let buf = [b'a', 0xff, b'b'];
    assert_eq!(received_text(&buf, 3), "a\u{fffd}b");
    // a character cut in the middle by the length
    let cut = "é".as_bytes();
    assert_eq!(received_text(cut, 1), "\u{fffd}");
}
