use chatroom::message::{parse_chat_message, parse_lowercased_line, ChatMessage, SERVER_PORT, CLIENT_PORT};

fn user() -> String {
    "alice".to_string()
}

fn text(message: &str) -> Option<ChatMessage> {
    Some(ChatMessage::Text { author: user(), message: message.to_string() })
}

fn whisper(recipient: &str, message: &str) -> Option<ChatMessage> {
    Some(ChatMessage::Whisper { author: user(), message: message.to_string(), recipient: recipient.to_string() })
}

#[test]
fn ports_are_fixed() {
    assert_eq!(SERVER_PORT, 5555);
    assert_eq!(CLIENT_PORT, 4444);
}

#[test]
fn quit_asks_to_leave() {
    assert_eq!(parse_chat_message("quit".to_string(), &user()), Some(ChatMessage::Leave(user())));
    assert_eq!(parse_chat_message("Quitting time".to_string(), &user()), Some(ChatMessage::Leave(user())));
}

#[test]
fn quit_in_capitals_asks_to_leave() {
    assert_eq!(parse_chat_message("QUIT".to_string(), &user()), Some(ChatMessage::Leave(user())));
}

#[test]
fn quit_after_space_is_a_message() {
    assert_eq!(parse_chat_message(" quit".to_string(), &user()), text("quit"));
}

#[test]
fn dotted_capital_i_does_not_lowercase_to_plain_i() {
    // 'İ' lowercases to "i\u{307}", so the line does not begin with "quit".
    assert_eq!(parse_chat_message("QUİT".to_string(), &user()), text("QUİT"));
}

#[test]
fn whisper_names_recipient_and_message() {
    assert_eq!(parse_chat_message("/w bob hello there".to_string(), &user()), whisper("bob", "hello there"));
}

#[test]
fn whisper_in_capitals() {
    assert_eq!(parse_chat_message("/W bob hi".to_string(), &user()), whisper("bob", "hi"));
}

#[test]
fn whisper_keeps_inner_spacing_of_message() {
    assert_eq!(parse_chat_message("/w bob a  b \n".to_string(), &user()), whisper("bob", "a  b"));
}

#[test]
fn whisper_after_leading_space_is_a_message() {
    assert_eq!(parse_chat_message("  /w bob hi".to_string(), &user()), text("/w bob hi"));
}

#[test]
fn whisper_with_double_space_has_empty_recipient() {
    assert_eq!(parse_chat_message("/w  bob hi".to_string(), &user()), whisper("", "bob hi"));
}

#[test]
fn whisper_without_message_stands_for_nothing() {
    assert_eq!(parse_chat_message("/w bob".to_string(), &user()), None);
    assert_eq!(parse_chat_message("/w".to_string(), &user()), None);
    assert_eq!(parse_chat_message("/w bob   ".to_string(), &user()), None);
}

#[test]
fn slash_w_word_is_read_as_whisper() {
    assert_eq!(parse_chat_message("/wave to all".to_string(), &user()), whisper("to", "all"));
}

#[test]
fn other_lines_are_trimmed_messages() {
    assert_eq!(parse_chat_message("  hello world \t".to_string(), &user()), text("hello world"));
    assert_eq!(parse_chat_message("\u{3000}hi\u{a0}".to_string(), &user()), text("hi"));
}

#[test]
fn parse_with_given_lowercase_form() {
    assert_eq!(parse_lowercased_line("QUIT", "quit", &user()), Some(ChatMessage::Leave(user())));
    assert_eq!(parse_lowercased_line("QUIT", "QUIT", &user()), text("QUIT"));
    assert_eq!(parse_lowercased_line("/W x y", "/w x y", &user()), whisper("x", "y"));
}

#[test]
fn whisper_parts_reassemble_the_trimmed_line() {
    let line = " /w bob hello  there ".to_string();
    if let Some(ChatMessage::Whisper { message, recipient, .. }) = parse_chat_message("/w bob hello  there ".to_string(), &user()) {
        assert!(!recipient.contains(' '));
        assert_eq!(format!("/w {} {}", recipient, message), line.trim());
    } else {
        panic!("not a whisper");
    }
}
