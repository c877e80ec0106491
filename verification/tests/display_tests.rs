use chatroom::display::{client_notice_line, server_message_line, Color, Segment};
use chatroom::message::ServerMessage;

fn seg(text: &str, color: Color, bold: bool) -> Segment {
    Segment { text: text.to_string(), color, bold }
}

fn text_of(line: &[Segment]) -> String {
    line.iter().map(|s| s.text.as_str()).collect()
}

fn line(msg: ServerMessage) -> Vec<Segment> {
    server_message_line(&msg, &"me".to_string())
}

#[test]
fn name_taken_line() {
    assert_eq!(
        line(ServerMessage::ErrorNameTaken),
        vec![
            seg("[SERVER]", Color::Green, false),
            seg(": ", Color::Plain, false),
            seg("Error: Username is already taken.", Color::Red, false),
            seg(" ", Color::Plain, false),
        ]
    );
}

#[test]
fn unknown_recipient_line_trims_the_name() {
    assert_eq!(text_of(&line(ServerMessage::ErrorUnknownRecipient(" zed\n".to_string()))), "[SERVER]: Error: Unknown user: zed");
    assert_eq!(line(ServerMessage::ErrorUnknownRecipient(" zed\n".to_string()))[4], seg("zed", Color::Cyan, true));
}

#[test]
fn own_message_is_magenta_others_green() {
    let own = line(ServerMessage::IncomingMessage { author: "me".to_string(), message: "hi".to_string() });
    assert_eq!(own[2], seg("me", Color::Magenta, true));
    assert_eq!(text_of(&own), "[SERVER]: me: hi");
    let other = line(ServerMessage::IncomingMessage { author: "you".to_string(), message: "hi".to_string() });
    assert_eq!(other[2], seg("you", Color::Green, true));
}

#[test]
fn whisper_lines() {
    assert_eq!(
        text_of(&line(ServerMessage::IncomingWhisper { author: "a".to_string(), message: "psst".to_string() })),
        "[SERVER]: a has whispered to you: psst"
    );
    assert_eq!(
        text_of(&line(ServerMessage::SuccessfullyWhispered { recipient: "b".to_string(), message: "yo".to_string() })),
        "[SERVER]: Successfully whispered to b: yo"
    );
}

#[test]
fn joined_lines() {
    assert_eq!(
        text_of(&line(ServerMessage::SuccessfullyJoined { active: vec![] })),
        "[SERVER]: Successfully joined the chat. Right now you are the only one here."
    );
    let l = line(ServerMessage::SuccessfullyJoined { active: vec!["a".to_string(), "b".to_string()] });
    assert_eq!(text_of(&l), "[SERVER]: Successfully joined the chat. Active users are:\na\nb");
    assert_eq!(l[3], seg("a\nb", Color::Green, true));
}

#[test]
fn arrival_departure_and_leave_lines() {
    assert_eq!(text_of(&line(ServerMessage::UserJoined("\tbob ".to_string()))), "[SERVER]: bob has joined the chat.");
    assert_eq!(line(ServerMessage::UserLeft("bob".to_string()))[2], seg("bob", Color::Red, true));
    assert_eq!(text_of(&line(ServerMessage::UserLeft("bob".to_string()))), "[SERVER]: bob has left the chat.");
    assert_eq!(
        line(ServerMessage::Leave),
        vec![seg("[CLIENT]", Color::Yellow, false), seg(": Leaving the room. Bye!", Color::Plain, false)]
    );
}

#[test]
fn client_notice_lines() {
    assert_eq!(
        client_notice_line(&"oops".to_string(), true),
        vec![seg("[CLIENT]", Color::Green, false), seg(": ", Color::Plain, false), seg("oops", Color::Red, false)]
    );
    assert_eq!(client_notice_line(&"fine".to_string(), false)[2], seg("fine", Color::Plain, false));
}
