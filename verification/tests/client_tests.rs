use chatroom::client::{leave_message, login_message, outgoing_message, ClientState};
use chatroom::message::{ChatMessage, ServerMessage};

fn s(x: &str) -> String {
    x.to_string()
}

fn joined(active: &[&str]) -> ClientState {
    let mut c = ClientState::new();
    let print = c.take_in(&ServerMessage::SuccessfullyJoined { active: active.iter().map(|a| s(a)).collect() }, &s("me"));
    assert!(print);
    c
}

#[test]
fn login_sends_trimmed_name() {
    assert_eq!(login_message(&s("  bob \n")), Some(ChatMessage::Join(s("bob"))));
    assert_eq!(login_message(&s("   ")), None);
    assert_eq!(login_message(&s("")), None);
}

#[test]
fn blank_line_sends_nothing() {
    assert_eq!(outgoing_message(&s(" \t "), &s("me")), None);
}

#[test]
fn line_is_sent_with_untrimmed_author() {
    assert_eq!(
        outgoing_message(&s(" hello "), &s(" me ")),
        Some(ChatMessage::Text { author: s(" me "), message: s("hello") })
    );
    assert_eq!(outgoing_message(&s("quit"), &s("me")), Some(ChatMessage::Leave(s("me"))));
    assert_eq!(outgoing_message(&s("/w bob"), &s("me")), None);
}

#[test]
fn leave_sends_trimmed_name() {
    assert_eq!(leave_message(&s(" me ")), ChatMessage::Leave(s("me")));
}

#[test]
fn new_client_is_outside() {
    let c = ClientState::new();
    assert!(!c.is_joined);
    assert!(c.messages.is_empty());
    assert!(c.active_users.is_empty());
    assert_eq!(c.error, "");
}

#[test]
fn successful_join_takes_active_users_and_clears_error() {
    let mut c = ClientState::new();
    c.take_in(&ServerMessage::ErrorNameTaken, &s("me"));
    assert_eq!(c.error, "Username is already taken.");
    assert!(!c.is_joined);
    let print = c.take_in(&ServerMessage::SuccessfullyJoined { active: vec![s("a"), s("b")] }, &s("me"));
    assert!(print);
    assert!(c.is_joined);
    assert_eq!(c.error, "");
    assert_eq!(c.active_users, vec![s("a"), s("b")]);
}

#[test]
fn messages_go_to_the_log() {
    let mut c = joined(&[]);
    assert!(!c.take_in(&ServerMessage::IncomingMessage { author: s("a"), message: s("hi") }, &s("me")));
    assert!(c.take_in(&ServerMessage::IncomingWhisper { author: s("a"), message: s("psst") }, &s("me")));
    assert!(c.take_in(&ServerMessage::SuccessfullyWhispered { recipient: s("b"), message: s("yo") }, &s("me")));
    assert!(c.take_in(&ServerMessage::ErrorUnknownRecipient(s("z")), &s("me")));
    assert_eq!(c.messages, vec![s("a: hi"), s("[SERVER]: a => you: psst"), s("[SERVER]: You => b: yo")]);
}

#[test]
fn others_joining_and_leaving_update_active_users() {
    let mut c = joined(&["a"]);
    c.take_in(&ServerMessage::UserJoined(s("b")), &s("me"));
    c.take_in(&ServerMessage::UserJoined(s("a")), &s("me"));
    assert_eq!(c.active_users, vec![s("a"), s("b")]);
    c.take_in(&ServerMessage::UserLeft(s("a")), &s("me"));
    assert_eq!(c.active_users, vec![s("b")]);
    assert_eq!(
        c.messages,
        vec![s("[SERVER]: b has joined the chat."), s("[SERVER]: a has joined the chat."), s("[SERVER]: a has left the chat.")]
    );
}

#[test]
fn own_join_and_leave_are_not_logged() {
    let mut c = joined(&["me"]);
    assert!(c.take_in(&ServerMessage::UserJoined(s("me")), &s("me")));
    assert!(c.take_in(&ServerMessage::UserLeft(s("me")), &s("me")));
    assert!(c.messages.is_empty());
    assert_eq!(c.active_users, vec![s("me")]);
}

#[test]
fn join_then_leave_of_other_restores_active_users() {
    let mut c = joined(&["a", "b"]);
    c.take_in(&ServerMessage::UserJoined(s("x")), &s("me"));
    c.take_in(&ServerMessage::UserLeft(s("x")), &s("me"));
    assert_eq!(c.active_users, vec![s("a"), s("b")]);
}

#[test]
fn leave_and_disconnect_mark_client_outside() {
    let mut c = joined(&[]);
    assert!(c.take_in(&ServerMessage::Leave, &s("me")));
    assert!(!c.is_joined);
    let mut c = joined(&[]);
    c.disconnected();
    assert!(!c.is_joined);
}
