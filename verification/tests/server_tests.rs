use chatroom::message::{ChatMessage, ServerMessage};
use chatroom::server::{copy_server_message, ChatRoom, Delivery, Recipient};

fn s(x: &str) -> String {
    x.to_string()
}

fn to_user(name: &str, message: ServerMessage) -> Delivery {
    Delivery { to: Recipient::User(s(name)), message }
}

fn reply(message: ServerMessage) -> Delivery {
    Delivery { to: Recipient::Sender, message }
}

fn room_of(names: &[&str]) -> ChatRoom<u32> {
    let mut room = ChatRoom::new();
    for (i, n) in names.iter().enumerate() {
        let a = room.join(ChatMessage::Join(s(n)), i as u32);
        assert!(a.accepted);
    }
    room
}

#[test]
fn first_member_is_alone() {
    let mut room: ChatRoom<u32> = ChatRoom::new();
    let a = room.join(ChatMessage::Join(s("alice")), 7);
    assert!(a.accepted);
    assert_eq!(a.username, "alice");
    assert_eq!(a.deliveries, vec![reply(ServerMessage::SuccessfullyJoined { active: vec![] })]);
    assert_eq!(room.member_names(), vec![s("alice")]);
    assert_eq!(room.handle_of(&s("alice")), Some(&7));
}

#[test]
fn joining_member_learns_who_is_there_and_others_learn_of_it() {
    let mut room = room_of(&["alice", "bob"]);
    let a = room.join(ChatMessage::Join(s("carol")), 9);
    assert!(a.accepted);
    assert_eq!(
        a.deliveries,
        vec![
            reply(ServerMessage::SuccessfullyJoined { active: vec![s("alice"), s("bob")] }),
            to_user("alice", ServerMessage::UserJoined(s("carol"))),
            to_user("bob", ServerMessage::UserJoined(s("carol"))),
        ]
    );
    assert_eq!(room.member_names(), vec![s("alice"), s("bob"), s("carol")]);
    assert_eq!(room.len(), 3);
}

#[test]
fn taken_name_is_refused_and_room_unchanged() {
    let mut room = room_of(&["alice"]);
    let a = room.join(ChatMessage::Join(s("alice")), 5);
    assert!(!a.accepted);
    assert_eq!(a.deliveries, vec![reply(ServerMessage::ErrorNameTaken)]);
    assert_eq!(room.member_names(), vec![s("alice")]);
    assert_eq!(room.handle_of(&s("alice")), Some(&0));
}

#[test]
fn first_message_other_than_join_claims_empty_name() {
    let mut room: ChatRoom<u32> = ChatRoom::new();
    let a = room.join(ChatMessage::Leave(s("x")), 1);
    assert!(a.accepted);
    assert_eq!(a.username, "");
    let b = room.join(ChatMessage::Text { author: s("y"), message: s("z") }, 2);
    assert!(!b.accepted);
    assert_eq!(b.deliveries, vec![reply(ServerMessage::ErrorNameTaken)]);
}

#[test]
fn text_reaches_every_member_including_sender() {
    let mut room = room_of(&["alice", "bob"]);
    let d = room.handle_message(ChatMessage::Text { author: s("alice"), message: s("hi") });
    let m = ServerMessage::IncomingMessage { author: s("alice"), message: s("hi") };
    assert_eq!(d, vec![to_user("alice", m.clone()), to_user("bob", m)]);
    assert_eq!(room.len(), 2);
}

#[test]
fn whisper_to_member_is_delivered_and_confirmed() {
    let mut room = room_of(&["alice", "bob"]);
    let d = room.handle_message(ChatMessage::Whisper { author: s("alice"), message: s("psst"), recipient: s("bob") });
    assert_eq!(
        d,
        vec![
            to_user("bob", ServerMessage::IncomingWhisper { author: s("alice"), message: s("psst") }),
            reply(ServerMessage::SuccessfullyWhispered { recipient: s("bob"), message: s("psst") }),
        ]
    );
}

#[test]
fn whisper_to_unknown_name_is_refused() {
    let mut room = room_of(&["alice"]);
    let d = room.handle_message(ChatMessage::Whisper { author: s("alice"), message: s("psst"), recipient: s("zed") });
    assert_eq!(d, vec![reply(ServerMessage::ErrorUnknownRecipient(s("zed")))]);
}

#[test]
fn leave_removes_member_and_tells_the_rest() {
    let mut room = room_of(&["alice", "bob", "carol"]);
    let d = room.handle_message(ChatMessage::Leave(s("bob")));
    assert_eq!(
        d,
        vec![
            to_user("alice", ServerMessage::UserLeft(s("bob"))),
            to_user("carol", ServerMessage::UserLeft(s("bob"))),
            reply(ServerMessage::Leave),
        ]
    );
    assert_eq!(room.member_names(), vec![s("alice"), s("carol")]);
    assert!(!room.contains(&s("bob")));
    assert_eq!(room.handle_of(&s("carol")), Some(&2));
}

#[test]
fn leave_of_unknown_name_still_answers() {
    let mut room = room_of(&["alice"]);
    let d = room.handle_message(ChatMessage::Leave(s("zed")));
    assert_eq!(d, vec![to_user("alice", ServerMessage::UserLeft(s("zed"))), reply(ServerMessage::Leave)]);
    assert_eq!(room.member_names(), vec![s("alice")]);
}

#[test]
fn join_then_disconnect_restores_room() {
    let mut room = room_of(&["alice", "bob"]);
    let a = room.join(ChatMessage::Join(s("carol")), 3);
    assert!(a.accepted);
    room.disconnect(&a.username);
    assert_eq!(room.member_names(), vec![s("alice"), s("bob")]);
    room.disconnect(&s("nobody"));
    assert_eq!(room.member_names(), vec![s("alice"), s("bob")]);
}

#[test]
fn name_is_free_again_after_leaving() {
    let mut room = room_of(&["alice"]);
    room.handle_message(ChatMessage::Leave(s("alice")));
    let a = room.join(ChatMessage::Join(s("alice")), 4);
    assert!(a.accepted);
    assert_eq!(room.handle_of(&s("alice")), Some(&4));
    assert_eq!(room.len(), 1);
}

#[test]
fn copies_of_messages_are_equal() {
    let m = ServerMessage::SuccessfullyJoined { active: vec![s("a"), s("b")] };
    assert_eq!(copy_server_message(&m), m);
    let m = ServerMessage::IncomingWhisper { author: s("a"), message: s("b") };
    assert_eq!(copy_server_message(&m), m);
}

#[test]
fn whisper_reaches_member_that_just_joined() {
    let mut room = room_of(&["alice"]);
    let a = room.join(ChatMessage::Join(s("dave")), 8);
    assert!(a.accepted);
    let d = room.handle_message(ChatMessage::Whisper { author: s("alice"), message: s("welcome"), recipient: s("dave") });
    assert_eq!(
        d,
        vec![
            to_user("dave", ServerMessage::IncomingWhisper { author: s("alice"), message: s("welcome") }),
            reply(ServerMessage::SuccessfullyWhispered { recipient: s("dave"), message: s("welcome") }),
        ]
    );
}
