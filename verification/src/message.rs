//! The messages that clients and the server exchange, and the reading of
//! a line typed by a user as a chat message.
use vstd::prelude::*;

use crate::text::{
    has_prefix, join_by, join_from, law_join_split, law_split_pieces, law_trim_idempotent,
    lemma_join_first, law_split_count, count_char, spec_trim, split_by, split_by_char, starts_with, string_views, trim,
};

verus! {

/// The port the server listens on.
pub const SERVER_PORT: u16 = 5555;

/// The port reserved for clients.
pub const CLIENT_PORT: u16 = 4444;

/// What a client sends to the server.
#[derive(Debug, Clone, PartialEq, Eq)]
pub enum ChatMessage {
    Join(String),
    Leave(String),
    Text { author: String, message: String },
    Whisper { author: String, message: String, recipient: String },
}

/// What the server sends to a client.
#[derive(Debug, Clone, PartialEq, Eq)]
pub enum ServerMessage {
    ErrorNameTaken,
    ErrorUnknownRecipient(String),
    IncomingWhisper { author: String, message: String },
    IncomingMessage { author: String, message: String },
    SuccessfullyWhispered { recipient: String, message: String },
    SuccessfullyJoined { active: Vec<String> },
    UserLeft(String),
    UserJoined(String),
    Leave,
}

/// A [`ChatMessage`] with its texts as character sequences.
pub enum ChatMessageView {
    Join(Seq<char>),
    Leave(Seq<char>),
    Text { author: Seq<char>, message: Seq<char> },
    Whisper { author: Seq<char>, message: Seq<char>, recipient: Seq<char> },
}

/// A [`ServerMessage`] with its texts as character sequences.
pub enum ServerMessageView {
    ErrorNameTaken,
    ErrorUnknownRecipient(Seq<char>),
    IncomingWhisper { author: Seq<char>, message: Seq<char> },
    IncomingMessage { author: Seq<char>, message: Seq<char> },
    SuccessfullyWhispered { recipient: Seq<char>, message: Seq<char> },
    SuccessfullyJoined { active: Seq<Seq<char>> },
    UserLeft(Seq<char>),
    UserJoined(Seq<char>),
    Leave,
}

impl View for ChatMessage {
    type V = ChatMessageView;

    open spec fn view(&self) -> ChatMessageView {
        match self {
            ChatMessage::Join(name) => ChatMessageView::Join(name@),
            ChatMessage::Leave(name) => ChatMessageView::Leave(name@),
            ChatMessage::Text { author, message } => ChatMessageView::Text {
                author: author@,
                message: message@,
            },
            ChatMessage::Whisper { author, message, recipient } => ChatMessageView::Whisper {
                author: author@,
                message: message@,
                recipient: recipient@,
            },
        }
    }
}

impl View for ServerMessage {
    type V = ServerMessageView;

    open spec fn view(&self) -> ServerMessageView {
        match self {
            ServerMessage::ErrorNameTaken => ServerMessageView::ErrorNameTaken,
            ServerMessage::ErrorUnknownRecipient(name) => ServerMessageView::ErrorUnknownRecipient(
                name@,
            ),
            ServerMessage::IncomingWhisper { author, message } => ServerMessageView::IncomingWhisper {
                author: author@,
                message: message@,
            },
            ServerMessage::IncomingMessage { author, message } => ServerMessageView::IncomingMessage {
                author: author@,
                message: message@,
            },
            ServerMessage::SuccessfullyWhispered { recipient, message } =>
                ServerMessageView::SuccessfullyWhispered { recipient: recipient@, message: message@ },
            ServerMessage::SuccessfullyJoined { active } => ServerMessageView::SuccessfullyJoined {
                active: string_views(active@),
            },
            ServerMessage::UserLeft(name) => ServerMessageView::UserLeft(name@),
            ServerMessage::UserJoined(name) => ServerMessageView::UserJoined(name@),
            ServerMessage::Leave => ServerMessageView::Leave,
        }
    }
}

/// The view of an optional chat message.
pub open spec fn chat_view(m: Option<ChatMessage>) -> Option<ChatMessageView> {
    match m {
        Some(m) => Some(m@),
        None => None,
    }
}

/// The text that, at the start of a lowercased line, makes it a request to leave.
pub open spec fn quit_word() -> Seq<char> {
    seq!['q', 'u', 'i', 't']
}

/// The text that, at the start of a lowercased line, makes it a whisper.
pub open spec fn whisper_word() -> Seq<char> {
    seq!['/', 'w']
}

/// The chat message that the line `raw`, whose lowercase form is
/// `lowered`, stands for when `username` types it:
/// - a line whose lowercase form begins with `quit` asks to leave;
/// - one whose lowercase form begins with `/w` is a whisper: the trimmed
///   line is cut at each single space, the second piece names the
///   recipient and the pieces from the third on, joined again by single
///   spaces, are the message; with fewer than three pieces the line stands
///   for nothing;
/// - any other line is a message to everyone, trimmed.
pub open spec fn spec_parse_chat_message(
    raw: Seq<char>,
    lowered: Seq<char>,
    username: Seq<char>,
) -> Option<ChatMessageView> {
    if has_prefix(lowered, quit_word()) {
        Some(ChatMessageView::Leave(username))
    } else if has_prefix(lowered, whisper_word()) {
        let parts = split_by(spec_trim(raw), ' ');
        if parts.len() < 3 {
            None
        } else {
            Some(
                ChatMessageView::Whisper {
                    author: username,
                    message: join_by(parts.skip(2), ' '),
                    recipient: parts[1],
                },
            )
        }
    } else {
        Some(ChatMessageView::Text { author: username, message: spec_trim(raw) })
    }
}

/// What `str::to_lowercase` gives back for a text.
pub uninterp spec fn lowercase_of(s: Seq<char>) -> Seq<char>;

/// Calls `str::to_lowercase`; the contract only names its result, since
/// Unicode case mapping takes pages to state.
#[verifier::external_body]
fn to_lowercase(s: &str) -> (res: String)
    ensures
        res@ == lowercase_of(s@),
{
    s.to_lowercase()
}

/// Reads the line `raw_message`, whose lowercase form is `lowered`, as a
/// chat message from `username` (see [`spec_parse_chat_message`]).
pub fn parse_lowercased_line(raw_message: &str, lowered: &str, username: &String) -> (res: Option<
    ChatMessage,
>)
    ensures
        chat_view(res) == spec_parse_chat_message(raw_message@, lowered@, username@),
{
    let quit = "quit";
    let whisper = "/w";
    proof {
        reveal_strlit("quit");
        reveal_strlit("/w");
        assert(quit@ =~= quit_word());
        assert(whisper@ =~= whisper_word());
    }
    if starts_with(lowered, quit) {
        return Some(ChatMessage::Leave(username.clone()));
    }
    if starts_with(lowered, whisper) {
        let trimmed = trim(raw_message);
        let parts = split_by_char(trimmed.as_str(), ' ');
        if parts.len() < 3 {
            return None;
        }
        let recipient = parts[1].clone();
        let space = " ";
        proof {
            reveal_strlit(" ");
            assert(space@.len() == 1 && space@[0] == ' ');
        }
        let message = join_from(&parts, 2, space);
        proof {
            assert(string_views(parts@)[1] == parts@[1]@);
        }
        return Some(ChatMessage::Whisper { author: username.clone(), message, recipient });
    }
    let message = trim(raw_message);
    Some(ChatMessage::Text { author: username.clone(), message })
}

/// Reads a line typed by `username` as a chat message: a request to leave,
/// a whisper, or a message to everyone; `None` for a whisper that lacks a
/// recipient or a message (see [`spec_parse_chat_message`]).
pub fn parse_chat_message(raw_message: String, username: &String) -> (res: Option<ChatMessage>)
    ensures
        chat_view(res) == spec_parse_chat_message(
            raw_message@,
            lowercase_of(raw_message@),
            username@,
        ),
        !(res matches Some(ChatMessage::Join(_))),
{
    let lowered = to_lowercase(raw_message.as_str());
    parse_lowercased_line(raw_message.as_str(), lowered.as_str(), username)
}

/// A typed line never stands for a `Join`; what it stands for carries the
/// typing user as author (or as the one who leaves); a message to everyone
/// neither begins nor ends with whitespace; and a whisper's recipient holds
/// no space, the trimmed line being its first word, a space, the
/// recipient, a space and the message.
pub proof fn law_parsed_line(raw: Seq<char>, lowered: Seq<char>, username: Seq<char>)
    ensures
        match spec_parse_chat_message(raw, lowered, username) {
            None => true,
            Some(ChatMessageView::Join(_)) => false,
            Some(ChatMessageView::Leave(name)) => name == username,
            Some(ChatMessageView::Text { author, message }) => {
                &&& author == username
                &&& message.len() > 0 ==> !crate::text::is_unicode_whitespace(message[0])
                    && !crate::text::is_unicode_whitespace(message.last())
            },
            Some(ChatMessageView::Whisper { author, message, recipient }) => {
                &&& author == username
                &&& !recipient.contains(' ')
                &&& spec_trim(raw) == split_by(spec_trim(raw), ' ')[0] + seq![' '] + recipient
                    + seq![' '] + message
            },
        },
{
    law_trim_idempotent(raw, false);
    let t = spec_trim(raw);
    let parts = split_by(t, ' ');
    if !has_prefix(lowered, quit_word()) && has_prefix(lowered, whisper_word()) && parts.len()
        >= 3 {
        law_join_split(t, ' ');
        law_split_pieces(t, ' ');
        lemma_join_first(parts, ' ');
        lemma_join_first(parts.drop_first(), ' ');
        assert(parts.drop_first().drop_first() =~= parts.skip(2));
        assert(parts.drop_first()[0] == parts[1]);
        assert(!parts[1].contains(' '));
        assert(t =~= parts[0] + seq![' '] + parts[1] + seq![' '] + join_by(parts.skip(2), ' '));
    }
}

/// How a line is read, in terms of the line itself:
/// - when its lowercase form begins with `quit`, the user leaves;
/// - otherwise, when its lowercase form begins with `/w`, it is a whisper
///   exactly when the trimmed line holds at least two spaces; the
///   recipient is then the word between the first two spaces and the
///   message is all that follows the second space;
/// - otherwise it is a message to everyone: the line, trimmed.
pub proof fn law_line_reading(raw: Seq<char>, lowered: Seq<char>, username: Seq<char>)
    ensures
        ({
            let res = spec_parse_chat_message(raw, lowered, username);
            let t = spec_trim(raw);
            let quits = 4 <= lowered.len() && lowered[0] == 'q' && lowered[1] == 'u' && lowered[2]
                == 'i' && lowered[3] == 't';
            let whispers = 2 <= lowered.len() && lowered[0] == '/' && lowered[1] == 'w';
            &&& quits ==> res == Some(ChatMessageView::Leave(username))
            &&& !quits && whispers ==> (res is None <==> count_char(t, ' ') < 2)
            &&& !quits && whispers && count_char(t, ' ') >= 2 ==> exists|first: Seq<char>|
                {
                    &&& !first.contains(' ')
                    &&& res matches Some(ChatMessageView::Whisper { author, message, recipient })
                    &&& author == username
                    &&& !recipient.contains(' ')
                    &&& t == first + seq![' '] + recipient + seq![' '] + message
                }
            &&& !quits && !whispers ==> res == Some(
                ChatMessageView::Text { author: username, message: t },
            )
        }),
{
    let t = spec_trim(raw);
    let quits = 4 <= lowered.len() && lowered[0] == 'q' && lowered[1] == 'u' && lowered[2] == 'i'
        && lowered[3] == 't';
    let whispers = 2 <= lowered.len() && lowered[0] == '/' && lowered[1] == 'w';
    if quits {
        assert(lowered.take(4) =~= quit_word());
    } else {
        if 4 <= lowered.len() && lowered.take(4) == quit_word() {
            assert(lowered.take(4)[3] == 't');
        }
    }
    if whispers {
        assert(lowered.take(2) =~= whisper_word());
    } else {
        if 2 <= lowered.len() && lowered.take(2) == whisper_word() {
            assert(lowered.take(2)[1] == 'w');
        }
    }
    law_split_count(t, ' ');
    law_parsed_line(raw, lowered, username);
    if !quits && whispers && count_char(t, ' ') >= 2 {
        let parts = split_by(t, ' ');
        law_split_pieces(t, ' ');
        assert(!parts[0].contains(' '));
    }
}

} // verus!
