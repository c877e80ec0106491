//! How messages are shown on a terminal: each notice is a line of
//! segments, each segment a text with a colour and a weight.
use vstd::prelude::*;

use crate::message::{ServerMessage, ServerMessageView};
use crate::text::{join_by, join_from, spec_trim_ascii, trim_ascii, string_views};

verus! {

/// The colour a segment is printed in; `Plain` leaves the terminal's own.
#[derive(Debug, Clone, Copy, PartialEq, Eq, Structural)]
pub enum Color {
    Plain,
    Green,
    Red,
    Cyan,
    Magenta,
    Yellow,
}

/// A piece of a printed line.
#[derive(Debug, Clone, PartialEq, Eq)]
pub struct Segment {
    pub text: String,
    pub color: Color,
    pub bold: bool,
}

/// A [`Segment`] with its text as a character sequence.
pub struct SegmentView {
    pub text: Seq<char>,
    pub color: Color,
    pub bold: bool,
}

impl View for Segment {
    type V = SegmentView;

    open spec fn view(&self) -> SegmentView {
        SegmentView { text: self.text@, color: self.color, bold: self.bold }
    }
}

/// The views of a line's segments.
pub open spec fn line_view(line: Seq<Segment>) -> Seq<SegmentView> {
    line.map_values(|s: Segment| s@)
}

/// A segment of text `text` in colour `color`.
pub open spec fn seg(text: Seq<char>, color: Color, bold: bool) -> SegmentView {
    SegmentView { text, color, bold }
}

/// The characters of a line, colours left out.
pub open spec fn line_text(line: Seq<SegmentView>) -> Seq<char>
    decreases line.len(),
{
    if line.len() == 0 {
        Seq::<char>::empty()
    } else {
        line_text(line.drop_last()) + line.last().text
    }
}

/// The tag in front of what the server says.
pub open spec fn server_tag() -> SegmentView {
    seg("[SERVER]"@, Color::Green, false)
}

/// The line on which `user`'s terminal shows `msg` from the server.
pub open spec fn spec_server_message_line(msg: ServerMessageView, user: Seq<char>) -> Seq<
    SegmentView,
> {
    let colon = seg(": "@, Color::Plain, false);
    match msg {
        ServerMessageView::ErrorNameTaken => seq![
            server_tag(),
            colon,
            seg("Error: Username is already taken."@, Color::Red, false),
            seg(" "@, Color::Plain, false),
        ],
        ServerMessageView::ErrorUnknownRecipient(recipient) => seq![
            server_tag(),
            colon,
            seg("Error: Unknown user:"@, Color::Red, false),
            seg(" "@, Color::Plain, false),
            seg(spec_trim_ascii(recipient), Color::Cyan, true),
        ],
        ServerMessageView::IncomingWhisper { author, message } => seq![
            server_tag(),
            colon,
            seg(spec_trim_ascii(author), Color::Cyan, true),
            seg(" has whispered to you: "@, Color::Plain, false),
            seg(message, Color::Plain, false),
        ],
        ServerMessageView::IncomingMessage { author, message } => seq![
            server_tag(),
            colon,
            seg(
                spec_trim_ascii(author),
                if author == user {
                    Color::Magenta
                } else {
                    Color::Green
                },
                true,
            ),
            colon,
            seg(message, Color::Plain, false),
        ],
        ServerMessageView::SuccessfullyWhispered { recipient, message } => seq![
            server_tag(),
            colon,
            seg("Successfully whispered to"@, Color::Cyan, false),
            seg(" "@, Color::Plain, false),
            seg(spec_trim_ascii(recipient), Color::Cyan, true),
            colon,
            seg(message, Color::Plain, false),
        ],
        ServerMessageView::SuccessfullyJoined { active } => if active.len() == 0 {
            seq![
                server_tag(),
                colon,
                seg(
                    "Successfully joined the chat. Right now you are the only one here."@,
                    Color::Plain,
                    false,
                ),
            ]
        } else {
            seq![
                server_tag(),
                colon,
                seg("Successfully joined the chat. Active users are:\n"@, Color::Plain, false),
                seg(join_by(active, '\n'), Color::Green, true),
            ]
        },
        ServerMessageView::UserLeft(name) => seq![
            server_tag(),
            colon,
            seg(spec_trim_ascii(name), Color::Red, true),
            seg(" has left the chat."@, Color::Plain, false),
        ],
        ServerMessageView::UserJoined(name) => seq![
            server_tag(),
            colon,
            seg(spec_trim_ascii(name), Color::Green, true),
            seg(" has joined the chat."@, Color::Plain, false),
        ],
        ServerMessageView::Leave => seq![
            seg("[CLIENT]"@, Color::Yellow, false),
            seg(": Leaving the room. Bye!"@, Color::Plain, false),
        ],
    }
}

/// The line on which the client shows a notice of its own, in red when it
/// reports an error.
pub open spec fn spec_client_notice_line(msg: Seq<char>, is_error: bool) -> Seq<SegmentView> {
    seq![
        seg("[CLIENT]"@, Color::Green, false),
        seg(": "@, Color::Plain, false),
        seg(msg, if is_error { Color::Red } else { Color::Plain }, false),
    ]
}

fn segment(text: &str, color: Color, bold: bool) -> (res: Segment)
    ensures
        res@ == seg(text@, color, bold),
{
    Segment { text: text.to_owned(), color, bold }
}

fn owned_segment(text: String, color: Color, bold: bool) -> (res: Segment)
    ensures
        res@ == seg(text@, color, bold),
{
    Segment { text, color, bold }
}

/// The line on which `user`'s terminal shows `msg` from the server (see
/// [`spec_server_message_line`]).
pub fn server_message_line(msg: &ServerMessage, user: &String) -> (res: Vec<Segment>)
    ensures
        line_view(res@) == spec_server_message_line(msg@, user@),
{
    let mut line: Vec<Segment> = Vec::new();
    match msg {
        ServerMessage::Leave => {
            line.push(segment("[CLIENT]", Color::Yellow, false));
            line.push(segment(": Leaving the room. Bye!", Color::Plain, false));
        },
        _ => {
            line.push(segment("[SERVER]", Color::Green, false));
            line.push(segment(": ", Color::Plain, false));
            match msg {
                ServerMessage::ErrorNameTaken => {
                    line.push(segment("Error: Username is already taken.", Color::Red, false));
                    line.push(segment(" ", Color::Plain, false));
                },
                ServerMessage::ErrorUnknownRecipient(recipient) => {
                    line.push(segment("Error: Unknown user:", Color::Red, false));
                    line.push(segment(" ", Color::Plain, false));
                    line.push(owned_segment(trim_ascii(recipient.as_str()), Color::Cyan, true));
                },
                ServerMessage::IncomingWhisper { author, message } => {
                    line.push(owned_segment(trim_ascii(author.as_str()), Color::Cyan, true));
                    line.push(segment(" has whispered to you: ", Color::Plain, false));
                    line.push(owned_segment(message.clone(), Color::Plain, false));
                },
                ServerMessage::IncomingMessage { author, message } => {
                    let color = if *author == *user {
                        Color::Magenta
                    } else {
                        Color::Green
                    };
                    line.push(owned_segment(trim_ascii(author.as_str()), color, true));
                    line.push(segment(": ", Color::Plain, false));
                    line.push(owned_segment(message.clone(), Color::Plain, false));
                },
                ServerMessage::SuccessfullyWhispered { recipient, message } => {
                    line.push(segment("Successfully whispered to", Color::Cyan, false));
                    line.push(segment(" ", Color::Plain, false));
                    line.push(owned_segment(trim_ascii(recipient.as_str()), Color::Cyan, true));
                    line.push(segment(": ", Color::Plain, false));
                    line.push(owned_segment(message.clone(), Color::Plain, false));
                },
                ServerMessage::SuccessfullyJoined { active } => {
                    if active.len() == 0 {
                        line.push(
                            segment(
                                "Successfully joined the chat. Right now you are the only one here.",
                                Color::Plain,
                                false,
                            ),
                        );
                    } else {
                        line.push(
                            segment(
                                "Successfully joined the chat. Active users are:\n",
                                Color::Plain,
                                false,
                            ),
                        );
                        let newline = "\n";
                        proof {
                            reveal_strlit("\n");
                        }
                        let names = join_from(active, 0, newline);
                        proof {
                            assert(string_views(active@).skip(0) =~= string_views(active@));
                        }
                        line.push(owned_segment(names, Color::Green, true));
                    }
                },
                ServerMessage::UserLeft(name) => {
                    line.push(owned_segment(trim_ascii(name.as_str()), Color::Red, true));
                    line.push(segment(" has left the chat.", Color::Plain, false));
                },
                ServerMessage::UserJoined(name) => {
                    line.push(owned_segment(trim_ascii(name.as_str()), Color::Green, true));
                    line.push(segment(" has joined the chat.", Color::Plain, false));
                },
                ServerMessage::Leave => {},
            }
        },
    }
    assert(line_view(line@) =~= spec_server_message_line(msg@, user@));
    line
}

/// The line on which the client shows a notice of its own (see
/// [`spec_client_notice_line`]).
pub fn client_notice_line(msg: &String, is_error: bool) -> (res: Vec<Segment>)
    ensures
        line_view(res@) == spec_client_notice_line(msg@, is_error),
{
    let mut line: Vec<Segment> = Vec::new();
    line.push(segment("[CLIENT]", Color::Green, false));
    line.push(segment(": ", Color::Plain, false));
    let color = if is_error {
        Color::Red
    } else {
        Color::Plain
    };
    line.push(owned_segment(msg.clone(), color, false));
    assert(line_view(line@) =~= spec_client_notice_line(msg@, is_error));
    line
}

/// The text of each notice, colours left out. In particular a successful
/// join lists every active user, one per line, and says the user is alone
/// exactly when nobody else is in the room.
pub proof fn law_notice_text(msg: ServerMessageView, user: Seq<char>)
    ensures
        line_text(spec_server_message_line(msg, user)) == match msg {
            ServerMessageView::ErrorNameTaken => "[SERVER]"@ + ": "@
                + "Error: Username is already taken."@ + " "@,
            ServerMessageView::ErrorUnknownRecipient(r) => "[SERVER]"@ + ": "@
                + "Error: Unknown user:"@ + " "@ + spec_trim_ascii(r),
            ServerMessageView::IncomingWhisper { author, message } => "[SERVER]"@ + ": "@
                + spec_trim_ascii(author) + " has whispered to you: "@ + message,
            ServerMessageView::IncomingMessage { author, message } => "[SERVER]"@ + ": "@
                + spec_trim_ascii(author) + ": "@ + message,
            ServerMessageView::SuccessfullyWhispered { recipient, message } => "[SERVER]"@
                + ": "@ + "Successfully whispered to"@ + " "@ + spec_trim_ascii(recipient) + ": "@
                + message,
            ServerMessageView::SuccessfullyJoined { active } => if active.len() == 0 {
                "[SERVER]"@ + ": "@
                    + "Successfully joined the chat. Right now you are the only one here."@
            } else {
                "[SERVER]"@ + ": "@ + "Successfully joined the chat. Active users are:\n"@
                    + join_by(active, '\n')
            },
            ServerMessageView::UserLeft(name) => "[SERVER]"@ + ": "@ + spec_trim_ascii(name)
                + " has left the chat."@,
            ServerMessageView::UserJoined(name) => "[SERVER]"@ + ": "@ + spec_trim_ascii(name)
                + " has joined the chat."@,
            ServerMessageView::Leave => "[CLIENT]"@ + ": Leaving the room. Bye!"@,
        },
{
    reveal_with_fuel(line_text, 8);
}

/// The author of a message to everyone is shown in magenta when it is the
/// user, in green otherwise, in bold either way; a whisper's other party is
/// shown in bold cyan.
pub proof fn law_author_colours(msg: ServerMessageView, user: Seq<char>)
    ensures
        msg matches ServerMessageView::IncomingMessage { author, message } ==> spec_server_message_line(
            msg,
            user,
        )[2] == seg(
            spec_trim_ascii(author),
            if author == user {
                Color::Magenta
            } else {
                Color::Green
            },
            true,
        ),
        msg matches ServerMessageView::IncomingWhisper { author, message } ==> spec_server_message_line(
            msg,
            user,
        )[2] == seg(spec_trim_ascii(author), Color::Cyan, true),
{
}

/// Every server notice but the farewell begins with a green `[SERVER]`
/// tag and a plain `": "`; names of other parties are bold: cyan for
/// whisper partners and unknown recipients, green for arrivals, red for
/// departures; error texts are red.
pub proof fn law_notice_colours(msg: ServerMessageView, user: Seq<char>)
    ensures
        ({
            let l = spec_server_message_line(msg, user);
            &&& !(msg is Leave) ==> l[0] == seg("[SERVER]"@, Color::Green, false) && l[1] == seg(
                ": "@,
                Color::Plain,
                false,
            )
            &&& msg is Leave ==> l[0] == seg("[CLIENT]"@, Color::Yellow, false)
            &&& msg is ErrorNameTaken ==> l[2].color == Color::Red
            &&& msg is ErrorUnknownRecipient ==> l[2].color == Color::Red && l[4].color
                == Color::Cyan && l[4].bold
            &&& msg is SuccessfullyWhispered ==> l[4].color == Color::Cyan && l[4].bold
            &&& msg is UserJoined ==> l[2].color == Color::Green && l[2].bold
            &&& msg is UserLeft ==> l[2].color == Color::Red && l[2].bold
            &&& msg matches ServerMessageView::SuccessfullyJoined { active } ==> (active.len() > 0
                ==> l[3] == seg(join_by(active, '\n'), Color::Green, true))
        }),
{
}

} // verus!
