//! The client's decisions: which message a user's action sends, and how
//! what the server says changes what the client shows.
use vstd::prelude::*;

use crate::message::{
    chat_view, lowercase_of, parse_chat_message, spec_parse_chat_message, ChatMessage,
    ChatMessageView, ServerMessage, ServerMessageView,
};
use crate::server::copy_strings;
use crate::text::{is_empty_text, lemma_string_views_push, spec_trim, string_views, trim};

verus! {

/// The message that logging in as `name` sends: a `Join` with the trimmed
/// name, or nothing when the name is blank.
pub open spec fn spec_login_message(name: Seq<char>) -> Option<ChatMessageView> {
    if spec_trim(name).len() == 0 {
        None
    } else {
        Some(ChatMessageView::Join(spec_trim(name)))
    }
}

/// The message that sending the line `line` as `user` sends: nothing for a
/// blank line, else the line read as a chat message.
pub open spec fn spec_outgoing_message(line: Seq<char>, user: Seq<char>) -> Option<
    ChatMessageView,
> {
    if spec_trim(line).len() == 0 {
        None
    } else {
        spec_parse_chat_message(line, lowercase_of(line), user)
    }
}

/// The message that logging in as `name` sends (see [`spec_login_message`]).
pub fn login_message(name: &String) -> (res: Option<ChatMessage>)
    ensures
        chat_view(res) == spec_login_message(name@),
{
    let trimmed = trim(name.as_str());
    if is_empty_text(trimmed.as_str()) {
        None
    } else {
        Some(ChatMessage::Join(trimmed))
    }
}

/// The message that sending the line `line` as `user` sends (see
/// [`spec_outgoing_message`]).
pub fn outgoing_message(line: &String, user: &String) -> (res: Option<ChatMessage>)
    ensures
        chat_view(res) == spec_outgoing_message(line@, user@),
{
    let trimmed = trim(line.as_str());
    if is_empty_text(trimmed.as_str()) {
        return None;
    }
    parse_chat_message(line.clone(), user)
}

/// The message that leaving as `user` sends: a `Leave` with the trimmed name.
pub fn leave_message(user: &String) -> (res: ChatMessage)
    ensures
        res@ == ChatMessageView::Leave(spec_trim(user@)),
{
    ChatMessage::Leave(trim(user.as_str()))
}

/// What the client shows: the chat log, who is in the room, whether it is
/// in the room, and the last error.
pub struct ClientState {
    pub messages: Vec<String>,
    pub active_users: Vec<String>,
    pub is_joined: bool,
    pub error: String,
}

/// A [`ClientState`] with its texts as character sequences.
pub struct ClientView {
    pub messages: Seq<Seq<char>>,
    pub active_users: Seq<Seq<char>>,
    pub is_joined: bool,
    pub error: Seq<char>,
}

impl View for ClientState {
    type V = ClientView;

    open spec fn view(&self) -> ClientView {
        ClientView {
            messages: string_views(self.messages@),
            active_users: string_views(self.active_users@),
            is_joined: self.is_joined,
            error: self.error@,
        }
    }
}

/// `s` without the first occurrence of `x`.
pub open spec fn remove_first(s: Seq<Seq<char>>, x: Seq<char>) -> Seq<Seq<char>>
    decreases s.len(),
{
    if s.len() == 0 {
        s
    } else if s[0] == x {
        s.drop_first()
    } else {
        seq![s[0]] + remove_first(s.drop_first(), x)
    }
}

/// The state with one more line in the chat log.
pub open spec fn logged(s: ClientView, line: Seq<char>) -> ClientView {
    ClientView { messages: s.messages.push(line), ..s }
}

/// The log line for a whisper received from `author`.
pub open spec fn whisper_received_line(author: Seq<char>, message: Seq<char>) -> Seq<char> {
    "[SERVER]: "@ + author + " => you: "@ + message
}

/// The log line for a message from `author` to everyone.
pub open spec fn message_line(author: Seq<char>, message: Seq<char>) -> Seq<char> {
    author + ": "@ + message
}

/// The log line for a whisper sent to `recipient`.
pub open spec fn whisper_sent_line(recipient: Seq<char>, message: Seq<char>) -> Seq<char> {
    "[SERVER]: You => "@ + recipient + ": "@ + message
}

/// The log line for another user entering.
pub open spec fn joined_line(name: Seq<char>) -> Seq<char> {
    "[SERVER]: "@ + name + " has joined the chat."@
}

/// The log line for another user leaving.
pub open spec fn left_line(name: Seq<char>) -> Seq<char> {
    "[SERVER]: "@ + name + " has left the chat."@
}

/// The error shown when the chosen name is in use.
pub open spec fn name_taken_error() -> Seq<char> {
    "Username is already taken."@
}

/// Whether the server's message `msg` can be taken in by a client whose
/// user is `user` in state `s`: a user that leaves, other than `user`
/// itself, must be among the active users.
pub open spec fn can_take_in(s: ClientView, msg: ServerMessageView, user: Seq<char>) -> bool {
    msg matches ServerMessageView::UserLeft(name) ==> (name != user ==> s.active_users.contains(
        name,
    ))
}

/// How the state `s` of the client of `user` changes when the server
/// says `msg`, and whether the message is also printed on the terminal:
/// - whispers in both directions and messages to everyone go to the log;
/// - a successful join marks the client as joined, clears the error and
///   takes the server's list of active users;
/// - leaving, or a refused name, marks the client as not joined; a refused
///   name also sets the error;
/// - another user entering or leaving goes to the log and to, or out of,
///   the active users (entering adds a name only once; leaving takes out
///   its first occurrence);
/// - every message but a message to everyone is printed.
pub open spec fn spec_take_in(s: ClientView, msg: ServerMessageView, user: Seq<char>) -> (
    ClientView,
    bool,
) {
    match msg {
        ServerMessageView::ErrorUnknownRecipient(_) => (s, true),
        ServerMessageView::IncomingWhisper { author, message } => (
            logged(s, whisper_received_line(author, message)),
            true,
        ),
        ServerMessageView::IncomingMessage { author, message } => (
            logged(s, message_line(author, message)),
            false,
        ),
        ServerMessageView::SuccessfullyWhispered { recipient, message } => (
            logged(s, whisper_sent_line(recipient, message)),
            true,
        ),
        ServerMessageView::SuccessfullyJoined { active } => (
            ClientView { is_joined: true, error: Seq::empty(), active_users: active, ..s },
            true,
        ),
        ServerMessageView::Leave => (ClientView { is_joined: false, ..s }, true),
        ServerMessageView::ErrorNameTaken => (
            ClientView { is_joined: false, error: name_taken_error(), ..s },
            true,
        ),
        ServerMessageView::UserJoined(name) => if name != user {
            let t = logged(s, joined_line(name));
            if t.active_users.contains(name) {
                (t, true)
            } else {
                (ClientView { active_users: t.active_users.push(name), ..t }, true)
            }
        } else {
            (s, true)
        },
        ServerMessageView::UserLeft(name) => if name != user {
            let t = logged(s, left_line(name));
            (ClientView { active_users: remove_first(t.active_users, name), ..t }, true)
        } else {
            (s, true)
        },
    }
}

/// Taking out the first occurrence of `x`, found at `i`, is removing index `i`.
pub proof fn lemma_remove_first_at(s: Seq<Seq<char>>, x: Seq<char>, i: int)
    requires
        0 <= i < s.len(),
        s[i] == x,
        forall|k: int| 0 <= k < i ==> s[k] != x,
    ensures
        remove_first(s, x) == s.remove(i),
    decreases i,
{
    if i > 0 {
        let t = s.drop_first();
        assert forall|k: int| 0 <= k < i - 1 implies t[k] != x by {
            assert(t[k] == s[k + 1]);
        }
        lemma_remove_first_at(t, x, i - 1);
        assert(seq![s[0]] + t.remove(i - 1) =~= s.remove(i));
    }
}

fn text_of(s: &str) -> (res: String)
    ensures
        res@ == s@,
{
    s.to_owned()
}

impl ClientState {
    /// A client that has not joined yet: empty log, nobody known, no error.
    pub fn new() -> (res: Self)
        ensures
            res@ == (ClientView {
                messages: Seq::empty(),
                active_users: Seq::empty(),
                is_joined: false,
                error: Seq::empty(),
            }),
    {
        let res = ClientState {
            messages: Vec::new(),
            active_users: Vec::new(),
            is_joined: false,
            error: String::new(),
        };
        assert(res@.messages =~= Seq::<Seq<char>>::empty());
        assert(res@.active_users =~= Seq::<Seq<char>>::empty());
        res
    }

    fn log(&mut self, line: String)
        ensures
            final(self)@ == logged(old(self)@, line@),
    {
        let ghost prev = self.messages@;
        self.messages.push(line);
        proof {
            lemma_string_views_push(prev, line);
        }
    }

    fn position_of_user(&self, name: &String) -> (res: Option<usize>)
        ensures
            res matches Some(i) ==> i < self@.active_users.len() && self@.active_users[i as int]
                == name@ && forall|k: int| 0 <= k < i ==> self@.active_users[k] != name@,
            res is None ==> !self@.active_users.contains(name@),
    {
        let mut i: usize = 0;
        while i < self.active_users.len()
            invariant
                i <= self.active_users@.len(),
                forall|k: int| 0 <= k < i ==> self@.active_users[k] != name@,
            decreases self.active_users@.len() - i,
        {
            if self.active_users[i] == *name {
                return Some(i);
            }
            i = i + 1;
        }
        None
    }

    /// The connection to the server closed: the client is no longer in the room.
    pub fn disconnected(&mut self)
        ensures
            final(self)@ == (ClientView { is_joined: false, ..old(self)@ }),
    {
        self.is_joined = false;
    }

    /// Takes in what the server said (see [`spec_take_in`]); the result
    /// tells whether the message is also to be printed.
    pub fn take_in(&mut self, msg: &ServerMessage, user: &String) -> (print: bool)
        requires
            can_take_in(old(self)@, msg@, user@),
        ensures
            (final(self)@, print) == spec_take_in(old(self)@, msg@, user@),
    {
        match msg {
            ServerMessage::ErrorUnknownRecipient(_) => true,
            ServerMessage::IncomingWhisper { author, message } => {
                let mut line = text_of("[SERVER]: ");
                line.append(author.as_str());
                line.append(" => you: ");
                line.append(message.as_str());
                self.log(line);
                true
            },
            ServerMessage::IncomingMessage { author, message } => {
                let mut line = author.clone();
                line.append(": ");
                line.append(message.as_str());
                self.log(line);
                false
            },
            ServerMessage::SuccessfullyWhispered { recipient, message } => {
                let mut line = text_of("[SERVER]: You => ");
                line.append(recipient.as_str());
                line.append(": ");
                line.append(message.as_str());
                self.log(line);
                true
            },
            ServerMessage::SuccessfullyJoined { active } => {
                self.is_joined = true;
                self.error = String::new();
                self.active_users = copy_strings(active);
                true
            },
            ServerMessage::Leave => {
                self.is_joined = false;
                true
            },
            ServerMessage::ErrorNameTaken => {
                self.error = text_of("Username is already taken.");
                self.is_joined = false;
                true
            },
            ServerMessage::UserJoined(name) => {
                if *name != *user {
                    let mut line = text_of("[SERVER]: ");
                    line.append(name.as_str());
                    line.append(" has joined the chat.");
                    self.log(line);
                    if self.position_of_user(name).is_none() {
                        let ghost prev = self.active_users@;
                        let copy = name.clone();
                        self.active_users.push(copy);
                        proof {
                            lemma_string_views_push(prev, copy);
                        }
                    }
                }
                true
            },
            ServerMessage::UserLeft(name) => {
                if *name != *user {
                    let mut line = text_of("[SERVER]: ");
                    line.append(name.as_str());
                    line.append(" has left the chat.");
                    self.log(line);
                    match self.position_of_user(name) {
                        Some(i) => {
                            let ghost prev = self@.active_users;
                            proof {
                                lemma_remove_first_at(prev, name@, i as int);
                            }
                            self.active_users.remove(i);
                            proof {
                                assert(self@.active_users =~= prev.remove(i as int));
                            }
                        },
                        None => {},
                    }
                }
                true
            },
        }
    }
}

/// The chat log only grows, by at most one line at a time.
pub proof fn law_log_only_grows(s: ClientView, msg: ServerMessageView, user: Seq<char>)
    ensures
        s.messages.is_prefix_of(spec_take_in(s, msg, user).0.messages),
        spec_take_in(s, msg, user).0.messages.len() <= s.messages.len() + 1,
{
    let t = spec_take_in(s, msg, user).0;
    if t.messages.len() > s.messages.len() {
        assert(s.messages =~= t.messages.subrange(0, s.messages.len() as int));
    } else {
        assert(s.messages =~= t.messages.subrange(0, s.messages.len() as int));
    }
}

/// A successful join puts the client in the room; `Leave` and a refused
/// name take it out; a refused name sets the error and a successful join
/// clears it.
pub proof fn law_joined_status(s: ClientView, msg: ServerMessageView, user: Seq<char>)
    ensures
        msg is SuccessfullyJoined ==> spec_take_in(s, msg, user).0.is_joined
            && spec_take_in(s, msg, user).0.error.len() == 0,
        msg is Leave ==> !spec_take_in(s, msg, user).0.is_joined,
        msg is ErrorNameTaken ==> !spec_take_in(s, msg, user).0.is_joined && spec_take_in(
            s,
            msg,
            user,
        ).0.error == name_taken_error(),
        !(msg is SuccessfullyJoined) && !(msg is Leave) && !(msg is ErrorNameTaken) ==> (
        spec_take_in(s, msg, user).0.is_joined == s.is_joined && spec_take_in(s, msg, user).0.error
            == s.error),
{
}

/// When another user, not yet among the active users, enters and then
/// leaves, the active users are as they were.
pub proof fn law_join_then_leave_restores_active(s: ClientView, name: Seq<char>, user: Seq<char>)
    requires
        name != user,
        !s.active_users.contains(name),
    ensures
        ({
            let joined = spec_take_in(s, ServerMessageView::UserJoined(name), user).0;
            &&& can_take_in(joined, ServerMessageView::UserLeft(name), user)
            &&& spec_take_in(joined, ServerMessageView::UserLeft(name), user).0.active_users
                == s.active_users
        }),
{
    let a = s.active_users.push(name);
    assert(a[s.active_users.len() as int] == name);
    assert forall|k: int| 0 <= k < s.active_users.len() implies a[k] != name by {
        assert(a[k] == s.active_users[k]);
    }
    lemma_remove_first_at(a, name, s.active_users.len() as int);
    assert(a.remove(s.active_users.len() as int) =~= s.active_users);
}

/// Users entering and leaving never make a name appear twice among the
/// active users; only a successful join, which takes the server's list,
/// replaces them.
pub proof fn law_active_users_stay_distinct(s: ClientView, msg: ServerMessageView, user: Seq<char>)
    requires
        s.active_users.no_duplicates(),
        can_take_in(s, msg, user),
        !(msg is SuccessfullyJoined),
    ensures
        spec_take_in(s, msg, user).0.active_users.no_duplicates(),
{
    let a = s.active_users;
    match msg {
        ServerMessageView::UserJoined(name) => {
            if name != user && !a.contains(name) {
                let b = a.push(name);
                assert forall|i: int, j: int|
                    0 <= i < b.len() && 0 <= j < b.len() && i != j implies b[i] != b[j] by {
                    if i == a.len() {
                        assert(b[j] == a[j]);
                    } else if j == a.len() {
                        assert(b[i] == a[i]);
                    } else {
                        assert(b[i] == a[i] && b[j] == a[j]);
                    }
                }
            }
        },
        ServerMessageView::UserLeft(name) => {
            if name != user {
                let i = choose|i: int| 0 <= i < a.len() && a[i] == name;
                let first = choose|f: int|
                    0 <= f < a.len() && a[f] == name && forall|k: int| 0 <= k < f ==> a[k] != name;
                assert(exists|f: int|
                    0 <= f < a.len() && a[f] == name && forall|k: int| 0 <= k < f ==> a[k]
                        != name) by {
                    lemma_first_occurrence(a, name, i);
                }
                lemma_remove_first_at(a, name, first);
                let b = a.remove(first);
                assert forall|p: int, q: int|
                    0 <= p < b.len() && 0 <= q < b.len() && p != q implies b[p] != b[q] by {
                    let pp = if p < first { p } else { p + 1 };
                    let qq = if q < first { q } else { q + 1 };
                    assert(b[p] == a[pp] && b[q] == a[qq]);
                }
            }
        },
        _ => {},
    }
}

/// A value that occurs has a first occurrence.
proof fn lemma_first_occurrence(a: Seq<Seq<char>>, x: Seq<char>, i: int)
    requires
        0 <= i < a.len(),
        a[i] == x,
    ensures
        exists|f: int| 0 <= f < a.len() && a[f] == x && forall|k: int| 0 <= k < f ==> a[k] != x,
    decreases i,
{
    if exists|k: int| 0 <= k < i && a[k] == x {
        let k = choose|k: int| 0 <= k < i && a[k] == x;
        lemma_first_occurrence(a, x, k);
    } else {
        assert(forall|k: int| 0 <= k < i ==> a[k] != x);
    }
}

/// Logging in is refused exactly for a blank name (one made only of
/// whitespace, or empty); any other name, however short, is sent trimmed.
pub proof fn law_login_refuses_only_blank_names(name: Seq<char>)
    ensures
        spec_login_message(name) is None <==> forall|i: int|
            0 <= i < name.len() ==> crate::text::is_unicode_whitespace(#[trigger] name[i]),
        spec_login_message(name) is None <==> spec_trim(name).len() == 0,
        spec_trim(name).len() > 0 ==> spec_login_message(name) == Some(
            ChatMessageView::Join(spec_trim(name)),
        ),
{
    crate::text::law_trim_empty_iff_blank(name);
}

/// Sending a line that is not blank sends exactly what the line reads as:
/// the same result as reading the line as a chat message; a blank line
/// sends nothing.
pub proof fn law_outgoing_is_the_parse(line: Seq<char>, user: Seq<char>)
    ensures
        spec_trim(line).len() > 0 ==> spec_outgoing_message(line, user) == spec_parse_chat_message(
            line,
            lowercase_of(line),
            user,
        ),
        spec_trim(line).len() == 0 ==> spec_outgoing_message(line, user) is None,
{
}

/// Every message the server sends is printed on the terminal except a
/// message to everyone, which only goes to the log.
pub proof fn law_printed_unless_message_to_all(
    s: ClientView,
    msg: ServerMessageView,
    user: Seq<char>,
)
    ensures
        spec_take_in(s, msg, user).1 == !(msg is IncomingMessage),
{
}

/// What goes to the log: a line for each whisper, each message to
/// everyone, and each other user's arrival or departure; nothing for the
/// rest.
pub proof fn law_log_lines(s: ClientView, msg: ServerMessageView, user: Seq<char>)
    ensures
        spec_take_in(s, msg, user).0.messages == match msg {
            ServerMessageView::IncomingWhisper { author, message } => s.messages.push(
                "[SERVER]: "@ + author + " => you: "@ + message,
            ),
            ServerMessageView::IncomingMessage { author, message } => s.messages.push(
                author + ": "@ + message,
            ),
            ServerMessageView::SuccessfullyWhispered { recipient, message } => s.messages.push(
                "[SERVER]: You => "@ + recipient + ": "@ + message,
            ),
            ServerMessageView::UserJoined(name) => if name != user {
                s.messages.push("[SERVER]: "@ + name + " has joined the chat."@)
            } else {
                s.messages
            },
            ServerMessageView::UserLeft(name) => if name != user {
                s.messages.push("[SERVER]: "@ + name + " has left the chat."@)
            } else {
                s.messages
            },
            _ => s.messages,
        },
{
}

/// The active users: a successful join takes the server's list; another
/// user's arrival adds that name at the end unless it is already there;
/// another user's departure takes out the first occurrence of that name;
/// nothing else touches the list.
pub proof fn law_active_users(s: ClientView, msg: ServerMessageView, user: Seq<char>)
    requires
        can_take_in(s, msg, user),
    ensures
        ({
            let a = spec_take_in(s, msg, user).0.active_users;
            match msg {
                ServerMessageView::SuccessfullyJoined { active } => a == active,
                ServerMessageView::UserJoined(name) => if name != user
                    && !s.active_users.contains(name) {
                    a == s.active_users.push(name)
                } else {
                    a == s.active_users
                },
                ServerMessageView::UserLeft(name) => if name != user {
                    exists|i: int|
                        0 <= i < s.active_users.len() && s.active_users[i] == name && (forall|
                            k: int,
                        |
                            0 <= k < i ==> s.active_users[k] != name) && a
                            == s.active_users.remove(i)
                } else {
                    a == s.active_users
                },
                _ => a == s.active_users,
            }
        }),
{
    if let ServerMessageView::UserLeft(name) = msg {
        if name != user {
            let a = s.active_users;
            let i = choose|i: int| 0 <= i < a.len() && a[i] == name;
            lemma_first_occurrence(a, name, i);
            let f = choose|f: int|
                0 <= f < a.len() && a[f] == name && forall|k: int| 0 <= k < f ==> a[k] != name;
            lemma_remove_first_at(a, name, f);
        }
    }
}

} // verus!
