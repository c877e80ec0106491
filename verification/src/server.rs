//! The server's decisions: who is in the room, and which message goes to
//! whom when a client joins, speaks, whispers, leaves or disconnects.
//!
//! The room keeps, for each member, the name and the handle (`T`) through
//! which the member is reached; sending stays with the caller, which is
//! handed a list of deliveries.
use vstd::prelude::*;

use crate::message::{ChatMessage, ChatMessageView, ServerMessage, ServerMessageView};
use crate::text::{lemma_string_views_push, string_views};

verus! {

/// Where a message goes: back to the client whose message is being
/// handled, or to a member of the room.
#[derive(Debug, Clone, PartialEq, Eq)]
pub enum Recipient {
    Sender,
    User(String),
}

/// One message to send.
#[derive(Debug, Clone, PartialEq, Eq)]
pub struct Delivery {
    pub to: Recipient,
    pub message: ServerMessage,
}

/// A [`Recipient`] with its name as a character sequence.
pub enum RecipientView {
    Sender,
    User(Seq<char>),
}

/// A [`Delivery`] with its texts as character sequences.
pub struct DeliveryView {
    pub to: RecipientView,
    pub message: ServerMessageView,
}

impl View for Recipient {
    type V = RecipientView;

    open spec fn view(&self) -> RecipientView {
        match self {
            Recipient::Sender => RecipientView::Sender,
            Recipient::User(name) => RecipientView::User(name@),
        }
    }
}

impl View for Delivery {
    type V = DeliveryView;

    open spec fn view(&self) -> DeliveryView {
        DeliveryView { to: self.to@, message: self.message@ }
    }
}

/// The views of a list of deliveries.
pub open spec fn deliveries_view(d: Seq<Delivery>) -> Seq<DeliveryView> {
    d.map_values(|x: Delivery| x@)
}

/// A delivery back to the sender.
pub open spec fn reply(message: ServerMessageView) -> DeliveryView {
    DeliveryView { to: RecipientView::Sender, message }
}

/// A delivery to the member `name`.
pub open spec fn direct(name: Seq<char>, message: ServerMessageView) -> DeliveryView {
    DeliveryView { to: RecipientView::User(name), message }
}

/// The names of the members, in the room's order.
pub open spec fn names_of<T>(e: Seq<(Seq<char>, T)>) -> Seq<Seq<char>> {
    e.map_values(|m: (Seq<char>, T)| m.0)
}

/// `name` belongs to a member.
pub open spec fn has_name<T>(e: Seq<(Seq<char>, T)>, name: Seq<char>) -> bool {
    exists|i: int| 0 <= i < e.len() && #[trigger] e[i].0 == name
}

/// No two members share a name.
pub open spec fn distinct_names<T>(e: Seq<(Seq<char>, T)>) -> bool {
    forall|i: int, j: int| 0 <= i < j < e.len() ==> #[trigger] e[i].0 != #[trigger] e[j].0
}

/// The members other than `name`, in the same order.
pub open spec fn without<T>(e: Seq<(Seq<char>, T)>, name: Seq<char>) -> Seq<(Seq<char>, T)>
    decreases e.len(),
{
    if e.len() == 0 {
        e
    } else {
        let rest = without(e.drop_last(), name);
        if e.last().0 == name {
            rest
        } else {
            rest.push(e.last())
        }
    }
}

/// `message` to each member named in `names`, in that order.
pub open spec fn to_each(names: Seq<Seq<char>>, message: ServerMessageView) -> Seq<DeliveryView> {
    names.map_values(|n: Seq<char>| direct(n, message))
}

/// The name a connection claims with its first message: the name of a
/// `Join`, the empty name for anything else.
pub open spec fn claimed_name(first: ChatMessageView) -> Seq<char> {
    match first {
        ChatMessageView::Join(name) => name,
        _ => Seq::<char>::empty(),
    }
}

/// A connection whose first message is `first`, reached through `handle`,
/// asks to enter the room `e`. It is let in when its name is free: it
/// learns who is in the room, everyone there learns that it joined, and
/// it becomes the last member. Otherwise it is told that the name is
/// taken and the room stays as it was.
/// The result: whether it was let in, the room afterwards, the deliveries.
pub open spec fn spec_join<T>(e: Seq<(Seq<char>, T)>, first: ChatMessageView, handle: T) -> (
    bool,
    Seq<(Seq<char>, T)>,
    Seq<DeliveryView>,
) {
    let name = claimed_name(first);
    if has_name(e, name) {
        (false, e, seq![reply(ServerMessageView::ErrorNameTaken)])
    } else {
        (
            true,
            e.push((name, handle)),
            seq![reply(ServerMessageView::SuccessfullyJoined { active: names_of(e) })] + to_each(
                names_of(e),
                ServerMessageView::UserJoined(name),
            ),
        )
    }
}

/// What the room `e` does with a message from a member:
/// - `Leave(user)`: `user` leaves the room, the others learn it, and the
///   sender is told it has left;
/// - `Text`: every member, the sender too, receives it;
/// - `Whisper`: the recipient receives it and the sender is told so, or,
///   when no member has that name, the sender is told the name is unknown.
/// The result: the room afterwards, the deliveries.
pub open spec fn spec_handle<T>(e: Seq<(Seq<char>, T)>, msg: ChatMessageView) -> (
    Seq<(Seq<char>, T)>,
    Seq<DeliveryView>,
) {
    match msg {
        ChatMessageView::Leave(user) => {
            let rest = without(e, user);
            (
                rest,
                to_each(names_of(rest), ServerMessageView::UserLeft(user)).push(
                    reply(ServerMessageView::Leave),
                ),
            )
        },
        ChatMessageView::Text { author, message } => (
            e,
            to_each(names_of(e), ServerMessageView::IncomingMessage { author, message }),
        ),
        ChatMessageView::Whisper { author, message, recipient } => if has_name(e, recipient) {
            (
                e,
                seq![
                    direct(recipient, ServerMessageView::IncomingWhisper { author, message }),
                    reply(ServerMessageView::SuccessfullyWhispered { recipient, message }),
                ],
            )
        } else {
            (e, seq![reply(ServerMessageView::ErrorUnknownRecipient(recipient))])
        },
        ChatMessageView::Join(_) => (e, Seq::empty()),
    }
}

/// Removing a name that nobody has changes nothing.
pub proof fn lemma_without_absent<T>(e: Seq<(Seq<char>, T)>, name: Seq<char>)
    requires
        !has_name(e, name),
    ensures
        without(e, name) == e,
    decreases e.len(),
{
    if e.len() > 0 {
        let d = e.drop_last();
        assert(!has_name(d, name)) by {
            if has_name(d, name) {
                let i = choose|i: int| 0 <= i < d.len() && #[trigger] d[i].0 == name;
                assert(e[i].0 == name);
            }
        }
        lemma_without_absent(d, name);
        assert(e.last().0 != name) by {
            assert(e[e.len() - 1].0 == e.last().0);
        }
        assert(d.push(e.last()) =~= e);
    }
}

/// With distinct names, removing the name of member `idx` removes exactly
/// that member.
pub proof fn lemma_without_at<T>(e: Seq<(Seq<char>, T)>, name: Seq<char>, idx: int)
    requires
        distinct_names(e),
        0 <= idx < e.len(),
        e[idx].0 == name,
    ensures
        without(e, name) == e.remove(idx),
    decreases e.len(),
{
    let d = e.drop_last();
    assert(distinct_names(d)) by {
        assert forall|i: int, j: int| 0 <= i < j < d.len() implies #[trigger] d[i].0
            != #[trigger] d[j].0 by {
            assert(d[i] == e[i] && d[j] == e[j]);
        }
    }
    if idx == e.len() - 1 {
        assert(!has_name(d, name)) by {
            if has_name(d, name) {
                let i = choose|i: int| 0 <= i < d.len() && #[trigger] d[i].0 == name;
                assert(e[i].0 == e[idx].0);
            }
        }
        lemma_without_absent(d, name);
        assert(e.remove(idx) =~= d);
    } else {
        lemma_without_at(d, name, idx);
        assert(e.last().0 != name) by {
            assert(e[e.len() - 1].0 != e[idx].0);
        }
        assert(d.remove(idx).push(e.last()) =~= e.remove(idx));
    }
}

/// Every member that remains after a removal was a member before, and its
/// name is not the removed one.
pub proof fn lemma_without_members<T>(e: Seq<(Seq<char>, T)>, name: Seq<char>)
    ensures
        forall|k: int|
            0 <= k < without(e, name).len() ==> #[trigger] without(e, name)[k].0 != name
                && e.contains(without(e, name)[k]),
        without(e, name).len() <= e.len(),
    decreases e.len(),
{
    if e.len() > 0 {
        let d = e.drop_last();
        lemma_without_members(d, name);
        let r = without(d, name);
        let w = without(e, name);
        assert forall|k: int| 0 <= k < w.len() implies #[trigger] w[k].0 != name && e.contains(
            w[k],
        ) by {
            if k < r.len() {
                assert(w[k] == r[k]);
                assert(r[k].0 != name);
                assert(d.contains(r[k]));
                let i = choose|i: int| 0 <= i < d.len() && d[i] == r[k];
                assert(e[i] == d[i]);
            } else {
                assert(e.last().0 != name);
                assert(w[k] == e.last());
                assert(e[e.len() - 1] == e.last());
            }
        }
    }
}

/// Distinct names stay distinct when a name is removed.
pub proof fn lemma_without_distinct<T>(e: Seq<(Seq<char>, T)>, name: Seq<char>)
    requires
        distinct_names(e),
    ensures
        distinct_names(without(e, name)),
        !has_name(without(e, name), name),
{
    let r = without(e, name);
    lemma_without_members(e, name);
    if has_name(e, name) {
        let idx = choose|i: int| 0 <= i < e.len() && #[trigger] e[i].0 == name;
        lemma_without_at(e, name, idx);
        assert forall|i: int, j: int| 0 <= i < j < r.len() implies #[trigger] r[i].0
            != #[trigger] r[j].0 by {
            let a = if i < idx { i } else { i + 1 };
            let b = if j < idx { j } else { j + 1 };
            assert(r[i] == e[a] && r[j] == e[b]);
        }
    } else {
        lemma_without_absent(e, name);
    }
    assert(!has_name(r, name)) by {
        if has_name(r, name) {
            let k = choose|k: int| 0 <= k < r.len() && #[trigger] r[k].0 == name;
            assert(r[k].0 != name);
        }
    }
}

/// A copy of `names`.
pub fn copy_strings(names: &Vec<String>) -> (res: Vec<String>)
    ensures
        string_views(res@) == string_views(names@),
{
    let mut res: Vec<String> = Vec::new();
    for i in 0..names.len()
        invariant
            string_views(res@) == string_views(names@).take(i as int),
    {
        let ghost prev = res@;
        let name = names[i].clone();
        res.push(name);
        proof {
            lemma_string_views_push(prev, name);
            assert(string_views(names@).take(i + 1) =~= string_views(names@).take(i as int).push(
                names@[i as int]@,
            ));
        }
    }
    proof {
        assert(string_views(names@).take(names@.len() as int) =~= string_views(names@));
    }
    res
}

/// A copy of `m`.
pub fn copy_server_message(m: &ServerMessage) -> (res: ServerMessage)
    ensures
        res@ == m@,
{
    match m {
        ServerMessage::ErrorNameTaken => ServerMessage::ErrorNameTaken,
        ServerMessage::ErrorUnknownRecipient(r) => ServerMessage::ErrorUnknownRecipient(r.clone()),
        ServerMessage::IncomingWhisper { author, message } => ServerMessage::IncomingWhisper {
            author: author.clone(),
            message: message.clone(),
        },
        ServerMessage::IncomingMessage { author, message } => ServerMessage::IncomingMessage {
            author: author.clone(),
            message: message.clone(),
        },
        ServerMessage::SuccessfullyWhispered { recipient, message } =>
            ServerMessage::SuccessfullyWhispered {
            recipient: recipient.clone(),
            message: message.clone(),
        },
        ServerMessage::SuccessfullyJoined { active } => ServerMessage::SuccessfullyJoined {
            active: copy_strings(active),
        },
        ServerMessage::UserLeft(n) => ServerMessage::UserLeft(n.clone()),
        ServerMessage::UserJoined(n) => ServerMessage::UserJoined(n.clone()),
        ServerMessage::Leave => ServerMessage::Leave,
    }
}

/// The outcome of a connection's request to enter the room.
pub struct Admission {
    /// The name the connection claimed.
    pub username: String,
    /// Whether it was let in.
    pub accepted: bool,
    /// What to send, in order.
    pub deliveries: Vec<Delivery>,
}

/// The members of the chat room, each reached through a handle of type `T`.
pub struct ChatRoom<T> {
    members: Vec<(String, T)>,
}

impl<T> ChatRoom<T> {
    /// The members, in the order they joined, names as character sequences.
    pub closed spec fn entries(self) -> Seq<(Seq<char>, T)> {
        self.members@.map_values(|m: (String, T)| (m.0@, m.1))
    }

    /// The names of the members, in the order they joined.
    pub open spec fn names(self) -> Seq<Seq<char>> {
        names_of(self.entries())
    }

    #[verifier::type_invariant]
    closed spec fn names_are_distinct(self) -> bool {
        distinct_names(self.entries())
    }

    /// An empty room.
    pub fn new() -> (res: Self)
        ensures
            res.entries() == Seq::<(Seq<char>, T)>::empty(),
            distinct_names(res.entries()),
    {
        let res = ChatRoom { members: Vec::new() };
        assert(res.entries() =~= Seq::<(Seq<char>, T)>::empty());
        res
    }

    /// The number of members.
    pub fn len(&self) -> (res: usize)
        ensures
            res == self.entries().len(),
    {
        self.members.len()
    }

    /// Where `name` stands among the members.
    fn position(&self, name: &String) -> (res: Option<usize>)
        ensures
            res matches Some(i) ==> i < self.entries().len() && self.entries()[i as int].0
                == name@,
            res is None ==> !has_name(self.entries(), name@),
    {
        let mut i: usize = 0;
        while i < self.members.len()
            invariant
                i <= self.members@.len(),
                forall|k: int| 0 <= k < i ==> #[trigger] self.entries()[k].0 != name@,
            decreases self.members@.len() - i,
        {
            if self.members[i].0 == *name {
                return Some(i);
            }
            i = i + 1;
        }
        proof {
            if has_name(self.entries(), name@) {
                let k = choose|k: int|
                    0 <= k < self.entries().len() && #[trigger] self.entries()[k].0 == name@;
                assert(self.entries()[k].0 != name@);
            }
        }
        None
    }

    /// Whether a member is called `name`.
    pub fn contains(&self, name: &String) -> (res: bool)
        ensures
            res == has_name(self.entries(), name@),
    {
        self.position(name).is_some()
    }

    /// The handle of the member called `name`, if there is one.
    pub fn handle_of(&self, name: &String) -> (res: Option<&T>)
        ensures
            res is Some <==> has_name(self.entries(), name@),
            res matches Some(h) ==> self.entries().contains((name@, *h)),
    {
        match self.position(name) {
            Some(i) => {
                proof {
                    assert(self.entries()[i as int] == (name@, self.members@[i as int].1));
                }
                Some(&self.members[i].1)
            },
            None => None,
        }
    }

    /// The names of the members, in the room's order.
    pub fn member_names(&self) -> (res: Vec<String>)
        ensures
            string_views(res@) == self.names(),
    {
        let mut res: Vec<String> = Vec::new();
        for i in 0..self.members.len()
            invariant
                string_views(res@) == self.names().take(i as int),
        {
            let ghost prev = res@;
            let name = self.members[i].0.clone();
            res.push(name);
            proof {
                lemma_string_views_push(prev, name);
                assert(self.names()[i as int] == self.members@[i as int].0@);
                assert(self.names().take(i + 1) =~= self.names().take(i as int).push(
                    self.names()[i as int],
                ));
            }
        }
        proof {
            assert(self.names().take(self.members@.len() as int) =~= self.names());
        }
        res
    }

    /// `message` addressed to each member, in the room's order.
    fn to_everyone(&self, message: &ServerMessage) -> (res: Vec<Delivery>)
        ensures
            deliveries_view(res@) == to_each(self.names(), message@),
    {
        let mut res: Vec<Delivery> = Vec::new();
        for i in 0..self.members.len()
            invariant
                deliveries_view(res@) == to_each(self.names().take(i as int), message@),
        {
            let d = Delivery {
                to: Recipient::User(self.members[i].0.clone()),
                message: copy_server_message(message),
            };
            let ghost prev = res@;
            res.push(d);
            proof {
                assert(self.names()[i as int] == self.members@[i as int].0@);
                assert(self.names().take(i + 1) =~= self.names().take(i as int).push(
                    self.names()[i as int],
                ));
                assert(deliveries_view(res@) =~= deliveries_view(prev).push(d@));
                assert(to_each(self.names().take(i + 1), message@) =~= to_each(
                    self.names().take(i as int),
                    message@,
                ).push(direct(self.names()[i as int], message@)));
            }
        }
        proof {
            assert(self.names().take(self.members@.len() as int) =~= self.names());
        }
        res
    }

    /// Takes the member called `name` out of the room, if there is one.
    fn remove_member(&mut self, name: &String)
        ensures
            final(self).entries() == without(old(self).entries(), name@),
    {
        proof {
            use_type_invariant(&*self);
        }
        match self.position(name) {
            Some(i) => {
                proof {
                    lemma_without_at(self.entries(), name@, i as int);
                    lemma_without_distinct(self.entries(), name@);
                }
                let ghost before = self.entries();
                let mut members = Vec::new();
                std::mem::swap(&mut members, &mut self.members);
                members.remove(i);
                proof {
                    assert(members@.map_values(|m: (String, T)| (m.0@, m.1)) =~= before.remove(
                        i as int,
                    ));
                }
                self.members = members;
            },
            None => {
                proof {
                    lemma_without_absent(self.entries(), name@);
                }
            },
        }
    }

    /// A connection whose first message is `first` and which is reached
    /// through `handle` asks to enter (see [`spec_join`]).
    pub fn join(&mut self, first: ChatMessage, handle: T) -> (res: Admission)
        ensures
            res.username@ == claimed_name(first@),
            (res.accepted, final(self).entries(), deliveries_view(res.deliveries@)) == spec_join(
                old(self).entries(),
                first@,
                handle,
            ),
            distinct_names(final(self).entries()),
    {
        proof {
            use_type_invariant(&*self);
        }
        let username = match first {
            ChatMessage::Join(name) => name,
            _ => String::new(),
        };
        if self.contains(&username) {
            let mut deliveries = Vec::new();
            deliveries.push(Delivery { to: Recipient::Sender, message: ServerMessage::ErrorNameTaken });
            proof {
                assert(deliveries_view(deliveries@) =~= seq![
                    reply(ServerMessageView::ErrorNameTaken),
                ]);
            }
            proof {
                use_type_invariant(&*self);
            }
            return Admission { username, accepted: false, deliveries };
        }
        let active = self.member_names();
        let mut deliveries = Vec::new();
        deliveries.push(
            Delivery { to: Recipient::Sender, message: ServerMessage::SuccessfullyJoined { active } },
        );
        let announced = ServerMessage::UserJoined(username.clone());
        let mut others = self.to_everyone(&announced);
        deliveries.append(&mut others);
        let ghost before = self.entries();
        let mut members = Vec::new();
        std::mem::swap(&mut members, &mut self.members);
        members.push((username.clone(), handle));
        proof {
            let after = members@.map_values(|m: (String, T)| (m.0@, m.1));
            assert(after =~= before.push((username@, handle)));
            assert forall|i: int, j: int| 0 <= i < j < after.len() implies #[trigger] after[i].0
                != #[trigger] after[j].0 by {
                if j == after.len() - 1 {
                    assert(before[i].0 == after[i].0);
                } else {
                    assert(before[i] == after[i] && before[j] == after[j]);
                }
            }
        }
        self.members = members;
        proof {
            assert(deliveries_view(deliveries@) =~= spec_join(before, first@, handle).2);
            use_type_invariant(&*self);
        }
        Admission { username, accepted: true, deliveries }
    }

    /// Handles a message from a member of the room (see [`spec_handle`]).
    /// A `Join` after the first message is not handled.
    pub fn handle_message(&mut self, msg: ChatMessage) -> (res: Vec<Delivery>)
        requires
            !(msg is Join),
        ensures
            (final(self).entries(), deliveries_view(res@)) == spec_handle(
                old(self).entries(),
                msg@,
            ),
            distinct_names(final(self).entries()),
    {
        proof {
            use_type_invariant(&*self);
        }
        match msg {
            ChatMessage::Leave(user) => {
                self.remove_member(&user);
                proof {
                    use_type_invariant(&*self);
                }
                let mut res = self.to_everyone(&ServerMessage::UserLeft(user));
                res.push(Delivery { to: Recipient::Sender, message: ServerMessage::Leave });
                proof {
                    assert(deliveries_view(res@) =~= spec_handle(old(self).entries(), msg@).1);
                }
                res
            },
            ChatMessage::Text { author, message } => {
                self.to_everyone(&ServerMessage::IncomingMessage { author, message })
            },
            ChatMessage::Whisper { author, message, recipient } => {
                let mut res = Vec::new();
                if self.contains(&recipient) {
                    res.push(
                        Delivery {
                            to: Recipient::User(recipient.clone()),
                            message: ServerMessage::IncomingWhisper {
                                author,
                                message: message.clone(),
                            },
                        },
                    );
                    res.push(
                        Delivery {
                            to: Recipient::Sender,
                            message: ServerMessage::SuccessfullyWhispered { recipient, message },
                        },
                    );
                } else {
                    res.push(
                        Delivery {
                            to: Recipient::Sender,
                            message: ServerMessage::ErrorUnknownRecipient(recipient),
                        },
                    );
                }
                proof {
                    assert(deliveries_view(res@) =~= spec_handle(old(self).entries(), msg@).1);
                }
                res
            },
            ChatMessage::Join(_) => Vec::new(),
        }
    }

    /// The connection of the member called `name` closed: it is no longer
    /// in the room.
    pub fn disconnect(&mut self, name: &String)
        ensures
            final(self).entries() == without(old(self).entries(), name@),
            distinct_names(final(self).entries()),
    {
        self.remove_member(name);
        proof {
            use_type_invariant(&*self);
        }
    }
}

/// A member whose name is not the removed one stays.
proof fn lemma_without_keeps<T>(e: Seq<(Seq<char>, T)>, name: Seq<char>, i: int)
    requires
        0 <= i < e.len(),
        e[i].0 != name,
    ensures
        without(e, name).contains(e[i]),
    decreases e.len(),
{
    let d = e.drop_last();
    if i == e.len() - 1 {
        assert(without(e, name)[without(e, name).len() - 1] == e[i]);
    } else {
        lemma_without_keeps(d, name, i);
        assert(d[i] == e[i]);
        let k = choose|k: int| 0 <= k < without(d, name).len() && without(d, name)[k] == e[i];
        assert(without(e, name)[k] == e[i]);
    }
}

/// A connection is refused exactly when its name is taken; a refused
/// connection is told so and nothing else, and the room stays as it was.
pub proof fn law_join_refused_iff_taken<T>(e: Seq<(Seq<char>, T)>, first: ChatMessageView, handle: T)
    ensures
        !spec_join(e, first, handle).0 <==> has_name(e, claimed_name(first)),
        !spec_join(e, first, handle).0 ==> spec_join(e, first, handle).1 == e
            && spec_join(e, first, handle).2 == seq![reply(ServerMessageView::ErrorNameTaken)],
{
}

/// Names stay distinct whatever the room does.
pub proof fn law_names_stay_distinct<T>(
    e: Seq<(Seq<char>, T)>,
    first: ChatMessageView,
    handle: T,
    msg: ChatMessageView,
    name: Seq<char>,
)
    requires
        distinct_names(e),
    ensures
        distinct_names(spec_join(e, first, handle).1),
        distinct_names(spec_handle(e, msg).0),
        distinct_names(without(e, name)),
{
    lemma_without_distinct(e, name);
    if let ChatMessageView::Leave(user) = msg {
        lemma_without_distinct(e, user);
    }
    let n = claimed_name(first);
    if !has_name(e, n) {
        let f = e.push((n, handle));
        assert forall|i: int, j: int| 0 <= i < j < f.len() implies #[trigger] f[i].0
            != #[trigger] f[j].0 by {
            if j == f.len() - 1 {
                assert(f[i] == e[i]);
            } else {
                assert(f[i] == e[i] && f[j] == e[j]);
            }
        }
    }
}

/// A member who joins and then disconnects leaves the room as it was.
pub proof fn law_join_then_disconnect<T>(e: Seq<(Seq<char>, T)>, first: ChatMessageView, handle: T)
    requires
        spec_join(e, first, handle).0,
    ensures
        without(spec_join(e, first, handle).1, claimed_name(first)) == e,
{
    let n = claimed_name(first);
    let f = e.push((n, handle));
    assert(f.drop_last() =~= e);
    lemma_without_absent(e, n);
}

/// After `Leave(user)`, nobody in the room is called `user`, and everyone
/// else who was there is still there.
pub proof fn law_leave_removes_only_the_leaver<T>(e: Seq<(Seq<char>, T)>, user: Seq<char>)
    ensures
        !has_name(spec_handle(e, ChatMessageView::Leave(user)).0, user),
        forall|i: int|
            0 <= i < e.len() && #[trigger] e[i].0 != user ==> spec_handle(
                e,
                ChatMessageView::Leave(user),
            ).0.contains(e[i]),
        spec_handle(e, ChatMessageView::Leave(user)).1.last() == reply(ServerMessageView::Leave),
{
    let r = without(e, user);
    lemma_without_members(e, user);
    assert(!has_name(r, user)) by {
        if has_name(r, user) {
            let k = choose|k: int| 0 <= k < r.len() && #[trigger] r[k].0 == user;
            assert(r[k].0 != user);
        }
    }
    assert forall|i: int| 0 <= i < e.len() && #[trigger] e[i].0 != user implies r.contains(
        e[i],
    ) by {
        lemma_without_keeps(e, user, i);
    }
}

/// Only a `Leave` changes who is in the room.
pub proof fn law_only_leave_changes_room<T>(e: Seq<(Seq<char>, T)>, msg: ChatMessageView)
    requires
        !(msg is Leave),
    ensures
        spec_handle(e, msg).0 == e,
{
}

/// A message to everyone reaches each member once, in the room's order.
pub proof fn law_text_reaches_each_member<T>(
    e: Seq<(Seq<char>, T)>,
    author: Seq<char>,
    message: Seq<char>,
)
    ensures
        ({
            let d = spec_handle(e, ChatMessageView::Text { author, message }).1;
            &&& d.len() == e.len()
            &&& forall|i: int|
                0 <= i < e.len() ==> #[trigger] d[i] == direct(
                    e[i].0,
                    ServerMessageView::IncomingMessage { author, message },
                )
        }),
{
}

/// Once a connection is let in under a name, a whisper to that name is
/// delivered to it and the whisperer is told so.
pub proof fn law_whisper_reaches_new_member<T>(
    e: Seq<(Seq<char>, T)>,
    first: ChatMessageView,
    handle: T,
    author: Seq<char>,
    message: Seq<char>,
)
    requires
        spec_join(e, first, handle).0,
    ensures
        spec_handle(
            spec_join(e, first, handle).1,
            ChatMessageView::Whisper { author, message, recipient: claimed_name(first) },
        ).1 == seq![
            direct(claimed_name(first), ServerMessageView::IncomingWhisper { author, message }),
            reply(
                ServerMessageView::SuccessfullyWhispered { recipient: claimed_name(first), message },
            ),
        ],
{
    let f = spec_join(e, first, handle).1;
    assert(f[f.len() - 1].0 == claimed_name(first));
}

/// A whisper is routed by looking at every member: when some member, at
/// any place in the room, bears the recipient's name, the recipient gets
/// the whisper and the whisperer is told it was delivered; when none does,
/// the whisperer alone is told that the name is unknown. The room does not
/// change either way.
pub proof fn law_whisper_routing<T>(
    e: Seq<(Seq<char>, T)>,
    author: Seq<char>,
    message: Seq<char>,
    recipient: Seq<char>,
)
    ensures
        ({
            let (room, sent) = spec_handle(
                e,
                ChatMessageView::Whisper { author, message, recipient },
            );
            &&& room == e
            &&& (exists|i: int| 0 <= i < e.len() && #[trigger] e[i].0 == recipient) ==> sent
                == seq![
                DeliveryView {
                    to: RecipientView::User(recipient),
                    message: ServerMessageView::IncomingWhisper { author, message },
                },
                DeliveryView {
                    to: RecipientView::Sender,
                    message: ServerMessageView::SuccessfullyWhispered { recipient, message },
                },
            ]
            &&& (forall|i: int| 0 <= i < e.len() ==> #[trigger] e[i].0 != recipient) ==> sent
                == seq![
                DeliveryView {
                    to: RecipientView::Sender,
                    message: ServerMessageView::ErrorUnknownRecipient(recipient),
                },
            ]
        }),
{
}

/// A whisper to any member of a room, wherever that member stands, is
/// delivered to that member.
pub proof fn law_whisper_to_any_member<T>(
    e: Seq<(Seq<char>, T)>,
    i: int,
    author: Seq<char>,
    message: Seq<char>,
)
    requires
        0 <= i < e.len(),
    ensures
        spec_handle(e, ChatMessageView::Whisper { author, message, recipient: e[i].0 }).1[0]
            == (DeliveryView {
            to: RecipientView::User(e[i].0),
            message: ServerMessageView::IncomingWhisper { author, message },
        }),
{
    law_whisper_routing(e, author, message, e[i].0);
}

/// Entering is refused exactly when some member already bears the name.
/// A refused connection is told the name is taken and nothing else, and the
/// room is unchanged. An accepted one is told who was there, each member
/// there (in order) hears of its arrival, and it becomes the last member.
pub proof fn law_join_outcome<T>(e: Seq<(Seq<char>, T)>, name: Seq<char>, handle: T)
    ensures
        ({
            let (accepted, room, sent) = spec_join(e, ChatMessageView::Join(name), handle);
            &&& accepted <==> forall|i: int| 0 <= i < e.len() ==> #[trigger] e[i].0 != name
            &&& !accepted ==> room == e && sent == seq![
                DeliveryView { to: RecipientView::Sender, message: ServerMessageView::ErrorNameTaken },
            ]
            &&& accepted ==> {
                &&& room == e.push((name, handle))
                &&& sent.len() == e.len() + 1
                &&& sent[0] == DeliveryView {
                    to: RecipientView::Sender,
                    message: ServerMessageView::SuccessfullyJoined {
                        active: Seq::new(e.len(), |k: int| e[k].0),
                    },
                }
                &&& forall|k: int|
                    0 <= k < e.len() ==> #[trigger] sent[k + 1] == DeliveryView {
                        to: RecipientView::User(e[k].0),
                        message: ServerMessageView::UserJoined(name),
                    }
            }
        }),
{
    let (accepted, room, sent) = spec_join(e, ChatMessageView::Join(name), handle);
    if accepted {
        assert(names_of(e) =~= Seq::new(e.len(), |k: int| e[k].0));
        assert forall|k: int| 0 <= k < e.len() implies #[trigger] sent[k + 1] == DeliveryView {
            to: RecipientView::User(e[k].0),
            message: ServerMessageView::UserJoined(name),
        } by {
            assert(sent[k + 1] == to_each(names_of(e), ServerMessageView::UserJoined(name))[k]);
        }
    } else {
        let j = choose|j: int| 0 <= j < e.len() && #[trigger] e[j].0 == name;
        assert(!(forall|i: int| 0 <= i < e.len() ==> #[trigger] e[i].0 != name)) by {
            assert(e[j].0 == name);
        }
    }
}

/// When `user` leaves, the room afterwards holds exactly the members whose
/// name is not `user`, each of them hears once that `user` left, in the
/// room's order, and last the sender is told it has left.
pub proof fn law_leave_deliveries<T>(e: Seq<(Seq<char>, T)>, user: Seq<char>)
    ensures
        ({
            let (room, sent) = spec_handle(e, ChatMessageView::Leave(user));
            &&& forall|k: int| 0 <= k < room.len() ==> #[trigger] room[k].0 != user && e.contains(
                room[k],
            )
            &&& forall|i: int| 0 <= i < e.len() && #[trigger] e[i].0 != user ==> room.contains(e[i])
            &&& sent.len() == room.len() + 1
            &&& forall|k: int|
                0 <= k < room.len() ==> #[trigger] sent[k] == DeliveryView {
                    to: RecipientView::User(room[k].0),
                    message: ServerMessageView::UserLeft(user),
                }
            &&& sent[room.len() as int] == DeliveryView {
                to: RecipientView::Sender,
                message: ServerMessageView::Leave,
            }
        }),
{
    lemma_without_members(e, user);
    law_leave_removes_only_the_leaver(e, user);
}

/// A disconnection takes out exactly the members bearing the name, keeping
/// the others in their order.
pub proof fn law_disconnect_keeps_others<T>(e: Seq<(Seq<char>, T)>, name: Seq<char>)
    requires
        distinct_names(e),
    ensures
        forall|i: int| 0 <= i < e.len() && #[trigger] e[i].0 == name ==> without(e, name)
            == e.remove(i),
        (forall|i: int| 0 <= i < e.len() ==> #[trigger] e[i].0 != name) ==> without(e, name) == e,
{
    assert forall|i: int| 0 <= i < e.len() && #[trigger] e[i].0 == name implies without(e, name)
        == e.remove(i) by {
        lemma_without_at(e, name, i);
    }
    if forall|i: int| 0 <= i < e.len() ==> #[trigger] e[i].0 != name {
        lemma_without_absent(e, name);
    }
}

/// A connection whose first message is not a `Join` is treated as one
/// joining under the empty name.
pub proof fn law_first_message_not_join<T>(
    e: Seq<(Seq<char>, T)>,
    first: ChatMessageView,
    handle: T,
)
    requires
        !(first is Join),
    ensures
        spec_join(e, first, handle) == spec_join(
            e,
            ChatMessageView::Join(Seq::<char>::empty()),
            handle,
        ),
{
}

} // verus!
