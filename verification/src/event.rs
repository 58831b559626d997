//! What happens to the client.
use crate::account::{Account, BareJid, ConnectionInfo, FullJid, Jid, Password};
use crate::message::Message;
use crate::stanza::{Element, Iq, StanzaError, XmppMessage};
use std::collections::HashMap;
use std::collections::VecDeque;
use vstd::prelude::*;

verus! {

/// A point in time, with the offset of the clock that told it.
#[derive(Debug, Clone, Copy, PartialEq, Eq, Structural)]
pub struct Timestamp {
    /// Seconds since the start of 1970, UTC.
    pub seconds: i64,
    /// Nanoseconds after that second.
    pub nanos: u32,
    /// The offset from UTC in seconds, to the east.
    pub offset: i32,
}

/// When and by whom a message was held back.
#[derive(Debug, Clone)]
pub struct Delay {
    /// Who held it back.
    pub from: Option<Jid>,
    /// When it first came.
    pub stamp: Timestamp,
    /// Why it was held back.
    pub reason: Option<String>,
}

/// An event.
#[derive(Clone)]
pub enum Event {
    /// The client starts.
    Start,
    /// The user wants to connect.
    Connect(ConnectionInfo, Password),
    /// An account is connected, under the address that the server gave it.
    Connected(Account, Jid),
    /// An account lost its connection.
    Disconnected(Account, String),
    /// The server turned an account away.
    AuthError(Account, String),
    /// A stanza came.
    Stanza(Account, Element),
    /// A message came, from the stream or from an archive.
    RawMessage {
        /// The account that it came for.
        account: Account,
        /// The message.
        message: XmppMessage,
        /// When it was held back, if it was.
        delay: Option<Delay>,
        /// Whether it comes from an archive.
        archive: bool,
    },
    /// The user sends a message.
    SendMessage(Account, Message),
    /// There is a message to show.
    Message(Option<Account>, Message),
    /// The user opens a chat.
    Chat {
        /// The account to chat with.
        account: Account,
        /// Whom to chat with.
        contact: BareJid,
    },
    /// A channel is to be joined.
    Join {
        /// The account that joins.
        account: FullJid,
        /// The channel, with a nickname or without.
        channel: Jid,
        /// Whether the user asked for it.
        user_request: bool,
    },
    /// A channel was joined.
    Joined {
        /// The account that joined.
        account: FullJid,
        /// The channel, with the nickname.
        channel: FullJid,
        /// Whether the user asked for it.
        user_request: bool,
    },
    /// A request came, or an answer to one.
    Iq(Account, Iq),
    /// A request of the client was answered.
    IqResult {
        /// The account that asked.
        account: Account,
        /// The request.
        uuid: u128,
        /// Who answered.
        from: Option<Jid>,
        /// The answer.
        payload: Option<Element>,
    },
    /// A request of the client failed.
    IqError {
        /// The account that asked.
        account: Account,
        /// The request.
        uuid: u128,
        /// Who answered.
        from: Option<Jid>,
        /// Why it failed.
        payload: StanzaError,
    },
    /// The features of a server are known.
    Disco(Account, Vec<String>),
    /// Something was published.
    PubSub {
        /// The account that it came for.
        account: Account,
        /// Where it was published.
        from: Option<Jid>,
        /// What was published.
        event: Element,
    },
    /// A presence came.
    Presence(Account, Element),
    /// A window is to be opened.
    Win(String),
    /// A window is to be closed.
    Close(String),
    /// The terminal changed its size.
    WindowChange,
    /// The history of a channel is wanted.
    LoadChannelHistory {
        /// The account to ask with.
        account: Account,
        /// The channel.
        jid: BareJid,
        /// From when on.
        from: Option<Timestamp>,
    },
    /// The history of a chat is wanted.
    LoadChatHistory {
        /// The account to ask with.
        account: Account,
        /// The contact.
        contact: BareJid,
        /// From when on.
        from: Option<Timestamp>,
    },
    /// The client is to end.
    Quit,
    /// A completion is over.
    ResetCompletion,
    /// Another window is to be shown.
    ChangeWindow(String),
    /// A channel has a subject, in one or more languages.
    Subject(Account, Jid, HashMap<String, String>),
}

impl Event {
    /// Whether the event goes before others that came with it.
    pub open spec fn is_priority(self) -> bool {
        self is ChangeWindow || self is Quit
    }

    /// Whether the event goes before others that came with it.
    pub fn has_priority(&self) -> (r: bool)
        ensures
            r == self.is_priority(),
    {
        match self {
            Event::ChangeWindow(_) => true,
            Event::Quit => true,
            _ => false,
        }
    }
}

/// The events that go before others.
pub open spec fn priority_of(events: Seq<Event>) -> Seq<Event> {
    events.filter(|event: Event| event.is_priority())
}

/// The events that wait for their turn.
pub open spec fn ordinary_of(events: Seq<Event>) -> Seq<Event> {
    events.filter(|event: Event| !event.is_priority())
}

/// Parts the events that go before others from those that wait for their turn. Each part keeps the
/// order in which its events came.
pub fn split_priority(events: Vec<Event>) -> (r: (VecDeque<Event>, VecDeque<Event>))
    ensures
        r.0@ == priority_of(events@),
        r.1@ == ordinary_of(events@),
{
    let ghost all = events@;
    let mut events = events;
    let mut priority: VecDeque<Event> = VecDeque::new();
    let mut ordinary: VecDeque<Event> = VecDeque::new();
    assert(priority_of(all) + priority@ =~= priority_of(all));
    assert(ordinary_of(all) + ordinary@ =~= ordinary_of(all));
    while events.len() > 0
        invariant
            priority_of(all) == priority_of(events@) + priority@,
            ordinary_of(all) == ordinary_of(events@) + ordinary@,
        decreases events@.len(),
    {
        let ghost before = events@;
        match events.pop() {
            Some(event) => {
                assert(before.drop_last() =~= events@ && before.last() == event);
                reveal(Seq::filter);
                if event.has_priority() {
                    priority.push_front(event);
                } else {
                    ordinary.push_front(event);
                }
                assert(priority_of(all) =~= priority_of(events@) + priority@);
                assert(ordinary_of(all) =~= ordinary_of(events@) + ordinary@);
            },
            None => {},
        }
    }
    reveal(Seq::filter);
    assert(priority_of(all) =~= priority@);
    assert(ordinary_of(all) =~= ordinary@);
    (priority, ordinary)
}

} // verus!
