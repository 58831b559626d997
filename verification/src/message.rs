//! Messages as the client shows and sends them.
use crate::account::BareJid;
use crate::stanza::Element;
use vstd::prelude::*;

verus! {

/// A message.
#[derive(Debug)]
pub enum Message {
    /// A line of the client's own log.
    Log(String),
    /// A message to or from somebody.
    Xmpp {
        /// The stanza that it is sent as.
        element: Element,
        /// For whom it is to be encrypted, where it is.
        recipient: Option<BareJid>,
    },
}

impl Message {
    /// A line of the log.
    pub fn log(body: String) -> (r: Message)
        ensures
            r == Message::Log(body),
    {
        Message::Log(body)
    }

    /// For whom the message is to be encrypted. A line of the log goes to nobody.
    pub open spec fn recipient(self) -> Option<BareJid> {
        match self {
            Message::Log(_) => None,
            Message::Xmpp { element, recipient } => recipient,
        }
    }

    /// For whom the message is to be encrypted.
    pub fn encryption_recipient(&self) -> (r: Option<BareJid>)
        ensures
            r == self.recipient(),
    {
        match self {
            Message::Log(_) => None,
            Message::Xmpp { element: _, recipient } => match recipient {
                Some(recipient) => Some(recipient.clone()),
                None => None,
            },
        }
    }

    /// The stanza that the message is sent as. A line of the log is not sent.
    pub fn to_element(self) -> (r: Result<Element, String>)
        ensures
            match self {
                Message::Log(_) => r matches Err(reason) && reason@
                    == "a line of the log is no stanza"@,
                Message::Xmpp { element, recipient } => r == Ok::<Element, String>(element),
            },
    {
        match self {
            Message::Log(_) => Err("a line of the log is no stanza".to_owned()),
            Message::Xmpp { element, recipient: _ } => Ok(element),
        }
    }
}

impl Clone for Message {
    fn clone(&self) -> (r: Self)
        ensures
            r == *self,
    {
        match self {
            Message::Log(body) => Message::Log(body.clone()),
            Message::Xmpp { element, recipient } => Message::Xmpp {
                element: element.clone(),
                recipient: match recipient {
                    Some(recipient) => Some(recipient.clone()),
                    None => None,
                },
            },
        }
    }
}

} // verus!
