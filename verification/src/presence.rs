//! The presences that the client sends.
use crate::account::text_view;
use crate::stanza::Element;
use minidom::Element as Dom;
use vstd::prelude::*;
use xmpp_parsers::caps::Caps;
use xmpp_parsers::hashes::Hash as CapsHash;
use xmpp_parsers::muc::Muc;
use xmpp_parsers::presence::Presence as XmppPresence;
use xmpp_parsers::Error as ParseError;

verus! {

/// What a presence carries.
#[derive(Debug)]
pub enum PresencePayload {
    /// The wish to join a channel.
    Muc,
    /// What the client can do.
    Caps {
        /// The application.
        node: String,
        /// The name of the hash function.
        algo: String,
        /// The hash of the capabilities.
        hash: Vec<u8>,
    },
}

/// What a presence carries.
pub enum PresencePayloadView {
    /// The wish to join a channel.
    Muc,
    /// What the client can do.
    Caps {
        /// The application.
        node: Seq<char>,
        /// The name of the hash function.
        algo: Seq<char>,
        /// The hash of the capabilities.
        hash: Seq<u8>,
    },
}

impl View for PresencePayload {
    type V = PresencePayloadView;

    open spec fn view(&self) -> PresencePayloadView {
        match self {
            PresencePayload::Muc => PresencePayloadView::Muc,
            PresencePayload::Caps { node, algo, hash } => PresencePayloadView::Caps {
                node: node@,
                algo: algo@,
                hash: hash@,
            },
        }
    }
}

/// A presence to send.
#[derive(Debug)]
pub struct Presence {
    /// The type, by its name, where it has one.
    pub type_: Option<String>,
    /// The sender, as it is written.
    pub from: Option<String>,
    /// The recipient, as it is written.
    pub to: Option<String>,
    /// The availability, by its name.
    pub show: Option<String>,
    /// What the presence carries.
    pub payloads: Vec<PresencePayload>,
}

/// A presence to send.
pub struct PresenceView {
    /// The type, by its name, where it has one.
    pub type_: Option<Seq<char>>,
    /// The sender, as it is written.
    pub from: Option<Seq<char>>,
    /// The recipient, as it is written.
    pub to: Option<Seq<char>>,
    /// The availability, by its name.
    pub show: Option<Seq<char>>,
    /// What the presence carries.
    pub payloads: Seq<PresencePayloadView>,
}

impl View for Presence {
    type V = PresenceView;

    open spec fn view(&self) -> PresenceView {
        PresenceView {
            type_: text_view(self.type_),
            from: text_view(self.from),
            to: text_view(self.to),
            show: text_view(self.show),
            payloads: self.payloads@.map_values(|payload: PresencePayload| payload@),
        }
    }
}

/// Whether the character may stand in XML.
pub open spec fn xml_char(c: char) -> bool {
    c == '\t' || c == '\n' || c == '\r' || (' ' <= c && c != '\u{fffe}' && c != '\u{ffff}')
}

/// Whether every character may stand in XML.
pub open spec fn xml_text(text: Seq<char>) -> bool {
    forall|i: int| 0 <= i < text.len() ==> xml_char(#[trigger] text[i])
}

/// Whether every character of the text, where there is one, may stand in XML.
pub open spec fn xml_option(text: Option<Seq<char>>) -> bool {
    text is Some ==> xml_text(text->0)
}

/// Whether the texts of the payload may stand in XML.
pub open spec fn payload_text(payload: PresencePayloadView) -> bool {
    payload matches PresencePayloadView::Caps { node, algo, hash } ==> xml_text(node) && xml_text(
        algo,
    )
}

/// Whether the texts of the presence may stand in XML.
pub open spec fn presence_text(presence: PresenceView) -> bool {
    &&& xml_option(presence.from)
    &&& xml_option(presence.to)
    &&& forall|i: int|
        0 <= i < presence.payloads.len() ==> payload_text(#[trigger] presence.payloads[i])
}

/// Whether a presence can have this type.
pub open spec fn is_presence_type(name: Seq<char>) -> bool {
    ||| name == "error"@
    ||| name == "probe"@
    ||| name == "subscribe"@
    ||| name == "subscribed"@
    ||| name == "unavailable"@
    ||| name == "unsubscribe"@
    ||| name == "unsubscribed"@
}

/// Whether a presence can tell this availability.
pub open spec fn is_show(name: Seq<char>) -> bool {
    ||| name == "away"@
    ||| name == "chat"@
    ||| name == "dnd"@
    ||| name == "xa"@
}

/// Whether the names in the presence are known: those of its type, its availability and its hash
/// functions. Any name but the empty one can be that of a hash function.
pub open spec fn names_known(presence: PresenceView) -> bool {
    &&& presence.type_ is Some ==> is_presence_type(presence.type_->0)
    &&& presence.show is Some ==> is_show(presence.show->0)
    &&& forall|i: int|
        0 <= i < presence.payloads.len() ==> (#[trigger] presence.payloads[i] matches
            PresencePayloadView::Caps { node, algo, hash } ==> algo.len() > 0)
}

/// Whether the presence can be sent.
pub open spec fn sendable(presence: PresenceView) -> bool {
    presence_text(presence) && names_known(presence)
}

/// What writing a presence gives: the XML text, or the reason why it cannot be written.
pub uninterp spec fn presence_xml(presence: PresenceView) -> Result<Seq<char>, Seq<char>>;

/// Builds an `xmpp_parsers::presence::Presence` of the same type, availability and payloads,
/// converts it with `minidom::Element::from`, sets the addresses as the attributes that this
/// conversion writes them to, and writes the element with `String::from`. The default type is the
/// one that stands for none. The type, the availability and the hash functions are read from their
/// names with `from_str`, and it fails just where one of these does. It would panic on a character
/// that XML does not allow. The result depends on the presence alone.
#[verifier::external_body]
fn write_presence(presence: Presence) -> (r: Result<String, String>)
    requires
        presence_text(presence@),
    ensures
        match r {
            Ok(xml) => presence_xml(presence@) == Ok::<Seq<char>, Seq<char>>(xml@),
            Err(reason) => presence_xml(presence@) == Err::<Seq<char>, Seq<char>>(reason@),
        },
        r is Ok <==> names_known(presence@),
{
    let text = |error: ParseError| error.to_string();
    let type_ = presence.type_.map(|name| name.parse()).transpose().map_err(text)?;
    let mut built = XmppPresence::new(type_.unwrap_or_default());
    built.show = presence.show.map(|name| name.parse()).transpose().map_err(text)?;
    for payload in presence.payloads {
        match payload {
            PresencePayload::Muc => built.add_payload(Muc::new()),
            PresencePayload::Caps { node, algo, hash } => built.add_payload(
                Caps::new(node, CapsHash::new(algo.parse().map_err(text)?, hash))),
        }
    }
    let mut element = Dom::from(built);
    element.set_attr("from", presence.from);
    element.set_attr("to", presence.to);
    Ok(String::from(&element))
}

/// Whether every character may stand in XML.
pub fn is_xml_text(text: &str) -> (r: bool)
    ensures
        r == xml_text(text@),
{
    let len: usize = text.unicode_len();
    let mut i: usize = 0;
    while i < len
        invariant
            i <= len,
            len == text@.len(),
            forall|j: int| 0 <= j < i ==> xml_char(#[trigger] text@[j]),
        decreases len - i,
    {
        let c = text.get_char(i);
        if !(c == '\t' || c == '\n' || c == '\r' || (' ' <= c && c != '\u{fffe}' && c
            != '\u{ffff}')) {
            return false;
        }
        i += 1;
    }
    true
}

/// Whether every character of the text, where there is one, may stand in XML.
fn is_xml_option(text: &Option<String>) -> (r: bool)
    ensures
        r == xml_option(text_view(*text)),
{
    match text {
        Some(text) => is_xml_text(text.as_str()),
        None => true,
    }
}

impl Presence {
    /// Whether the texts of the presence may stand in XML.
    pub fn has_xml_text(&self) -> (r: bool)
        ensures
            r == presence_text(self@),
    {
        if !is_xml_option(&self.from) || !is_xml_option(&self.to) {
            return false;
        }
        let mut i: usize = 0;
        while i < self.payloads.len()
            invariant
                i <= self.payloads@.len(),
                xml_option(self@.from) && xml_option(self@.to),
                forall|j: int| 0 <= j < i ==> payload_text(#[trigger] self@.payloads[j]),
            decreases self.payloads@.len() - i,
        {
            assert(self@.payloads[i as int] == self.payloads@[i as int]@);
            if let PresencePayload::Caps { node, algo, hash: _ } = &self.payloads[i] {
                if !is_xml_text(node.as_str()) || !is_xml_text(algo.as_str()) {
                    return false;
                }
            }
            i += 1;
        }
        true
    }

    /// The stanza to send, or the reason why there is none.
    pub fn to_element(self) -> (r: Result<Element, String>)
        ensures
            r is Ok <==> sendable(self@),
            if presence_text(self@) {
                match (r, presence_xml(self@)) {
                    (Ok(element), Ok(xml)) => element@ == xml,
                    (Err(text), Err(reason)) => text@ == reason,
                    _ => false,
                }
            } else {
                r matches Err(reason) && reason@ == "a character that XML does not allow"@
            },
    {
        if !self.has_xml_text() {
            return Err("a character that XML does not allow".to_owned());
        }
        match write_presence(self) {
            Ok(xml) => Ok(Element { xml }),
            Err(reason) => Err(reason),
        }
    }
}

/// What goes out to a server.
#[derive(Debug)]
pub enum Outgoing {
    /// An element, as it is written.
    Element(Element),
    /// A presence that is still to be written.
    Presence(Presence),
}

impl Outgoing {
    /// Whether it can be written.
    pub open spec fn writable(self) -> bool {
        match self {
            Outgoing::Element(_) => true,
            Outgoing::Presence(presence) => sendable(presence@),
        }
    }

    /// Whether it is written as this element.
    pub open spec fn written_as(self, element: Element) -> bool {
        match self {
            Outgoing::Element(written) => element == written,
            Outgoing::Presence(presence) => presence_xml(presence@) == Ok::<Seq<char>, Seq<char>>(
                element@,
            ),
        }
    }

    /// The element that it is written as, or the reason why it cannot be written.
    pub fn to_element(self) -> (r: Result<Element, String>)
        ensures
            r is Ok <==> self.writable(),
            r is Ok ==> self.written_as(r->Ok_0),
            r matches Err(reason) ==> self matches Outgoing::Presence(presence) && if presence_text(
                presence@,
            ) {
                presence_xml(presence@) == Err::<Seq<char>, Seq<char>>(reason@)
            } else {
                reason@ == "a character that XML does not allow"@
            },
    {
        match self {
            Outgoing::Element(element) => Ok(element),
            Outgoing::Presence(presence) => presence.to_element(),
        }
    }
}

} // verus!
