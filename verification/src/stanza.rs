//! Stanzas, as far as the client looks into them.
//!
//! A stanza travels as the XML text that it is written in. What the client decides by is read from
//! that text by `minidom` and `xmpp_parsers` and then stands in plain fields.
use crate::account::{text_view, Jid, JidView};
use crate::payload::{encryption_of, first_marker, payloads_view, Payload};
use minidom::Element as Dom;
use vstd::prelude::*;
use xmpp_parsers::message::Message as ParsedMessage;

verus! {

/// A stanza, or another element of the stream, as it is written.
#[derive(Debug)]
pub struct Element {
    /// The text.
    pub xml: String,
}

impl View for Element {
    type V = Seq<char>;

    open spec fn view(&self) -> Seq<char> {
        self.xml@
    }
}

impl Clone for Element {
    fn clone(&self) -> (r: Self)
        ensures
            r == *self,
    {
        Element { xml: self.xml.clone() }
    }
}

impl Element {
    /// The name, without a prefix, where the text is an element.
    pub fn name(&self) -> (r: Option<String>)
        ensures
            text_view(r) == xml_name(self@),
    {
        read_name(self.xml.as_str())
    }

    /// An attribute, where the text is an element that has it.
    pub fn attr(&self, name: &str) -> (r: Option<String>)
        ensures
            text_view(r) == xml_attribute(self@, name@),
    {
        read_attribute(self.xml.as_str(), name)
    }
}

/// The name of the element that a text is, where it is one.
pub uninterp spec fn xml_name(xml: Seq<char>) -> Option<Seq<char>>;

/// Calls `minidom::Element::name` on the element that `minidom::Element::from_str` reads from the
/// text; there is no name where the text is no element. The result depends on the text alone.
#[verifier::external_body]
fn read_name(xml: &str) -> (r: Option<String>)
    ensures
        text_view(r) == xml_name(xml@),
{
    let element = xml.parse::<Dom>().ok()?;
    Some(element.name().to_string())
}

/// An attribute of the element that a text is.
pub uninterp spec fn xml_attribute(xml: Seq<char>, name: Seq<char>) -> Option<Seq<char>>;

/// Calls `minidom::Element::attr` on the element that `minidom::Element::from_str` reads from the
/// text; there is no attribute where the text is no element. The result depends on the text and the
/// attribute's name alone.
#[verifier::external_body]
fn read_attribute(xml: &str, name: &str) -> (r: Option<String>)
    ensures
        text_view(r) == xml_attribute(xml@, name@),
{
    let element = xml.parse::<Dom>().ok()?;
    element.attr(name).map(|value| value.to_string())
}

/// Why a request failed, in the languages in which it is told.
#[derive(Debug, Clone)]
pub struct StanzaError {
    /// The language and the text of each description.
    pub texts: Vec<(String, String)>,
}

/// The views of the descriptions.
pub open spec fn texts_view(texts: Seq<(String, String)>) -> Seq<(Seq<char>, Seq<char>)> {
    texts.map_values(|entry: (String, String)| (entry.0@, entry.1@))
}

/// The first description in the given language.
pub open spec fn text_in(texts: Seq<(Seq<char>, Seq<char>)>, lang: Seq<char>) -> Option<Seq<char>>
    decreases texts.len(),
{
    if texts.len() == 0 {
        None
    } else if texts[0].0 == lang {
        Some(texts[0].1)
    } else {
        text_in(texts.drop_first(), lang)
    }
}

impl StanzaError {
    /// The description in the given language.
    pub fn text(&self, lang: &str) -> (r: Option<String>)
        ensures
            text_view(r) == text_in(texts_view(self.texts@), lang@),
    {
        let ghost all = texts_view(self.texts@);
        let wanted = lang.to_owned();
        assert(all.skip(0) =~= all);
        let mut i: usize = 0;
        while i < self.texts.len()
            invariant
                i <= self.texts@.len(),
                wanted@ == lang@,
                all == texts_view(self.texts@),
                text_in(all, lang@) == text_in(all.skip(i as int), lang@),
            decreases self.texts@.len() - i,
        {
            proof {
                assert(all.skip(i as int)[0] == all[i as int]);
                assert(all.skip(i as int).drop_first() =~= all.skip(i + 1));
            }
            if self.texts[i].0 == wanted {
                return Some(self.texts[i].1.clone());
            }
            i += 1;
        }
        None
    }
}

/// What a request or an answer carries.
#[derive(Debug, Clone)]
pub enum IqType {
    /// A request, for some data or to change some.
    Request,
    /// An answer with a result.
    Result,
    /// An answer that tells of a failure.
    Error(StanzaError),
}

/// What a request or an answer carries.
pub enum IqTypeView {
    /// A request, for some data or to change some.
    Request,
    /// An answer with a result.
    Result,
    /// An answer that tells of a failure, with its descriptions.
    Error(Seq<(Seq<char>, Seq<char>)>),
}

impl View for IqType {
    type V = IqTypeView;

    open spec fn view(&self) -> IqTypeView {
        match self {
            IqType::Request => IqTypeView::Request,
            IqType::Result => IqTypeView::Result,
            IqType::Error(error) => IqTypeView::Error(texts_view(error.texts@)),
        }
    }
}

/// A request, or the answer to one.
#[derive(Debug, Clone)]
pub struct Iq {
    /// The identifier, which an answer has from its request.
    pub id: String,
    /// What it carries.
    pub payload: IqType,
    /// The stanza itself.
    pub element: Element,
}

/// What reading a text as a request or an answer gives: its identifier and what it carries, or the
/// reason why it is neither.
pub uninterp spec fn iq_of(xml: Seq<char>) -> Result<(Seq<char>, IqTypeView), Seq<char>>;

/// The view of what a reading gave.
pub open spec fn iq_result_view(r: Result<(String, IqType), String>) -> Result<
    (Seq<char>, IqTypeView),
    Seq<char>,
> {
    match r {
        Ok((id, payload)) => Ok((id@, payload@)),
        Err(reason) => Err(reason@),
    }
}

/// Calls `xmpp_parsers::iq::Iq::try_from` on the element that `minidom::Element::from_str` reads
/// from the text, and hands out the identifier and what is carried, or the text of the error. The
/// result depends on the text alone.
#[verifier::external_body]
pub(crate) fn read_iq(xml: &str) -> (r: Result<(String, IqType), String>)
    ensures
        iq_result_view(r) == iq_of(xml@),
{
    let element = xml.parse::<Dom>().map_err(|error| error.to_string())?;
    let iq = xmpp_parsers::iq::Iq::try_from(element).map_err(|error| error.to_string())?;
    let payload = match iq.payload {
        xmpp_parsers::iq::IqType::Get(_) => IqType::Request,
        xmpp_parsers::iq::IqType::Set(_) => IqType::Request,
        xmpp_parsers::iq::IqType::Result(_) => IqType::Result,
        xmpp_parsers::iq::IqType::Error(error) => IqType::Error(
            StanzaError { texts: error.texts.into_iter().collect() },
        ),
    };
    Ok((iq.id, payload))
}

/// The reason why a text is no presence, where it is none.
pub uninterp spec fn presence_fault(xml: Seq<char>) -> Option<Seq<char>>;

/// Calls `xmpp_parsers::presence::Presence::try_from` on the element that
/// `minidom::Element::from_str` reads from the text, and hands out the text of the error. The
/// result depends on the text alone.
#[verifier::external_body]
pub(crate) fn read_presence(xml: &str) -> (r: Result<(), String>)
    ensures
        match r {
            Ok(_) => presence_fault(xml@) is None,
            Err(reason) => presence_fault(xml@) == Some(reason@),
        },
{
    let element = xml.parse::<Dom>().map_err(|error| error.to_string())?;
    match xmpp_parsers::presence::Presence::try_from(element) {
        Ok(_) => Ok(()),
        Err(error) => Err(error.to_string()),
    }
}

/// A message as it came over the stream.
#[derive(Debug, Clone)]
pub struct XmppMessage {
    /// Who sent it.
    pub from: Option<Jid>,
    /// What it carries besides its text, as far as it was looked at.
    pub payloads: Vec<Payload>,
    /// The stanza itself.
    pub element: Element,
}

/// The view of an optional address.
pub open spec fn jid_view(jid: Option<Jid>) -> Option<JidView> {
    match jid {
        Some(j) => Some(j@),
        None => None,
    }
}

/// What reading a text as a message gives: its sender and the number of its payloads, or the reason
/// why it is none.
pub uninterp spec fn message_of(xml: Seq<char>) -> Result<(Option<JidView>, usize), Seq<char>>;

/// The view of what a reading gave.
pub open spec fn sender_result_view(r: Result<(Option<Jid>, usize), String>) -> Result<
    (Option<JidView>, usize),
    Seq<char>,
> {
    match r {
        Ok((from, payloads)) => Ok((jid_view(from), payloads)),
        Err(reason) => Err(reason@),
    }
}

/// Calls `xmpp_parsers::message::Message::try_from` on the element that
/// `minidom::Element::from_str` reads from the text, and hands out the sender and the number of
/// payloads, or the text of the error. The result depends on the text alone.
#[verifier::external_body]
pub(crate) fn read_message(xml: &str) -> (r: Result<(Option<Jid>, usize), String>)
    ensures
        sender_result_view(r) == message_of(xml@),
{
    let element = xml.parse::<Dom>().map_err(|error| error.to_string())?;
    let message = ParsedMessage::try_from(element).map_err(|error| error.to_string())?;
    let from = message.from.map(|jid| Jid {
        node: jid.node().map(|part| part.to_string()),
        domain: jid.domain().to_string(),
        resource: jid.resource().map(|part| part.to_string()),
    });
    Ok((from, message.payloads.len()))
}

impl XmppMessage {
    /// The namespace of the scheme that the message is encrypted with.
    pub fn encryption_namespace(&self) -> (r: Option<String>)
        ensures
            text_view(r) == encryption_of(payloads_view(self.payloads@)),
    {
        let ghost all = payloads_view(self.payloads@);
        assert(all.skip(0) =~= all);
        let mut legacy: bool = false;
        let mut i: usize = 0;
        while i < self.payloads.len()
            invariant
                i <= self.payloads@.len(),
                all == payloads_view(self.payloads@),
                first_marker(all) == first_marker(all.skip(i as int)),
                legacy == exists|j: int| 0 <= j < i && (#[trigger] all[j]).legacy_omemo,
            decreases self.payloads@.len() - i,
        {
            proof {
                assert(all.skip(i as int)[0] == all[i as int]);
                assert(all.skip(i as int).drop_first() =~= all.skip(i + 1));
            }
            if let Some(namespace) = &self.payloads[i].encryption {
                return Some(namespace.clone());
            }
            if self.payloads[i].legacy_omemo {
                assert(all[i as int].legacy_omemo);
                legacy = true;
            }
            i += 1;
        }
        if legacy {
            Some("eu.siacs.conversations.axolotl".to_owned())
        } else {
            None
        }
    }
}

} // verus!
