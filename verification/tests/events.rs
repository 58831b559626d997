use aparte::account::{Account, BareJid, ConnectionInfo, FullJid, Jid, Password};
use aparte::aparte::Aparte;
use aparte::async_iq::PendingIqState;
use aparte::config::Config;
use aparte::crypto::{Cipher, CryptoEngine};
use aparte::disco::{DiscoInfo, Form, FormField, Identity};
use aparte::dispatch::look_at_message;
use aparte::event::{split_priority, Delay, Event};
use aparte::message::Message;
use aparte::mods::{best_match, Disco, Mod, ModTrait};
use aparte::run::{Halt, Step, Wake};
use aparte::payload::{look_at_payloads, Payload};
use aparte::presence::{is_xml_text, Outgoing, Presence, PresencePayload};
use aparte::stanza::{Element, Iq, IqType, StanzaError, XmppMessage};
use aparte::table::Table;
use std::collections::VecDeque;
use std::sync::atomic::{AtomicUsize, Ordering};
use std::sync::Arc;
use std::task::Waker;

type Client = Aparte<Recorder, Rot>;

/// A module that writes down what it is told.
struct Recorder {
    seen: Vec<String>,
    score: u64,
    handled: Vec<(String, bool)>,
    fails: bool,
    info: DiscoInfo,
}

fn recorder() -> Recorder {
    Recorder {
        seen: Vec::new(),
        score: 0,
        handled: Vec::new(),
        fails: false,
        info: DiscoInfo { identities: Vec::new(), features: Vec::new(), extensions: Vec::new() },
    }
}

impl ModTrait<Client> for Recorder {
    fn init(&mut self, aparte: &mut Client) -> Result<(), ()> {
        aparte.log("prepared".to_string());
        if self.fails {
            Err(())
        } else {
            Ok(())
        }
    }

    fn on_event(&mut self, aparte: &mut Client, event: &Event) {
        if let Event::Close(_) = event {
            assert!(aparte.mods_at_work);
            assert_eq!(aparte.handle_event(Event::Quit), Err(Halt::Unmet));
        }
        self.seen.push(match event {
            Event::Quit => "quit".to_string(),
            Event::ChangeWindow(name) => format!("change {}", name),
            Event::Win(name) => format!("win {}", name),
            _ => "other".to_string(),
        });
    }

    fn can_handle_xmpp_message(
        &mut self,
        _aparte: &mut Client,
        _account: &Account,
        _message: &XmppMessage,
        _delay: &Option<Delay>,
    ) -> u64 {
        self.score
    }

    fn handle_xmpp_message(
        &mut self,
        _aparte: &mut Client,
        _account: &Account,
        message: &XmppMessage,
        _delay: &Option<Delay>,
        archive: bool,
    ) {
        self.handled.push((message.element.xml.clone(), archive));
    }
}

impl Disco<Client> for Recorder {
    fn get_disco(&self) -> DiscoInfo {
        self.info.clone()
    }
}

/// A scheme that hides nothing.
struct Rot {
    fails: bool,
    used: usize,
}

impl Cipher<Client> for Rot {
    fn encrypt(
        &mut self,
        _aparte: &Client,
        _account: &Account,
        _message: &Message,
    ) -> Result<Element, String> {
        self.used += 1;
        if self.fails {
            Err("no session".to_string())
        } else {
            Ok(stanza("<message xmlns='jabber:client'><rot xmlns='rot'/></message>"))
        }
    }

    fn decrypt(
        &mut self,
        _aparte: &Client,
        _account: &Account,
        message: &XmppMessage,
    ) -> Result<XmppMessage, String> {
        self.used += 1;
        if self.fails {
            Err("no session".to_string())
        } else {
            let mut clear = message.clone();
            clear.element = stanza("<message xmlns='jabber:client'><clear xmlns='rot'/></message>");
            Ok(clear)
        }
    }
}

struct Bell(AtomicUsize);

impl std::task::Wake for Bell {
    fn wake(self: Arc<Self>) {
        self.0.fetch_add(1, Ordering::SeqCst);
    }
}

fn stanza(xml: &str) -> Element {
    Element { xml: xml.to_string() }
}

fn account() -> Account {
    FullJid {
        node: Some("romeo".to_string()),
        domain: "example.net".to_string(),
        resource: "orchard".to_string(),
    }
}

fn juliet() -> BareJid {
    BareJid { node: Some("juliet".to_string()), domain: "example.net".to_string() }
}

fn client() -> Client {
    Client::new(Config::default()).unwrap()
}

fn with_module(module: Recorder) -> Client {
    let mut client = client();
    client.add_mod(Mod::Disco(module));
    client
}

fn engine(namespace: &str, fails: bool) -> CryptoEngine<Rot> {
    CryptoEngine { namespace: namespace.to_string(), cipher: Rot { fails, used: 0 } }
}

/// The first stanza that is to be sent, as it is written.
fn sent(client: &mut Client) -> (Account, String) {
    let (to, stanza) = client.shared.stanzas.remove(0);
    (to, stanza.to_element().unwrap().xml)
}

fn log_line(event: &Event) -> String {
    match event {
        Event::Message(None, Message::Log(body)) => body.clone(),
        _ => panic!("no line of the log"),
    }
}

fn iq(id: &str, payload: IqType) -> Iq {
    Iq { id: id.to_string(), payload, element: stanza("<iq xmlns='jabber:client'/>") }
}

const ID: &str = "67e55044-10b1-426f-9247-bb680e5fe0c8";
const NUMBER: u128 = 0x67e55044_10b1_426f_9247_bb680e5fe0c8;

fn bell() -> (Arc<Bell>, Waker) {
    let bell = Arc::new(Bell(AtomicUsize::new(0)));
    (bell.clone(), Waker::from(bell))
}

#[test]
fn answer_is_kept_and_wakes_once() {
    let mut client = client();
    let (bell, waker) = bell();
    client.shared.pending_iq.insert(NUMBER, PendingIqState::Waiting(Some(waker)));
    client.shared.pending_iq.insert(1, PendingIqState::Waiting(None));
    client.handle_iq(account(), iq(ID, IqType::Result));
    assert_eq!(client.shared.woken.len(), 1);
    for waker in client.shared.woken.drain(..) {
        waker.wake();
    }
    assert_eq!(bell.0.load(Ordering::SeqCst), 1);
    client.handle_iq(account(), iq(ID, IqType::Request));
    client.errored_iq(ID, "unreadable".to_string());
    assert!(client.shared.woken.is_empty());
    assert!(client.shared.events.is_empty());
    match &client.shared.pending_iq[&NUMBER] {
        PendingIqState::Finished(first) => assert!(matches!(first.payload, IqType::Result)),
        _ => panic!("no answer"),
    }
    assert!(matches!(client.shared.pending_iq[&1], PendingIqState::Waiting(None)));
    assert_eq!(client.shared.pending_iq.len(), 2);
}

#[test]
fn readable_answer_replaces_an_unreadable_one() {
    let mut client = client();
    let (_bell, waker) = bell();
    client.shared.pending_iq.insert(NUMBER, PendingIqState::Waiting(Some(waker)));
    client.errored_iq(ID, "first".to_string());
    assert_eq!(client.shared.woken.len(), 1);
    client.errored_iq(ID, "second".to_string());
    assert_eq!(client.shared.woken.len(), 1);
    match &client.shared.pending_iq[&NUMBER] {
        PendingIqState::Errored(reason) => assert_eq!(reason, "first"),
        _ => panic!("no error"),
    }
    client.handle_iq(account(), iq(ID, IqType::Result));
    assert_eq!(client.shared.woken.len(), 1);
    assert!(matches!(client.shared.pending_iq[&NUMBER], PendingIqState::Finished(_)));
}

#[test]
fn answer_is_delivered_to_the_one_who_waits() {
    let mut client = client();
    let (_bell, waker) = bell();
    client.shared.expect_answer(NUMBER);
    assert!(client.shared.poll_answer(NUMBER, waker.clone()).is_none());
    client.handle_iq(account(), iq(ID, IqType::Result));
    assert_eq!(client.shared.woken.len(), 1);
    let answer = client.shared.poll_answer(NUMBER, waker.clone());
    assert!(matches!(answer, Some(Ok(iq)) if iq.id == ID));
    assert!(client.shared.pending_iq.is_empty());
    assert!(client.shared.poll_answer(NUMBER, waker.clone()).is_none());
    client.shared.expect_answer(NUMBER);
    client.errored_iq(ID, "unreadable".to_string());
    assert!(matches!(
        client.shared.poll_answer(NUMBER, waker),
        Some(Err(reason)) if reason == "unreadable"
    ));
}

#[test]
fn identifier_is_read_in_any_form() {
    let mut client = client();
    client.shared.pending_iq.insert(NUMBER, PendingIqState::Waiting(None));
    client.handle_iq(account(), iq("67E5504410B1426F9247BB680E5FE0C8", IqType::Result));
    assert!(matches!(client.shared.pending_iq[&NUMBER], PendingIqState::Finished(_)));
}

#[test]
fn unexpected_answers_are_told_apart() {
    let mut client = client();
    client.handle_iq(account(), iq(ID, IqType::Result));
    assert!(client.shared.events.is_empty());
    client.handle_iq(account(), iq("no uuid", IqType::Request));
    assert!(matches!(&client.shared.events[0], Event::Iq(_, iq) if iq.id == "no uuid"));
    let told = StanzaError {
        texts: vec![
            ("de".to_string(), "Nein".to_string()),
            ("en".to_string(), "No".to_string()),
        ],
    };
    assert_eq!(told.text("de").as_deref(), Some("Nein"));
    client.handle_iq(account(), iq(ID, IqType::Error(told)));
    match &client.shared.events[1] {
        Event::Message(Some(to), Message::Log(body)) => {
            assert_eq!(to.to_string(), "romeo@example.net/orchard");
            assert_eq!(body, "No");
        }
        _ => panic!("no message"),
    }
    let untold = StanzaError { texts: vec![("de".to_string(), "Nein".to_string())] };
    client.handle_iq(account(), iq(ID, IqType::Error(untold)));
    client.errored_iq(ID, "unreadable".to_string());
    client.errored_iq("no uuid", "unreadable".to_string());
    assert_eq!(client.shared.events.len(), 2);
    assert!(client.shared.pending_iq.is_empty());
}

#[test]
fn iq_stanzas_are_read() {
    let mut client = client();
    let ask = "<iq xmlns='jabber:client' type='get' id='q'><query xmlns='jabber:iq:version'/></iq>";
    client.handle_stanza(account(), stanza(ask));
    assert!(matches!(
        &client.shared.events[0],
        Event::Iq(_, iq) if iq.id == "q" && matches!(iq.payload, IqType::Request)
            && iq.element.xml == ask
    ));
    client.handle_stanza(
        account(),
        stanza("<iq xmlns='jabber:client' type='set' id='s'><query xmlns='x'/></iq>"),
    );
    assert!(matches!(
        &client.shared.events[1],
        Event::Iq(_, iq) if matches!(iq.payload, IqType::Request)
    ));
    client.handle_stanza(
        account(),
        stanza(
            "<iq xmlns='jabber:client' type='error' id='e'><error type='cancel'>\
             <item-not-found xmlns='urn:ietf:params:xml:ns:xmpp-stanzas'/>\
             <text xmlns='urn:ietf:params:xml:ns:xmpp-stanzas' xml:lang='en'>Gone</text>\
             </error></iq>",
        ),
    );
    assert!(matches!(
        &client.shared.events[2],
        Event::Message(Some(_), Message::Log(body)) if body == "Gone"
    ));
    client.shared.pending_iq.insert(NUMBER, PendingIqState::Waiting(None));
    client.handle_stanza(
        account(),
        stanza(&format!("<iq xmlns='jabber:client' type='result' id='{}'/>", ID)),
    );
    assert!(matches!(client.shared.pending_iq[&NUMBER], PendingIqState::Finished(_)));
    assert_eq!(client.shared.events.len(), 3);
}

#[test]
fn unreadable_iq_fails_its_request() {
    let mut client = client();
    client.shared.pending_iq.insert(NUMBER, PendingIqState::Waiting(None));
    client.handle_stanza(account(), stanza("<iq xmlns='jabber:client' type='result'/>"));
    assert!(matches!(client.shared.pending_iq[&NUMBER], PendingIqState::Waiting(None)));
    client.handle_stanza(
        account(),
        stanza(&format!("<iq xmlns='jabber:client' type='wrong' id='{}'/>", ID)),
    );
    match &client.shared.pending_iq[&NUMBER] {
        PendingIqState::Errored(reason) => assert!(!reason.is_empty()),
        _ => panic!("no error"),
    }
    assert!(client.shared.events.is_empty());
}

#[test]
fn presences_are_passed_on_where_they_can_be_read() {
    let mut client = client();
    client.handle_stanza(account(), stanza("<presence xmlns='jabber:client'/>"));
    client.handle_stanza(account(), stanza("<presence xmlns='jabber:client' type='odd'/>"));
    client.handle_stanza(account(), stanza("<features xmlns='jabber:client'/>"));
    assert_eq!(client.shared.events.len(), 1);
    assert!(matches!(&client.shared.events[0], Event::Presence(_, p) if p.xml.starts_with("<presence")));
}

#[test]
fn elements_are_read_from_text() {
    let element = stanza("<a xmlns='x' id='7'/>");
    assert_eq!(element.name().as_deref(), Some("a"));
    assert_eq!(element.attr("id").as_deref(), Some("7"));
    assert!(stanza("<a xmlns='x'/>").attr("id").is_none());
    assert!(stanza("<a").name().is_none());
    assert!(stanza("<a").attr("id").is_none());
    let mut client = client();
    assert_eq!(client.handle_event(Event::Stanza(account(), stanza("<iq"))), Ok(()));
    assert!(client.shared.events.is_empty());
}

#[test]
fn best_module_is_the_first_of_the_best() {
    assert_eq!(best_match(&vec![0, 3, 5, 5, 1]), Some(2));
    assert_eq!(best_match(&vec![1]), Some(0));
    assert_eq!(best_match(&vec![0, 0]), None);
    assert_eq!(best_match(&Vec::new()), None);
}

#[test]
fn message_goes_to_a_module_that_can_handle_it() {
    let text = "<message xmlns='jabber:client' from='juliet@example.net/balcony'/>";
    let mut client = with_module(recorder());
    client.handle_stanza(account(), stanza(text));
    assert!(client.get_mod().handled.is_empty());
    client.get_mod_mut().score = 1;
    client.handle_stanza(account(), stanza(text));
    assert_eq!(client.get_mod().handled, vec![(text.to_string(), false)]);
    let raw = Event::RawMessage {
        account: account(),
        message: XmppMessage { from: None, payloads: Vec::new(), element: stanza(text) },
        delay: None,
        archive: true,
    };
    assert!(client.handle_event(raw).is_ok());
    assert_eq!(client.get_mod().handled[1], (text.to_string(), true));
    client.handle_stanza(account(), stanza("<message xmlns='jabber:client' type='odd'/>"));
    assert_eq!(client.get_mod().handled.len(), 2);
    assert_eq!(client.mods[0].debug_name(), "Mod::Disco");
}

#[test]
fn encrypted_message_is_decrypted_by_its_scheme() {
    let mut module = recorder();
    module.score = 1;
    let mut client = with_module(module);
    client.add_crypto_engine(&account(), &juliet(), engine("urn:xmpp:rot", false));
    let marked = "<message xmlns='jabber:client' from='juliet@example.net/balcony'>\
                  <encryption xmlns='urn:xmpp:eme:0' namespace='urn:xmpp:rot'/></message>";
    let other = "<message xmlns='jabber:client' from='juliet@example.net/balcony'>\
                 <encryption xmlns='urn:xmpp:eme:0' namespace='urn:xmpp:other'/></message>";
    let stranger = "<message xmlns='jabber:client' from='tybalt@example.net'>\
                    <encryption xmlns='urn:xmpp:eme:0' namespace='urn:xmpp:rot'/></message>";
    let clear = "<message xmlns='jabber:client'><clear xmlns='rot'/></message>";
    client.handle_stanza(account(), stanza(marked));
    client.handle_stanza(account(), stanza(other));
    client.handle_stanza(account(), stanza(stranger));
    let handled: Vec<&str> = client.get_mod().handled.iter().map(|(xml, _)| xml.as_str()).collect();
    assert_eq!(handled, vec![clear, other, stranger]);
    client.add_crypto_engine(&account(), &juliet(), engine("urn:xmpp:rot", true));
    client.handle_stanza(account(), stanza(marked));
    assert_eq!(client.get_mod().handled[3].0, marked);
    assert_eq!(client.shared.crypto_engines.len(), 1);
    assert_eq!(client.shared.crypto_engines.at(0).1.cipher.used, 1);
    assert_eq!(client.shared.crypto_engines.at(0).1.ns(), "urn:xmpp:rot");
}

#[test]
fn legacy_omemo_is_recognised() {
    let text = "<message xmlns='jabber:client' from='juliet@example.net/balcony'>\
                <encrypted xmlns='eu.siacs.conversations.axolotl'><header sid='1'><iv>AA==</iv>\
                </header></encrypted></message>";
    let mut module = recorder();
    module.score = 1;
    let mut client = with_module(module);
    client.add_crypto_engine(&account(), &juliet(), engine(xmpp_parsers::ns::LEGACY_OMEMO, false));
    client.handle_stanza(account(), stanza(text));
    assert_eq!(
        client.get_mod().handled[0].0,
        "<message xmlns='jabber:client'><clear xmlns='rot'/></message>"
    );
}

fn namespaces(xml: &str) -> Option<Vec<Option<String>>> {
    let (_, payloads) = look_at_message(xml)?.unwrap();
    Some(payloads.into_iter().map(|payload| payload.encryption).collect())
}

#[test]
fn payloads_are_looked_at_up_to_the_first_marker() {
    let unknown = "<x xmlns='urn:x' p:a='1'/>";
    let marker = "<encryption xmlns='urn:xmpp:eme:0' namespace='urn:xmpp:rot'/>";
    let message = |inside: &str| {
        format!("<message xmlns='jabber:client' xmlns:p='urn:p'>{}</message>", inside)
    };
    let rot = Some("urn:xmpp:rot".to_string());
    assert_eq!(namespaces(&message("")), Some(vec![]));
    assert_eq!(namespaces(&message(unknown)), None);
    assert_eq!(namespaces(&message(&format!("{}{}", unknown, marker))), None);
    assert_eq!(
        namespaces(&message(&format!("{}{}{}", marker, unknown, marker))),
        Some(vec![rot.clone(), None, None])
    );
    let declared = "<x xmlns='urn:x' xmlns:p='urn:p' p:a='1' xml:lang='en' b='2'/>";
    assert_eq!(
        namespaces(&message(&format!("{}{}", declared, marker))),
        Some(vec![None, rot.clone()])
    );
    let inside = format!("<y xmlns='urn:y'>{}</y>{}", unknown, marker);
    assert_eq!(namespaces(&message(&inside)), Some(vec![None, rot]));
    let odd = format!("<encryption xmlns='urn:xmpp:eme:0' namespace='n'>{}</encryption>", unknown);
    assert_eq!(namespaces(&message(&odd)), Some(vec![None]));
    assert!(look_at_message("<iq xmlns='jabber:client'/>").unwrap().is_err());
    assert!(look_at_payloads("<iq xmlns='jabber:client'/>", 1).unwrap()[0].encryption.is_none());
}

#[test]
fn message_that_cannot_be_looked_at_is_not_handled() {
    let text = "<message xmlns='jabber:client' xmlns:p='urn:p'><x xmlns='urn:x' p:a='1'/></message>";
    let mut module = recorder();
    module.score = 1;
    let mut client = with_module(module);
    assert_eq!(client.handle_event(Event::Stanza(account(), stanza(text))), Err(Halt::Unmet));
    assert!(client.get_mod().handled.is_empty());
    let fine = "<message xmlns='jabber:client' xmlns:p='urn:p'><body p:a='1'>hi</body></message>";
    assert_eq!(client.handle_event(Event::Stanza(account(), stanza(fine))), Ok(()));
    assert_eq!(client.get_mod().handled.len(), 1);
}

#[test]
fn legacy_payload_with_an_unknown_prefix_is_none() {
    let legacy = |attribute: &str| {
        format!(
            "<message xmlns='jabber:client' xmlns:p='urn:p'>\
             <encrypted xmlns='eu.siacs.conversations.axolotl'><header sid='1'><iv {}>AA==</iv>\
             </header></encrypted></message>",
            attribute
        )
    };
    let seen = |xml: &str| look_at_payloads(xml, 1).unwrap()[0].legacy_omemo;
    assert!(seen(&legacy("")));
    assert!(!seen(&legacy("p:a='1'")));
}

#[test]
fn nothing_is_handled_while_a_module_is_at_work() {
    let mut client = with_module(recorder());
    assert_eq!(client.handle_event(Event::Close("x".to_string())), Ok(()));
    assert!(!client.mods_at_work);
    assert_eq!(client.get_mod().seen, vec!["other"]);
}

#[test]
fn texts_that_xml_does_not_allow_are_queued_and_not_written() {
    assert!(is_xml_text("a\t\r\n\u{e9}\u{10ffff}"));
    assert!(is_xml_text(""));
    for text in ["\u{0}", "a\u{1}", "\u{b}", "\u{1f}", "\u{fffe}", "\u{ffff}"] {
        assert!(!is_xml_text(text));
    }
    let mut client = client();
    let channel = Jid {
        node: Some("room".to_string()),
        domain: "mu\u{1}c.example.org".to_string(),
        resource: None,
    };
    let join = Event::Join { account: account(), channel, user_request: true };
    assert_eq!(client.handle_event(join), Ok(()));
    assert_eq!(client.shared.events.len(), 2);
    assert_eq!(client.shared.stanzas.len(), 1);
    let (to, presence) = client.shared.stanzas.remove(0);
    assert!(matches!(
        &presence,
        Outgoing::Presence(presence) if presence.type_.is_none() && presence.show.is_none()
            && presence.from.as_deref() == Some("romeo@example.net/orchard")
            && presence.to.as_deref() == Some("room@mu\u{1}c.example.org/romeo")
            && matches!(presence.payloads[..], [PresencePayload::Muc])
    ));
    client.add_connection(account(), Vec::new());
    let mut waiting = VecDeque::new();
    assert_eq!(client.run_step(Wake::Stanza(Some((to, presence))), &mut waiting), Step::Unmet);
    assert!(client.take_outgoing(&account()).is_empty());
}

#[test]
fn presences_are_written_as_they_are_made() {
    let presence = |type_: Option<&str>, show: Option<&str>, algo: &str| Presence {
        type_: type_.map(|name| name.to_string()),
        from: Some("a@b/c".to_string()),
        to: None,
        show: show.map(|name| name.to_string()),
        payloads: vec![
            PresencePayload::Muc,
            PresencePayload::Caps {
                node: "n&<'".to_string(),
                algo: algo.to_string(),
                hash: vec![1, 2, 3],
            },
        ],
    };
    let written = presence(Some("unavailable"), Some("xa"), "sha-1").to_element().unwrap();
    assert_eq!(written.name().as_deref(), Some("presence"));
    let dom = written.xml.parse::<minidom::Element>().unwrap();
    assert_eq!(dom.attr("from"), Some("a@b/c"));
    assert_eq!(dom.attr("to"), None);
    let read = xmpp_parsers::presence::Presence::try_from(dom).unwrap();
    assert_eq!(read.type_, xmpp_parsers::presence::Type::Unavailable);
    assert_eq!(read.show, Some(xmpp_parsers::presence::Show::Xa));
    assert_eq!(read.payloads.len(), 2);
    assert!(xmpp_parsers::muc::Muc::try_from(read.payloads[0].clone()).is_ok());
    let caps = xmpp_parsers::caps::Caps::try_from(read.payloads[1].clone()).unwrap();
    assert_eq!((caps.node.as_str(), caps.hash.hash), ("n&<'", vec![1, 2, 3]));
    assert!(presence(Some("odd"), None, "sha-1").to_element().is_err());
    assert!(presence(None, Some("odd"), "sha-1").to_element().is_err());
    assert!(presence(None, None, "").to_element().is_err());
    assert!(presence(None, None, "own").to_element().is_ok());
    assert_eq!(
        presence(None, None, "\u{1}").to_element().unwrap_err(),
        "a character that XML does not allow"
    );
}

#[test]
fn first_marker_names_the_scheme() {
    let marker = |name: &str| Payload { encryption: Some(name.to_string()), legacy_omemo: false };
    let legacy = || Payload { encryption: None, legacy_omemo: true };
    let plain = || Payload { encryption: None, legacy_omemo: false };
    let named = |payloads: Vec<Payload>| {
        XmppMessage { from: None, payloads, element: stanza("<a xmlns='x'/>") }
            .encryption_namespace()
    };
    assert_eq!(named(vec![]), None);
    assert_eq!(named(vec![plain()]), None);
    assert_eq!(named(vec![plain(), marker("a"), marker("b")]).as_deref(), Some("a"));
    assert_eq!(named(vec![legacy(), marker("b")]).as_deref(), Some("b"));
    assert_eq!(named(vec![plain(), legacy()]).as_deref(), Some(xmpp_parsers::ns::LEGACY_OMEMO));
}

fn note(recipient: Option<BareJid>) -> Message {
    let element = stanza("<message xmlns='jabber:client'><body>hi</body></message>");
    Message::Xmpp { element, recipient }
}

#[test]
fn message_is_sent_in_the_clear_without_a_scheme() {
    let mut client = client();
    assert!(client.handle_event(Event::SendMessage(account(), note(Some(juliet())))).is_ok());
    assert!(matches!(
        &client.shared.events[0],
        Event::Message(Some(_), Message::Xmpp { .. })
    ));
    assert_eq!(client.shared.stanzas.len(), 1);
    assert!(sent(&mut client).1.contains("<body>hi</body>"));
    let line = Message::log("nothing".to_string());
    assert!(client.handle_event(Event::SendMessage(account(), line)).is_ok());
    assert_eq!(client.shared.events.len(), 2);
    assert!(client.shared.stanzas.is_empty());
}

#[test]
fn message_with_a_scheme_is_never_sent_in_the_clear() {
    let mut client = client();
    client.add_crypto_engine(&account(), &juliet(), engine("urn:xmpp:rot", false));
    assert!(client.handle_event(Event::SendMessage(account(), note(Some(juliet())))).is_ok());
    assert_eq!(client.shared.stanzas.len(), 1);
    assert!(sent(&mut client).1.contains("<rot"));
    client.add_crypto_engine(&account(), &juliet(), engine("urn:xmpp:rot", true));
    assert!(client.handle_event(Event::SendMessage(account(), note(Some(juliet())))).is_ok());
    assert!(client.shared.stanzas.is_empty());
    assert_eq!(client.shared.events.len(), 2);
    assert!(client.handle_event(Event::SendMessage(account(), note(None))).is_ok());
    assert_eq!(client.shared.stanzas.len(), 1);
}

fn capabilities() -> DiscoInfo {
    DiscoInfo {
        identities: vec![Identity {
            category: "client".to_string(),
            type_: "console".to_string(),
            lang: Some("en".to_string()),
            name: Some("apart\u{e9}".to_string()),
        }],
        features: vec!["urn:b".to_string(), "urn:a".to_string()],
        extensions: vec![Form {
            form_type: Some("urn:form".to_string()),
            fields: vec![FormField {
                var: Some("os".to_string()),
                values: vec!["none".to_string()],
            }],
        }],
    }
}

#[test]
fn connected_account_is_announced() {
    let mut module = recorder();
    module.info = capabilities();
    let mut client = with_module(module);
    let bound = account().to_jid();
    assert!(client.handle_event(Event::Connected(account(), bound)).is_ok());
    assert_eq!(log_line(&client.shared.events[0]), "Connected as romeo@example.net/orchard");
    let (to, sent) = sent(&mut client);
    assert_eq!(to.to_string(), "romeo@example.net/orchard");
    let hashed = b"client/console/en/apart\xc3\xa9<urn:a<urn:b<urn:form<os<none<";
    let hash = xmpp_parsers::caps::hash_caps(hashed, xmpp_parsers::hashes::Algo::Blake2b_512)
        .unwrap();
    assert_eq!(capabilities().verification_hash(), hash.hash);
    let parsed = sent.parse::<minidom::Element>().unwrap();
    let presence = xmpp_parsers::presence::Presence::try_from(parsed).unwrap();
    assert_eq!(presence.type_, xmpp_parsers::presence::Type::None);
    assert_eq!(presence.show, Some(xmpp_parsers::presence::Show::Chat));
    assert!(presence.from.is_none() && presence.to.is_none());
    assert_eq!(presence.payloads.len(), 1);
    let caps = xmpp_parsers::caps::Caps::try_from(presence.payloads[0].clone()).unwrap();
    assert_eq!(caps.node, "apart\u{e9}");
    assert_eq!(caps.hash, hash);
}

#[test]
fn empty_capabilities_have_a_known_hash() {
    let hash = recorder().info.verification_hash();
    assert_eq!(hash.len(), 64);
    assert_eq!(hash[..4], [0x78, 0x6a, 0x02, 0xf7]);
}

#[test]
fn announcing_needs_the_module() {
    let mut client = client();
    let bound = account().to_jid();
    assert_eq!(client.handle_event(Event::Connected(account(), bound)), Err(Halt::Unmet));
    assert!(client.shared.events.is_empty());
    assert!(client.shared.stanzas.is_empty());
}

#[test]
fn lost_connections_are_logged() {
    let mut client = client();
    assert!(client.handle_event(Event::Disconnected(account(), "reset".to_string())).is_ok());
    assert!(client.handle_event(Event::AuthError(account(), "denied".to_string())).is_ok());
    assert_eq!(
        log_line(&client.shared.events[0]),
        "Connection lost for romeo@example.net/orchard: reset"
    );
    assert_eq!(
        log_line(&client.shared.events[1]),
        "Authentication error for romeo@example.net/orchard: denied"
    );
}

fn channel(resource: Option<&str>) -> Jid {
    Jid {
        node: Some("room".to_string()),
        domain: "muc.example.net".to_string(),
        resource: resource.map(|nick| nick.to_string()),
    }
}

#[test]
fn channel_is_joined_under_the_name_of_the_account() {
    let mut client = client();
    let join = Event::Join { account: account(), channel: channel(None), user_request: true };
    assert!(client.handle_event(join).is_ok());
    assert_eq!(log_line(&client.shared.events[0]), "Joined room@muc.example.net");
    match &client.shared.events[1] {
        Event::Joined { account, channel, user_request } => {
            assert_eq!(account.to_string(), "romeo@example.net/orchard");
            assert_eq!(channel.to_string(), "room@muc.example.net/romeo");
            assert!(*user_request);
        }
        _ => panic!("not joined"),
    }
    let sent = sent(&mut client).1.parse::<minidom::Element>().unwrap();
    assert_eq!(sent.name(), "presence");
    assert_eq!(sent.attr("from"), Some("romeo@example.net/orchard"));
    assert_eq!(sent.attr("to"), Some("room@muc.example.net/romeo"));
    assert_eq!(sent.attr("type"), None);
    let presence = xmpp_parsers::presence::Presence::try_from(sent).unwrap();
    assert_eq!(presence.show, None);
    assert!(xmpp_parsers::muc::Muc::try_from(presence.payloads[0].clone()).is_ok());
}

#[test]
fn channel_is_joined_under_the_given_nickname() {
    let mut client = client();
    let named = channel(Some("Montague"));
    let join = Event::Join { account: account(), channel: named, user_request: false };
    assert!(client.handle_event(join).is_ok());
    assert_eq!(log_line(&client.shared.events[0]), "Joined room@muc.example.net/Montague");
    assert!(matches!(
        &client.shared.events[1],
        Event::Joined { channel, user_request: false, .. }
            if channel.to_string() == "room@muc.example.net/Montague"
    ));
}

#[test]
fn joining_needs_a_nickname() {
    let mut client = client();
    let nobody = FullJid {
        node: None,
        domain: "example.net".to_string(),
        resource: "orchard".to_string(),
    };
    let join = Event::Join { account: nobody, channel: channel(None), user_request: true };
    assert_eq!(client.handle_event(join), Err(Halt::Unmet));
    assert!(client.shared.stanzas.is_empty());
}

#[test]
fn starting_needs_passwords_and_connects() {
    let mut info = ConnectionInfo {
        jid: "romeo@example.net/orchard".to_string(),
        server: None,
        port: None,
        autoconnect: true,
        password: None,
    };
    let mut accounts: Table<String, ConnectionInfo> = Table::new();
    accounts.insert("it".to_string(), info.clone());
    let mut client: Client = Client::new(Config { accounts }).unwrap();
    assert_eq!(client.handle_event(Event::Start), Err(Halt::Unmet));
    assert!(client.opening.is_empty());
    info.password = Some(Password { secret: "hunter2".to_string() });
    client.config.accounts.insert("it".to_string(), info.clone());
    assert!(client.handle_event(Event::Start).is_ok());
    assert_eq!(client.opening.len(), 1);
    let password = Password { secret: "other".to_string() };
    assert!(client.handle_event(Event::Connect(info, password)).is_ok());
    assert_eq!(client.opening[1].password, "other");
}

#[test]
fn modules_are_prepared_until_one_fails() {
    let mut empty = client();
    assert!(empty.init().is_ok());
    let mut client = with_module(recorder());
    assert!(client.init().is_ok());
    assert_eq!(log_line(&client.shared.events[0]), "prepared");
    client.get_mod_mut().fails = true;
    assert!(client.init().is_err());
    assert_eq!(client.shared.events.len(), 2);
    assert_eq!(client.mods.len(), 1);
}

#[test]
fn module_of_the_same_kind_is_replaced() {
    let mut client = with_module(recorder());
    let mut second = recorder();
    second.score = 7;
    client.add_mod(Mod::Disco(second));
    assert_eq!(client.mods.len(), 1);
    assert_eq!(client.get_mod().score, 7);
}

#[test]
fn events_are_parted_by_priority() {
    let events = vec![
        Event::Win("a".to_string()),
        Event::ChangeWindow("b".to_string()),
        Event::Start,
        Event::Quit,
        Event::Win("c".to_string()),
    ];
    let (priority, ordinary) = split_priority(events);
    assert_eq!(priority.len(), 2);
    assert!(matches!(&priority[0], Event::ChangeWindow(name) if name == "b"));
    assert!(matches!(priority[1], Event::Quit));
    assert_eq!(ordinary.len(), 3);
    assert!(matches!(&ordinary[0], Event::Win(name) if name == "a"));
    assert!(matches!(ordinary[1], Event::Start));
    assert!(matches!(&ordinary[2], Event::Win(name) if name == "c"));
}

fn some_events(quits: bool) -> Vec<Event> {
    let mut events = vec![Event::Win("1".to_string()), Event::ChangeWindow("2".to_string())];
    if quits {
        events.push(Event::Quit);
        events.push(Event::ChangeWindow("3".to_string()));
    }
    events
}

#[test]
fn priority_events_are_handled_first() {
    let mut client = with_module(recorder());
    let mut waiting = VecDeque::new();
    waiting.push_back(Event::Win("0".to_string()));
    let step = client.run_step(Wake::Events(some_events(false)), &mut waiting);
    assert_eq!(step, Step::Next);
    assert!(waiting.is_empty());
    assert_eq!(client.get_mod().seen, vec!["change 2", "win 0", "win 1"]);
}

#[test]
fn quitting_leaves_what_waits() {
    let mut client = with_module(recorder());
    let mut waiting = VecDeque::new();
    waiting.push_back(Event::Win("0".to_string()));
    let step = client.run_step(Wake::Events(some_events(true)), &mut waiting);
    assert_eq!(step, Step::Stop);
    assert_eq!(waiting.len(), 2);
    assert_eq!(client.get_mod().seen, vec!["change 2", "quit"]);
}

#[test]
fn unending_client_handles_what_waits() {
    let mut client = with_module(recorder());
    let mut waiting = VecDeque::new();
    let step = client.run_async_step(Wake::Events(some_events(true)), &mut waiting);
    assert_eq!(step, Step::Next);
    assert!(waiting.is_empty());
    assert_eq!(client.get_mod().seen, vec!["change 2", "quit", "win 1"]);
    waiting.push_back(Event::Quit);
    waiting.push_back(Event::Win("9".to_string()));
    let step = client.run_async_step(Wake::Events(some_events(false)), &mut waiting);
    assert_eq!(step, Step::Next);
    assert_eq!(waiting.len(), 2);
}

#[test]
fn missing_things_end_a_batch() {
    let lost = || {
        vec![
            Event::Win("1".to_string()),
            Event::Connected(account(), account().to_jid()),
            Event::Win("2".to_string()),
        ]
    };
    let mut waiting = VecDeque::new();
    assert_eq!(client().run_step(Wake::Events(lost()), &mut waiting), Step::Unmet);
    assert_eq!(waiting.len(), 1);
    waiting.clear();
    assert_eq!(client().run_async_step(Wake::Events(lost()), &mut waiting), Step::Unmet);
    assert_eq!(waiting.len(), 1);
    waiting.clear();
    assert_eq!(client().handle_batch(lost(), &mut waiting), Err(Halt::Unmet));
}

#[test]
fn closed_sources_end_the_client() {
    let mut client = client();
    let mut waiting = VecDeque::new();
    assert_eq!(client.run_step(Wake::Events(Vec::new()), &mut waiting), Step::Stop);
    assert_eq!(client.run_step(Wake::Stanza(None), &mut waiting), Step::Stop);
    assert_eq!(client.run_async_step(Wake::Events(Vec::new()), &mut waiting), Step::Stop);
    assert_eq!(client.run_async_step(Wake::Stanza(None), &mut waiting), Step::Stop);
    client.add_connection(account(), Vec::new());
    let sent = Wake::Stanza(Some((account(), Outgoing::Element(stanza("<a xmlns='x'/>")))));
    assert_eq!(client.run_step(sent, &mut waiting), Step::Next);
    let sent = Wake::Stanza(Some((account(), Outgoing::Element(stanza("<b xmlns='x'/>")))));
    assert_eq!(client.run_async_step(sent, &mut waiting), Step::Next);
    assert_eq!(client.take_outgoing(&account()).len(), 2);
}

#[test]
fn events_keep_the_connections() {
    let mut client = with_module(recorder());
    client.add_connection(account(), Vec::new());
    let lost = Event::Disconnected(account(), "reset".to_string());
    assert!(client.handle_event(lost).is_ok());
    assert!(client.handle_event(Event::AuthError(account(), "denied".to_string())).is_ok());
    assert!(client.init().is_ok());
    assert_eq!(client.handle_event(Event::Quit), Err(Halt::Quit));
    let current = client.current_account().unwrap();
    assert_eq!(current.to_string(), "romeo@example.net/orchard");
    assert!(client.connections.contains_key(&current));
}

#[test]
fn start_comes_behind_what_was_scheduled() {
    let mut client = client();
    client.schedule(Event::WindowChange);
    client.begin();
    assert_eq!(client.shared.events.len(), 2);
    assert!(matches!(client.shared.events[0], Event::WindowChange));
    assert!(matches!(client.shared.events[1], Event::Start));
}

#[test]
fn quit_alone_is_an_error() {
    let mut client = client();
    assert_eq!(client.handle_event(Event::Quit), Err(Halt::Quit));
    assert_eq!(client.handle_event(Event::WindowChange), Ok(()));
    assert_eq!(client.handle_event(Event::ChangeWindow("x".to_string())), Ok(()));
    assert!(client.dispatch_event(Event::Quit).is_err());
    assert!(client.shared.events.is_empty());
}
