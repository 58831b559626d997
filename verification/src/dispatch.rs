//! What the client does with an event.
use crate::account::{resource_of, text_view, Account, FullJid, Jid, JidView};
use crate::aparte::Aparte;
use crate::async_iq::{read_uuid, uuid_of};
use crate::crypto::{conversation_id, Cipher, Conversation};
use crate::event::{Delay, Event};
use crate::message::Message;
use crate::mods::ModTrait;
use crate::shared::{log_added, presence_added, Shared};
use crate::payload::{
    can_look, encryption_of, look_at_payloads, looked_at, payloads_view, Payload, PayloadView,
};
use crate::presence::{Outgoing, Presence, PresencePayload, PresencePayloadView, PresenceView};
use crate::stanza::{
    iq_of, iq_result_view, jid_view, message_of, presence_fault, read_iq, read_message,
    read_presence, xml_attribute, xml_name, Element, Iq, IqType, XmppMessage,
};
use crate::table::Key;
use vstd::prelude::*;

verus! {

/// The conversation that a message came in.
pub open spec fn sender_id(account: Account, from: JidView) -> Seq<Seq<char>> {
    seq![account@.text(), from.bare().text()]
}

/// What is seen of a message: its sender and its payloads, or the reason why it is none.
pub open spec fn message_seen(xml: Seq<char>) -> Result<
    (Option<JidView>, Seq<PayloadView>),
    Seq<char>,
> {
    match message_of(xml) {
        Ok((from, payloads)) => Ok((from, looked_at(xml, payloads as int))),
        Err(reason) => Err(reason),
    }
}

/// The view of what was seen of a message.
pub open spec fn message_result_view(r: Result<(Option<Jid>, Vec<Payload>), String>) -> Result<
    (Option<JidView>, Seq<PayloadView>),
    Seq<char>,
> {
    match r {
        Ok((from, payloads)) => Ok((jid_view(from), payloads_view(payloads@))),
        Err(reason) => Err(reason@),
    }
}

/// Whether the message can be looked at: all can but those with a payload that cannot be.
pub open spec fn can_see_message(xml: Seq<char>) -> bool {
    message_of(xml) matches Ok((from, payloads)) ==> can_look(xml, payloads as int)
}

/// Whether the stanza can be looked at.
pub open spec fn can_see(stanza: Element) -> bool {
    xml_name(stanza@) == Some("message"@) ==> can_see_message(stanza@)
}

/// Looks at a message. There is nothing to see where a payload cannot be looked at.
pub fn look_at_message(xml: &str) -> (r: Option<Result<(Option<Jid>, Vec<Payload>), String>>)
    ensures
        match r {
            Some(parsed) => {
                &&& can_see_message(xml@)
                &&& message_result_view(parsed) == message_seen(xml@)
            },
            None => !can_see_message(xml@),
        },
{
    match read_message(xml) {
        Ok((from, payloads)) => match look_at_payloads(xml, payloads) {
            Some(payloads) => Some(Ok((from, payloads))),
            None => None,
        },
        Err(reason) => Some(Err(reason)),
    }
}

/// The message to go on with after a decryption: what it gave, or the message as it came.
pub open spec fn readable(
    message: XmppMessage,
    decrypted: Result<XmppMessage, String>,
) -> XmppMessage {
    match decrypted {
        Ok(clear) => clear,
        Err(_) => message,
    }
}

/// Whom a channel is joined as: under the nickname that its address names, else under the name of
/// the account. There is nobody where the account has no name, or one that can be no nickname.
pub open spec fn join_target(account: FullJid, channel: Jid) -> Option<JidView> {
    if channel@.resource is Some {
        Some(channel@)
    } else {
        match account@.node {
            Some(node) => match resource_of(node) {
                Ok(nick) => Some(channel@.with_resource(nick)),
                Err(_) => None,
            },
            None => None,
        }
    }
}

/// The presence that joins a channel.
pub open spec fn join_presence(account: FullJid, target: JidView) -> PresenceView {
    PresenceView {
        type_: None,
        from: Some(account@.text()),
        to: Some(target.text()),
        show: None,
        payloads: seq![PresencePayloadView::Muc],
    }
}

/// Whom a channel is joined as.
pub fn find_join_target(account: &FullJid, channel: &Jid) -> (r: Option<FullJid>)
    ensures
        match r {
            Some(target) => join_target(*account, *channel) == Some(target@),
            None => join_target(*account, *channel) is None,
        },
{
    match channel.clone().try_into_full() {
        Ok(full_jid) => Some(full_jid),
        Err(bare_jid) => match &account.node {
            Some(node) => match bare_jid.with_resource_str(node.as_str()) {
                Ok(full_jid) => Some(full_jid),
                Err(_) => None,
            },
            None => None,
        },
    }
}

/// The message to go on with after a decryption.
pub fn keep_readable(message: XmppMessage, decrypted: Result<XmppMessage, String>) -> (r:
    XmppMessage)
    ensures
        r == readable(message, decrypted),
{
    match decrypted {
        Ok(clear) => clear,
        Err(_) => message,
    }
}

impl<D, C> Aparte<D, C> {
    /// The client while the scheme of a conversation is at work: nobody else gets at it.
    pub open spec fn lent(self, during: Self, id: Seq<Seq<char>>) -> bool {
        &&& during == (Aparte {
            shared: Shared { crypto_engines: during.shared.crypto_engines, ..self.shared },
            ..self
        })
        &&& during.shared.crypto_engines@ == self.shared.crypto_engines@.remove(id)
    }

    /// Whether the message goes out encrypted: its conversation has a scheme.
    pub open spec fn encrypts_for(self, account: Account, message: Message) -> bool {
        message.recipient() is Some && self.shared.crypto_engines@.contains_key(
            conversation_id(account, message.recipient()->0),
        )
    }

    /// Whether the message is to be decrypted: it is encrypted, its sender is known, and their
    /// conversation has a scheme, the one that the message is encrypted with.
    pub open spec fn decrypts_from(self, account: Account, message: XmppMessage) -> bool {
        let namespace = encryption_of(payloads_view(message.payloads@));
        &&& namespace is Some
        &&& message.from is Some
        &&& self.shared.crypto_engines@.contains_key(sender_id(account, message.from->0@))
        &&& self.shared.crypto_engines@[sender_id(account, message.from->0@)].namespace@
            == namespace->0
    }

    /// What is sent for a message, given what encrypting it gave: the encrypted stanza, nothing
    /// where that failed, and where it was not to be encrypted, the message itself. A line of the
    /// log is not sent.
    pub open spec fn sent(
        self,
        after: Self,
        account: Account,
        message: Message,
        encryption: Option<Result<Element, String>>,
    ) -> bool {
        &&& self.only_shared(after)
        &&& match (encryption, message) {
            (Some(Ok(stanza)), _) => self.shared.queued(
                after.shared,
                account,
                Outgoing::Element(stanza),
            ),
            (Some(Err(_)), _) => after == self,
            (None, Message::Xmpp { element, recipient }) => self.shared.queued(
                after.shared,
                account,
                Outgoing::Element(element),
            ),
            (None, Message::Log(_)) => after == self,
        }
    }

    /// What becomes of something that was read as a request or an answer, or could not be, given
    /// the identifier that the stanza bears.
    pub open spec fn iq_received(
        self,
        after: Self,
        account: Account,
        stanza: Element,
        parsed: Result<(String, IqType), String>,
        id: Option<String>,
    ) -> bool {
        &&& self.only_shared(after)
        &&& match parsed {
            Ok((id, payload)) => self.shared.answered(
                after.shared,
                account,
                Iq { id, payload, element: stanza },
                uuid_of(id@),
            ),
            Err(reason) => match id {
                Some(id) => self.shared.errored(after.shared, reason, uuid_of(id@)),
                None => after == self,
            },
        }
    }

    /// What joining a channel as somebody does.
    pub open spec fn joined(
        self,
        after: Self,
        account: FullJid,
        channel: Jid,
        target: JidView,
        user_request: bool,
    ) -> bool {
        let (before, events) = (self.shared.events@, after.shared.events@);
        &&& after == (Aparte {
            shared: Shared {
                events: after.shared.events,
                stanzas: after.shared.stanzas,
                ..self.shared
            },
            ..self
        })
        &&& presence_added(
            self.shared.stanzas@,
            after.shared.stanzas@,
            account,
            join_presence(account, target),
        )
        &&& events.len() == before.len() + 2
        &&& log_added(before, events.drop_last(), None, "Joined "@ + channel@.text())
        &&& events.last() matches Event::Joined { account: a, channel: c, user_request: u } && a
            == account && c@ == target && u == user_request
    }

    /// Whether the client can handle the event: it cannot while a module is at work, can start only
    /// where each account that connects by itself has a password, can announce itself only with the
    /// module that knows what it can do, can take a stanza in only where it can look at it, and can
    /// join a channel only as somebody.
    pub open spec fn can_handle(self, event: Event) -> bool {
        &&& !self.mods_at_work
        &&& match event {
            Event::Start => self.config.can_start(),
            Event::Connected(_, _) => self.mods@.len() > 0,
            Event::Stanza(_, stanza) => can_see(stanza),
            Event::Join { account, channel, user_request } => join_target(
                account,
                channel,
            ) is Some,
            _ => true,
        }
    }

    /// Whether the client can handle the event.
    pub fn check_event(&self, event: &Event) -> (r: bool)
        ensures
            r == self.can_handle(*event),
    {
        if self.mods_at_work {
            return false;
        }
        match event {
            Event::Start => self.config.check_start(),
            Event::Connected(_, _) => self.mods.len() > 0,
            Event::Stanza(_, stanza) => match stanza.name() {
                Some(name) => name != "message".to_owned() || look_at_message(
                    stanza.xml.as_str(),
                ).is_some(),
                None => true,
            },
            Event::Join { account, channel, user_request: _ } => find_join_target(
                account,
                channel,
            ).is_some(),
            _ => true,
        }
    }

    /// Sends a message, given what encrypting it gave.
    pub fn finish_send(
        &mut self,
        account: &Account,
        message: Message,
        encryption: Option<Result<Element, String>>,
    )
        ensures
            old(self).sent(*final(self), *account, message, encryption),
    {
        match encryption {
            Some(Ok(stanza)) => self.send(account, Ok(stanza)),
            Some(Err(_)) => {},
            None => self.send(account, message.to_element()),
        }
    }

    /// Takes a request or an answer in.
    pub fn handle_iq(&mut self, account: Account, iq: Iq)
        ensures
            old(self).only_shared(*final(self)),
            old(self).shared.answered(final(self).shared, account, iq, uuid_of(iq.id@)),
    {
        let uuid = read_uuid(iq.id.as_str());
        self.shared.answer(account, iq, uuid);
    }

    /// Takes in that an answer with this identifier could not be read.
    pub fn errored_iq(&mut self, id: &str, err: String)
        ensures
            old(self).only_shared(*final(self)),
            old(self).shared.errored(final(self).shared, err, uuid_of(id@)),
    {
        let uuid = read_uuid(id);
        self.shared.fail(err, uuid);
    }

    /// Takes in what was read as a request or an answer, or could not be, given the identifier that
    /// the stanza bears.
    pub fn receive_iq(
        &mut self,
        account: Account,
        stanza: Element,
        parsed: Result<(String, IqType), String>,
        id: Option<String>,
    )
        ensures
            old(self).iq_received(*final(self), account, stanza, parsed, id),
    {
        match parsed {
            Ok((id, payload)) => self.handle_iq(account, Iq { id, payload, element: stanza }),
            Err(err) => {
                if let Some(id) = &id {
                    self.errored_iq(id.as_str(), err);
                }
            },
        }
    }

    /// Takes in what was read as a presence, or could not be.
    pub fn receive_presence(
        &mut self,
        account: Account,
        stanza: Element,
        parsed: Result<(), String>,
    )
        ensures
            old(self).only_shared(*final(self)),
            match parsed {
                Ok(_) => old(self).shared.scheduled(
                    final(self).shared,
                    Event::Presence(account, stanza),
                ),
                Err(_) => *final(self) == *old(self),
            },
    {
        match parsed {
            Ok(_) => self.schedule(Event::Presence(account, stanza)),
            Err(_) => {},
        }
    }

    /// Joins a channel as somebody.
    pub fn join_as(&mut self, account: FullJid, channel: &Jid, target: FullJid, user_request: bool)
        ensures
            old(self).joined(*final(self), account, *channel, target@, user_request),
    {
        let mut payloads: Vec<PresencePayload> = Vec::new();
        payloads.push(PresencePayload::Muc);
        let presence = Presence {
            type_: None,
            from: Some(account.to_string()),
            to: Some(target.to_string()),
            show: None,
            payloads,
        };
        assert(presence@.payloads =~= join_presence(account, target@).payloads);
        self.shared.send_presence(&account, presence);
        self.log("Joined ".to_owned().concat(channel.to_string().as_str()));
        let ghost logged = self.shared.events@;
        self.schedule(Event::Joined { account: account.clone(), channel: target, user_request });
        assert(self.shared.events@.drop_last() =~= logged);
    }
}

impl<D: ModTrait<Aparte<D, C>>, C: Cipher<Aparte<D, C>>> Aparte<D, C> {
    /// What encrypting a message gives, where it is to be encrypted.
    pub open spec fn encrypted(
        self,
        after: Self,
        account: Account,
        message: Message,
        encryption: Option<Result<Element, String>>,
    ) -> bool {
        if self.encrypts_for(account, message) {
            let id = conversation_id(account, message.recipient()->0);
            &&& encryption is Some
            &&& self.only_shared(after)
            &&& self.shared.engine_used(after.shared, id)
            &&& exists|during: Self| #[trigger]
                self.lent(during, id) && self.shared.crypto_engines@[id].cipher.encrypts(
                    during,
                    account,
                    message,
                    after.shared.crypto_engines@[id].cipher,
                    encryption->0,
                )
        } else {
            encryption is None && after == self
        }
    }

    /// What becomes of a message that the user sends: it is shown, encrypted where its conversation
    /// has a scheme, and sent.
    pub open spec fn submitted(self, after: Self, account: Account, message: Message) -> bool {
        exists|shown: Self, mid: Self, encryption: Option<Result<Element, String>>|
            {
                &&& self.only_shared(shown)
                &&& self.shared.scheduled(shown.shared, Event::Message(Some(account), message))
                &&& #[trigger] shown.encrypted(mid, account, message, encryption)
                &&& mid.sent(after, account, message, encryption)
            }
    }

    /// What decrypting a message gives, where it is to be decrypted.
    pub open spec fn decrypted(
        self,
        after: Self,
        account: Account,
        message: XmppMessage,
        clear: XmppMessage,
    ) -> bool {
        if self.decrypts_from(account, message) {
            let id = sender_id(account, message.from->0@);
            &&& self.only_shared(after)
            &&& self.shared.engine_used(after.shared, id)
            &&& exists|during: Self, r: Result<XmppMessage, String>|
                {
                    &&& self.lent(during, id)
                    &&& #[trigger] self.shared.crypto_engines@[id].cipher.decrypts(
                        during,
                        account,
                        message,
                        after.shared.crypto_engines@[id].cipher,
                        r,
                    )
                    &&& clear == readable(message, r)
                }
        } else {
            after == self && clear == message
        }
    }

    /// What becomes of a message that came.
    pub open spec fn message_handled(
        self,
        after: Self,
        account: Account,
        message: XmppMessage,
        delay: Option<Delay>,
        archive: bool,
    ) -> bool {
        exists|mid: Self, clear: XmppMessage| #[trigger]
            self.decrypted(mid, account, message, clear) && mid.routed(
                account,
                clear,
                delay,
                archive,
                after,
            )
    }

    /// What becomes of something that was read as a message, or could not be.
    pub open spec fn message_received(
        self,
        after: Self,
        account: Account,
        stanza: Element,
        parsed: Result<(Option<Jid>, Vec<Payload>), String>,
    ) -> bool {
        match parsed {
            Ok((from, payloads)) => self.message_handled(
                after,
                account,
                XmppMessage { from, payloads, element: stanza },
                None,
                false,
            ),
            Err(_) => after == self,
        }
    }

    /// What becomes of a stanza with this name. One with another name is dropped, and so is a
    /// presence or a message that cannot be read.
    pub open spec fn stanza_received(
        self,
        after: Self,
        account: Account,
        stanza: Element,
        name: Seq<char>,
    ) -> bool {
        if name == "iq"@ {
            exists|parsed: Result<(String, IqType), String>, id: Option<String>|
                {
                    &&& iq_result_view(parsed) == iq_of(stanza@)
                    &&& text_view(id) == xml_attribute(stanza@, "id"@)
                    &&& #[trigger] self.iq_received(after, account, stanza, parsed, id)
                }
        } else if name == "presence"@ {
            &&& self.only_shared(after)
            &&& if presence_fault(stanza@) is None {
                self.shared.scheduled(after.shared, Event::Presence(account, stanza))
            } else {
                after == self
            }
        } else if name == "message"@ {
            exists|parsed: Result<(Option<Jid>, Vec<Payload>), String>|
                message_result_view(parsed) == message_seen(stanza@)
                    && #[trigger] self.message_received(after, account, stanza, parsed)
        } else {
            after == self
        }
    }

    /// What becomes of a stanza that came, by its name.
    pub open spec fn stanza_handled(self, after: Self, account: Account, stanza: Element) -> bool {
        match xml_name(stanza@) {
            Some(name) => self.stanza_received(after, account, stanza, name),
            None => after == self,
        }
    }

    /// Encrypts a message where its conversation has a scheme.
    pub fn encrypt(&mut self, account: &Account, message: &Message) -> (r: Option<
        Result<Element, String>,
    >)
        ensures
            old(self).encrypted(*final(self), *account, *message, r),
    {
        let recipient = match message.encryption_recipient() {
            Some(recipient) => recipient,
            None => {
                return None;
            },
        };
        let conversation = Conversation { account: account.clone(), recipient };
        let ghost id = conversation.id();
        assert(id == conversation_id(*account, message.recipient()->0));
        if !self.shared.crypto_engines.contains_key(&conversation) {
            return None;
        }
        match self.shared.crypto_engines.remove(&conversation) {
            Some(mut engine) => {
                let ghost during = *self;
                assert(old(self).lent(during, id));
                let r = engine.cipher.encrypt(&*self, account, message);
                let ghost used = engine;
                self.shared.crypto_engines.insert(conversation, engine);
                proof {
                    let engines = old(self).shared.crypto_engines@;
                    assert(self.shared.crypto_engines@[id] == used);
                    assert(self.shared.crypto_engines@ =~= engines.insert(id, used));
                }
                Some(r)
            },
            None => None,
        }
    }

    /// Decrypts a message that is to be decrypted. One that cannot be is kept as it came.
    pub fn decrypt(&mut self, account: &Account, message: XmppMessage) -> (clear: XmppMessage)
        ensures
            old(self).decrypted(*final(self), *account, message, clear),
    {
        let namespace = match message.encryption_namespace() {
            Some(namespace) => namespace,
            None => {
                return message;
            },
        };
        let recipient = match &message.from {
            Some(from) => from.to_bare(),
            None => {
                return message;
            },
        };
        let conversation = Conversation { account: account.clone(), recipient };
        let ghost id = conversation.id();
        assert(id == sender_id(*account, message.from->0@));
        match self.shared.crypto_engines.get(&conversation) {
            Some(engine) => {
                if *engine.ns() != namespace {
                    return message;
                }
            },
            None => {
                return message;
            },
        }
        match self.shared.crypto_engines.remove(&conversation) {
            Some(mut engine) => {
                let ghost during = *self;
                assert(old(self).lent(during, id));
                let r = engine.cipher.decrypt(&*self, account, &message);
                let ghost used = engine;
                self.shared.crypto_engines.insert(conversation, engine);
                proof {
                    let engines = old(self).shared.crypto_engines@;
                    assert(self.shared.crypto_engines@[id] == used);
                    assert(self.shared.crypto_engines@ =~= engines.insert(id, used));
                    assert(old(self).decrypts_from(*account, message));
                    assert(engines[id].cipher.decrypts(
                        during,
                        *account,
                        message,
                        self.shared.crypto_engines@[id].cipher,
                        r,
                    ));
                }
                keep_readable(message, r)
            },
            None => message,
        }
    }

    /// Takes a message in that came, from the stream or from an archive.
    pub fn handle_xmpp_message(
        &mut self,
        account: Account,
        message: XmppMessage,
        delay: Option<Delay>,
        archive: bool,
    )
        requires
            !old(self).mods_at_work,
        ensures
            old(self).message_handled(*final(self), account, message, delay, archive),
    {
        let clear = self.decrypt(&account, message);
        self.route(&account, &clear, &delay, archive);
    }

    /// Takes in what was read as a message, or could not be.
    pub fn receive_message(
        &mut self,
        account: Account,
        stanza: Element,
        parsed: Result<(Option<Jid>, Vec<Payload>), String>,
    )
        requires
            !old(self).mods_at_work,
        ensures
            old(self).message_received(*final(self), account, stanza, parsed),
    {
        match parsed {
            Ok((from, payloads)) => {
                let message = XmppMessage { from, payloads, element: stanza };
                self.handle_xmpp_message(account, message, None, false);
            },
            Err(_) => {},
        }
    }

    /// Takes a stanza with this name in.
    pub fn receive_stanza(&mut self, account: Account, stanza: Element, name: &str)
        requires
            name@ == "message"@ ==> can_see_message(stanza@),
            !old(self).mods_at_work,
        ensures
            old(self).stanza_received(*final(self), account, stanza, name@),
    {
        let name = name.to_owned();
        if name == "iq".to_owned() {
            let parsed = read_iq(stanza.xml.as_str());
            let id = stanza.attr("id");
            self.receive_iq(account, stanza, parsed, id);
        } else if name == "presence".to_owned() {
            let parsed = read_presence(stanza.xml.as_str());
            self.receive_presence(account, stanza, parsed);
        } else if name == "message".to_owned() {
            if let Some(parsed) = look_at_message(stanza.xml.as_str()) {
                self.receive_message(account, stanza, parsed);
            }
        }
    }

    /// Takes a stanza in.
    pub fn handle_stanza(&mut self, account: Account, stanza: Element)
        requires
            can_see(stanza),
            !old(self).mods_at_work,
        ensures
            old(self).stanza_handled(*final(self), account, stanza),
            xml_name(stanza@) == Some("presence"@) && presence_fault(stanza@) is None
                ==> final(self).shared.events@ == old(self).shared.events@.push(
                Event::Presence(account, stanza),
            ),
    {
        proof {
            reveal_strlit("presence");
            reveal_strlit("iq");
            assert("presence"@.len() != "iq"@.len());
        }
        if let Some(name) = stanza.name() {
            self.receive_stanza(account, stanza, name.as_str());
        }
    }
}

} // verus!
