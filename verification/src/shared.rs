//! What the client shares with those who act for it: what is to happen next, what is to be sent,
//! which requests wait for answers, and who encrypts with whom.
use crate::account::{Account, BareJid};
use crate::async_iq::PendingIqState;
use crate::crypto::{conversation_id, Conversation, CryptoEngine};
use crate::disco::{announce, announcement, caps_bytes, caps_hash, DiscoInfo, DiscoInfoView};
use crate::event::Event;
use crate::message::Message;
use crate::presence::{sendable, Outgoing, Presence, PresenceView};
use crate::stanza::{text_in, texts_view, Element, Iq, IqType};
use crate::table::{Key, Table};
use std::collections::HashMap;
use std::task::Waker;
use vstd::prelude::*;

verus! {

/// What the client shares with those who act for it.
#[verifier::reject_recursive_types(C)]
pub struct Shared<C> {
    /// What is to happen, the next first.
    pub events: Vec<Event>,
    /// What is to be sent and for which account, the next first.
    pub stanzas: Vec<(Account, Outgoing)>,
    /// The requests that were sent, and how far each has come.
    pub pending_iq: HashMap<u128, PendingIqState>,
    /// Who encrypts in which conversation.
    pub crypto_engines: Table<Conversation, CryptoEngine<C>>,
    /// Those who waited for an answer and are to be woken.
    pub woken: Vec<Waker>,
}

/// Whether the event shows this line of the client's log.
pub open spec fn shows(event: Event, account: Option<Account>, text: Seq<char>) -> bool {
    event matches Event::Message(to, Message::Log(body)) && to == account && body@ == text
}

/// Whether a line of the client's log was added to what is to happen.
pub open spec fn log_added(
    before: Seq<Event>,
    after: Seq<Event>,
    account: Option<Account>,
    text: Seq<char>,
) -> bool {
    &&& after.len() == before.len() + 1
    &&& after.drop_last() == before
    &&& shows(after.last(), account, text)
}

/// Whether the presence was added to what is to be sent.
pub open spec fn presence_added(
    before: Seq<(Account, Outgoing)>,
    after: Seq<(Account, Outgoing)>,
    account: Account,
    presence: PresenceView,
) -> bool {
    &&& after.len() == before.len() + 1
    &&& after.drop_last() == before
    &&& after.last().0 == account
    &&& after.last().1 matches Outgoing::Presence(added) && added@ == presence
}

/// Whether the presence announces these capabilities, and can be written.
pub open spec fn announces(info: DiscoInfoView, presence: PresenceView) -> bool {
    &&& sendable(presence)
    &&& exists|hash: Seq<u8>|
        caps_hash(caps_bytes(info), "blake2b-512"@) == Ok::<Seq<u8>, Seq<char>>(hash) && presence
            == #[trigger] announcement(hash)
}

impl<C> Shared<C> {
    /// Whether only the event was added.
    pub open spec fn scheduled(self, after: Self, event: Event) -> bool {
        &&& after == (Shared { events: after.events, ..self })
        &&& after.events@ == self.events@.push(event)
    }

    /// Whether only a line of the client's log was added.
    pub open spec fn logged(self, after: Self, account: Option<Account>, text: Seq<char>) -> bool {
        &&& after == (Shared { events: after.events, ..self })
        &&& log_added(self.events@, after.events@, account, text)
    }

    /// Whether only the stanza was added.
    pub open spec fn queued(self, after: Self, account: Account, stanza: Outgoing) -> bool {
        &&& after == (Shared { stanzas: after.stanzas, ..self })
        &&& after.stanzas@ == self.stanzas@.push((account, stanza))
    }

    /// Whether the request is one that an answer is kept for.
    pub open spec fn awaits(self, uuid: Option<u128>) -> bool {
        uuid is Some && self.pending_iq@.contains_key(uuid->0)
    }

    /// Whether only the request came to this state, and those were woken who waited for it.
    pub open spec fn settled(self, after: Self, uuid: u128, state: PendingIqState) -> bool {
        &&& after == (Shared { pending_iq: after.pending_iq, woken: after.woken, ..self })
        &&& after.pending_iq@ == self.pending_iq@.insert(uuid, state)
        &&& after.woken@ == self.woken@ + self.pending_iq@[uuid].wakes()
    }

    /// What becomes of a request or an answer that came, by the number that its identifier writes.
    /// An answer that is waited for is kept. Of the others, a request is announced, a result is
    /// dropped, and a failure is shown where it is told in English.
    pub open spec fn answered(
        self,
        after: Self,
        account: Account,
        iq: Iq,
        uuid: Option<u128>,
    ) -> bool {
        if self.awaits(uuid) {
            self.settled(after, uuid->0, self.pending_iq@[uuid->0].after_answer(iq))
        } else {
            match iq.payload {
                IqType::Error(error) => match text_in(texts_view(error.texts@), "en"@) {
                    Some(text) => self.logged(after, Some(account), text),
                    None => after == self,
                },
                IqType::Result => after == self,
                IqType::Request => self.scheduled(after, Event::Iq(account, iq)),
            }
        }
    }

    /// What becomes of a request whose answer could not be read.
    pub open spec fn errored(self, after: Self, reason: String, uuid: Option<u128>) -> bool {
        if self.awaits(uuid) {
            self.settled(after, uuid->0, self.pending_iq@[uuid->0].after_error(reason))
        } else {
            after == self
        }
    }

    /// Whether only room was made for the answer to a request.
    pub open spec fn expects(self, after: Self, uuid: u128) -> bool {
        &&& after == (Shared { pending_iq: after.pending_iq, ..self })
        &&& after.pending_iq@ == self.pending_iq@.insert(uuid, PendingIqState::Waiting(None))
    }

    /// What asking for the answer to a request does and gives.
    pub open spec fn polled(
        self,
        after: Self,
        uuid: u128,
        waker: Waker,
        r: Option<Result<Iq, String>>,
    ) -> bool {
        &&& after == (Shared { pending_iq: after.pending_iq, ..self })
        &&& if self.pending_iq@.contains_key(uuid) {
            match self.pending_iq@[uuid] {
                PendingIqState::Waiting(_) => {
                    &&& r is None
                    &&& after.pending_iq@ == self.pending_iq@.insert(
                        uuid,
                        PendingIqState::Waiting(Some(waker)),
                    )
                },
                PendingIqState::Errored(reason) => {
                    &&& r == Some(Err::<Iq, String>(reason))
                    &&& after.pending_iq@ == self.pending_iq@.remove(uuid)
                },
                PendingIqState::Finished(iq) => {
                    &&& r == Some(Ok::<Iq, String>(iq))
                    &&& after.pending_iq@ == self.pending_iq@.remove(uuid)
                },
            }
        } else {
            r is None && after.pending_iq@ == self.pending_iq@
        }
    }

    /// Whether only this scheme was set for this conversation.
    pub open spec fn engine_added(
        self,
        after: Self,
        id: Seq<Seq<char>>,
        engine: CryptoEngine<C>,
    ) -> bool {
        &&& after == (Shared { crypto_engines: after.crypto_engines, ..self })
        &&& after.crypto_engines@ == self.crypto_engines@.insert(id, engine)
    }

    /// Whether only the state of the scheme in this conversation may have changed.
    pub open spec fn engine_used(self, after: Self, id: Seq<Seq<char>>) -> bool {
        &&& after == (Shared { crypto_engines: after.crypto_engines, ..self })
        &&& after.crypto_engines@ == self.crypto_engines@.insert(id, after.crypto_engines@[id])
        &&& after.crypto_engines@[id].namespace == self.crypto_engines@[id].namespace
    }

    /// Nothing to do, nobody to wait for.
    pub fn new() -> (r: Self)
        ensures
            r.events@ == Seq::<Event>::empty(),
            r.stanzas@ == Seq::<(Account, Outgoing)>::empty(),
            r.pending_iq@ == Map::<u128, PendingIqState>::empty(),
            r.crypto_engines@ == Map::<Seq<Seq<char>>, CryptoEngine<C>>::empty(),
            r.woken@ == Seq::<Waker>::empty(),
    {
        Shared {
            events: Vec::new(),
            stanzas: Vec::new(),
            pending_iq: HashMap::new(),
            crypto_engines: Table::new(),
            woken: Vec::new(),
        }
    }

    /// Adds an event to what is to happen.
    pub fn schedule(&mut self, event: Event)
        ensures
            old(self).scheduled(*final(self), event),
    {
        self.events.push(event);
    }

    /// Adds a stanza to what is to be sent.
    pub fn queue(&mut self, account: &Account, stanza: Outgoing)
        ensures
            old(self).queued(*final(self), *account, stanza),
    {
        self.stanzas.push((account.clone(), stanza));
    }

    /// Sends what could be turned into a stanza.
    pub fn send(&mut self, account: &Account, element: Result<Element, String>)
        ensures
            match element {
                Ok(stanza) => old(self).queued(*final(self), *account, Outgoing::Element(stanza)),
                Err(_) => *final(self) == *old(self),
            },
    {
        match element {
            Ok(stanza) => self.queue(account, Outgoing::Element(stanza)),
            Err(_) => {},
        }
    }

    /// Shows a line of the client's log.
    pub fn log(&mut self, message: String)
        ensures
            old(self).logged(*final(self), None, message@),
            old(self).scheduled(*final(self), Event::Message(None, Message::Log(message))),
    {
        self.schedule(Event::Message(None, Message::log(message)));
        assert(self.events@.drop_last() =~= old(self).events@);
    }

    /// Shows what failed and why.
    pub fn error(&mut self, message: String, err: String)
        ensures
            old(self).logged(*final(self), None, message@ + ": "@ + err@),
    {
        self.log(message.concat(": ").concat(err.as_str()));
    }

    /// Sets the scheme that encrypts in a conversation.
    pub fn add_crypto_engine(
        &mut self,
        account: &Account,
        recipient: &BareJid,
        crypto_engine: CryptoEngine<C>,
    )
        ensures
            old(self).engine_added(
                *final(self),
                conversation_id(*account, *recipient),
                crypto_engine,
            ),
    {
        let conversation = Conversation { account: account.clone(), recipient: recipient.clone() };
        assert(conversation.id() == conversation_id(*account, *recipient));
        self.crypto_engines.insert(conversation, crypto_engine);
    }

    /// Sends a presence.
    pub fn send_presence(&mut self, account: &Account, presence: Presence)
        ensures
            old(self).queued(*final(self), *account, Outgoing::Presence(presence)),
            presence_added(old(self).stanzas@, final(self).stanzas@, *account, presence@),
    {
        self.queue(account, Outgoing::Presence(presence));
        assert(self.stanzas@.drop_last() =~= old(self).stanzas@);
    }

    /// Tells the others that an account is there and what the client can do.
    pub fn announce(&mut self, account: &Account, info: &DiscoInfo)
        ensures
            *final(self) == (Shared { stanzas: final(self).stanzas, ..*old(self) }),
            exists|presence: PresenceView| #[trigger]
                announces(info@, presence) && presence_added(
                    old(self).stanzas@,
                    final(self).stanzas@,
                    *account,
                    presence,
                ),
    {
        let hash = info.verification_hash();
        let ghost bytes = hash@;
        let presence = announce(hash);
        assert(presence@ == announcement(bytes) && announces(info@, presence@));
        self.send_presence(account, presence);
    }

    /// Takes a request or an answer in, given the number that its identifier writes.
    pub fn answer(&mut self, account: Account, iq: Iq, uuid: Option<u128>)
        ensures
            old(self).answered(*final(self), account, iq, uuid),
    {
        broadcast use vstd::std_specs::hash::group_hash_axioms;

        if let Some(uuid) = uuid {
            if self.pending_iq.contains_key(&uuid) {
                if let Some(state) = self.pending_iq.remove(&uuid) {
                    let ghost came = state;
                    match state {
                        PendingIqState::Waiting(waker) => {
                            self.pending_iq.insert(uuid, PendingIqState::Finished(iq));
                            if let Some(waker) = waker {
                                self.woken.push(waker);
                            }
                        },
                        PendingIqState::Errored(_) => {
                            self.pending_iq.insert(uuid, PendingIqState::Finished(iq));
                        },
                        PendingIqState::Finished(first) => {
                            self.pending_iq.insert(uuid, PendingIqState::Finished(first));
                        },
                    }
                    proof {
                        assert(came == old(self).pending_iq@[uuid]);
                        assert(self.pending_iq@ =~= old(self).pending_iq@.insert(
                            uuid,
                            came.after_answer(iq),
                        ));
                        assert(self.woken@ =~= old(self).woken@ + came.wakes());
                    }
                }
                return;
            }
        }
        match &iq.payload {
            IqType::Error(error) => {
                if let Some(text) = error.text("en") {
                    self.schedule(Event::Message(Some(account), Message::log(text)));
                    assert(self.events@.drop_last() =~= old(self).events@);
                }
            },
            IqType::Result => {},
            IqType::Request => {
                self.schedule(Event::Iq(account, iq));
            },
        }
    }

    /// Takes in that an answer could not be read, given the number that its identifier writes.
    pub fn fail(&mut self, reason: String, uuid: Option<u128>)
        ensures
            old(self).errored(*final(self), reason, uuid),
    {
        broadcast use vstd::std_specs::hash::group_hash_axioms;

        if let Some(uuid) = uuid {
            if self.pending_iq.contains_key(&uuid) {
                if let Some(state) = self.pending_iq.remove(&uuid) {
                    let ghost came = state;
                    match state {
                        PendingIqState::Waiting(waker) => {
                            self.pending_iq.insert(uuid, PendingIqState::Errored(reason));
                            if let Some(waker) = waker {
                                self.woken.push(waker);
                            }
                        },
                        PendingIqState::Errored(first) => {
                            self.pending_iq.insert(uuid, PendingIqState::Errored(first));
                        },
                        PendingIqState::Finished(iq) => {
                            self.pending_iq.insert(uuid, PendingIqState::Finished(iq));
                        },
                    }
                    proof {
                        assert(came == old(self).pending_iq@[uuid]);
                        assert(self.pending_iq@ =~= old(self).pending_iq@.insert(
                            uuid,
                            came.after_error(reason),
                        ));
                        assert(self.woken@ =~= old(self).woken@ + came.wakes());
                    }
                }
            }
        }
    }

    /// Makes room for the answer to a request that is about to be sent.
    pub fn expect_answer(&mut self, uuid: u128)
        ensures
            old(self).expects(*final(self), uuid),
    {
        broadcast use vstd::std_specs::hash::group_hash_axioms;

        self.pending_iq.insert(uuid, PendingIqState::Waiting(None));
    }

    /// Takes the answer to a request out, or why it could not be read, where something came; else
    /// keeps whom to wake once it does.
    pub fn poll_answer(&mut self, uuid: u128, waker: Waker) -> (r: Option<Result<Iq, String>>)
        ensures
            old(self).polled(*final(self), uuid, waker, r),
    {
        broadcast use vstd::std_specs::hash::group_hash_axioms;

        let ghost before = self.pending_iq@;
        match self.pending_iq.remove(&uuid) {
            Some(PendingIqState::Waiting(_)) => {
                self.pending_iq.insert(uuid, PendingIqState::Waiting(Some(waker)));
                assert(self.pending_iq@ =~= before.insert(
                    uuid,
                    PendingIqState::Waiting(Some(waker)),
                ));
                None
            },
            Some(PendingIqState::Errored(reason)) => Some(Err(reason)),
            Some(PendingIqState::Finished(iq)) => Some(Ok(iq)),
            None => {
                assert(self.pending_iq@ =~= before);
                None
            },
        }
    }
}

} // verus!
