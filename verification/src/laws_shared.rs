//! What holds of what the client shares with those who act for it.
use crate::account::Account;
use crate::async_iq::PendingIqState;
use crate::crypto::CryptoEngine;
use crate::event::Event;
use crate::laws_values::law_description_in_language;
use crate::message::Message;
use crate::presence::Outgoing;
use crate::shared::Shared;
use crate::stanza::{Iq, IqType};
use std::task::Waker;
use vstd::prelude::*;

verus! {

impl<C> Shared<C> {
    /// What is added to what is to happen comes last, and what is added to what is to be sent does:
    /// nothing before it changes, and nothing else does.
    pub proof fn law_added_last(
        self,
        after: Self,
        event: Event,
        later: Self,
        account: Account,
        stanza: Outgoing,
    )
        requires
            self.scheduled(after, event),
            self.queued(later, account, stanza),
        ensures
            after.events@.len() == self.events@.len() + 1,
            after.events@.last() == event,
            forall|i: int|
                0 <= i < self.events@.len() ==> #[trigger] after.events@[i] == self.events@[i],
            after.stanzas == self.stanzas,
            after.pending_iq == self.pending_iq,
            after.crypto_engines == self.crypto_engines,
            after.woken == self.woken,
            later.stanzas@.len() == self.stanzas@.len() + 1,
            later.stanzas@.last() == (account, stanza),
            forall|i: int|
                0 <= i < self.stanzas@.len() ==> #[trigger] later.stanzas@[i] == self.stanzas@[i],
            later.events == self.events,
            later.pending_iq == self.pending_iq,
            later.crypto_engines == self.crypto_engines,
            later.woken == self.woken,
    {
    }

    /// A line of the log is a message without a stanza, for the account that it is shown for, with
    /// the very text. It comes behind all that is to happen, and nothing else changes.
    pub proof fn law_log_is_a_message(
        self,
        after: Self,
        account: Option<Account>,
        text: Seq<char>,
    )
        requires
            self.logged(after, account, text),
        ensures
            after.events@.len() == self.events@.len() + 1,
            forall|i: int|
                0 <= i < self.events@.len() ==> #[trigger] after.events@[i] == self.events@[i],
            after.events@.last() matches Event::Message(to, Message::Log(body)) && to == account
                && body@ == text,
            after.stanzas == self.stanzas,
            after.pending_iq == self.pending_iq,
            after.crypto_engines == self.crypto_engines,
            after.woken == self.woken,
    {
        assert forall|i: int| 0 <= i < self.events@.len() implies #[trigger] after.events@[i]
            == self.events@[i] by {
            assert(after.events@.drop_last()[i] == self.events@[i]);
        }
    }

    /// An answer to a request that is waited for is kept for the one who asked, who is woken if
    /// they wait; nobody else is. It takes the place of one that could not be read, and not of an
    /// earlier answer. No other request changes, and nothing is shown, scheduled or sent.
    pub proof fn law_awaited_answer_is_kept(
        self,
        after: Self,
        account: Account,
        iq: Iq,
        uuid: u128,
    )
        requires
            self.pending_iq@.contains_key(uuid),
            self.answered(after, account, iq, Some(uuid)),
        ensures
            after.events == self.events,
            after.stanzas == self.stanzas,
            after.crypto_engines == self.crypto_engines,
            after.pending_iq@.dom() == self.pending_iq@.dom(),
            forall|other: u128|
                other != uuid && self.pending_iq@.contains_key(other)
                    ==> #[trigger] after.pending_iq@[other] == self.pending_iq@[other],
            match self.pending_iq@[uuid] {
                PendingIqState::Waiting(Some(waker)) => after.pending_iq@[uuid]
                    == PendingIqState::Finished(iq) && after.woken@ == self.woken@.push(waker),
                PendingIqState::Waiting(None) => after.pending_iq@[uuid]
                    == PendingIqState::Finished(iq) && after.woken@ == self.woken@,
                PendingIqState::Errored(_) => after.pending_iq@[uuid] == PendingIqState::Finished(
                    iq,
                ) && after.woken@ == self.woken@,
                PendingIqState::Finished(first) => after.pending_iq@[uuid]
                    == PendingIqState::Finished(first) && after.woken@ == self.woken@,
            },
    {
        let state = self.pending_iq@[uuid];
        assert(after.pending_iq@.dom() =~= self.pending_iq@.dom());
        if let PendingIqState::Waiting(Some(waker)) = state {
            assert(self.woken@ + seq![waker] =~= self.woken@.push(waker));
        } else {
            assert(self.woken@ + Seq::<Waker>::empty() =~= self.woken@);
        }
    }

    /// Of what nobody waits for, a request is announced as it came, and a failure is shown to the
    /// account in the first description that is in English. A result, and a failure without such a
    /// description, change nothing. Nobody waits where the identifier writes no number, or one that
    /// was not asked with.
    pub proof fn law_unawaited_is_announced(
        self,
        after: Self,
        account: Account,
        iq: Iq,
        uuid: Option<u128>,
    )
        requires
            uuid is None || !self.pending_iq@.contains_key(uuid->0),
            self.answered(after, account, iq, uuid),
        ensures
            after == (Shared { events: after.events, ..self }),
            iq.payload is Request ==> after.events@ == self.events@.push(Event::Iq(account, iq)),
            iq.payload is Result ==> after == self,
            iq.payload is Error && (forall|j: int|
                0 <= j < iq.payload->Error_0.texts@.len()
                    ==> #[trigger] iq.payload->Error_0.texts@[j].0@ != "en"@) ==> after == self,
            forall|i: int|
                {
                    &&& iq.payload is Error
                    &&& 0 <= i < iq.payload->Error_0.texts@.len()
                    &&& #[trigger] iq.payload->Error_0.texts@[i].0@ == "en"@
                    &&& forall|j: int|
                        0 <= j < i ==> #[trigger] iq.payload->Error_0.texts@[j].0@ != "en"@
                } ==> {
                    &&& after.events@.len() == self.events@.len() + 1
                    &&& after.events@.drop_last() == self.events@
                    &&& after.events@.last() matches Event::Message(
                        Some(to),
                        Message::Log(text),
                    ) && to == account && text@ == iq.payload->Error_0.texts@[i].1@
                },
    {
        if let IqType::Error(error) = iq.payload {
            law_description_in_language(error, "en"@);
        }
    }

    /// What could not be read counts only for a request that still waits, and wakes the one who
    /// waits for it. No other request changes, and nothing is shown, scheduled or sent.
    pub proof fn law_unreadable_answer_is_kept(
        self,
        after: Self,
        reason: String,
        uuid: Option<u128>,
    )
        requires
            self.errored(after, reason, uuid),
        ensures
            uuid is None || !self.pending_iq@.contains_key(uuid->0) ==> after == self,
            uuid is Some && self.pending_iq@.contains_key(uuid->0) ==> {
                &&& after.events == self.events
                &&& after.stanzas == self.stanzas
                &&& after.crypto_engines == self.crypto_engines
                &&& after.pending_iq@.dom() == self.pending_iq@.dom()
                &&& forall|other: u128|
                    other != uuid->0 && self.pending_iq@.contains_key(other)
                        ==> #[trigger] after.pending_iq@[other] == self.pending_iq@[other]
                &&& match self.pending_iq@[uuid->0] {
                    PendingIqState::Waiting(Some(waker)) => after.pending_iq@[uuid->0]
                        == PendingIqState::Errored(reason) && after.woken@ == self.woken@.push(
                        waker,
                    ),
                    PendingIqState::Waiting(None) => after.pending_iq@[uuid->0]
                        == PendingIqState::Errored(reason) && after.woken@ == self.woken@,
                    PendingIqState::Errored(first) => after.pending_iq@[uuid->0]
                        == PendingIqState::Errored(first) && after.woken@ == self.woken@,
                    PendingIqState::Finished(iq) => after.pending_iq@[uuid->0]
                        == PendingIqState::Finished(iq) && after.woken@ == self.woken@,
                }
            },
    {
        if uuid is Some && self.pending_iq@.contains_key(uuid->0) {
            assert(after.pending_iq@.dom() =~= self.pending_iq@.dom());
            if let PendingIqState::Waiting(Some(waker)) = self.pending_iq@[uuid->0] {
                assert(self.woken@ + seq![waker] =~= self.woken@.push(waker));
            } else {
                assert(self.woken@ + Seq::<Waker>::empty() =~= self.woken@);
            }
        }
    }

    /// A request and its answer: once asked, the answer that comes is the one that is handed out,
    /// once, and the one who waits is woken for it.
    pub proof fn law_answer_reaches_who_asked(
        self,
        asked: Self,
        uuid: u128,
        waits: Self,
        waker: Waker,
        none: Option<Result<Iq, String>>,
        came: Self,
        account: Account,
        iq: Iq,
        after: Self,
        other: Waker,
        r: Option<Result<Iq, String>>,
    )
        requires
            self.expects(asked, uuid),
            asked.polled(waits, uuid, waker, none),
            waits.answered(came, account, iq, Some(uuid)),
            came.polled(after, uuid, other, r),
        ensures
            none is None,
            came.woken@ == self.woken@.push(waker),
            r == Some(Ok::<Iq, String>(iq)),
            after.pending_iq@ == self.pending_iq@.remove(uuid),
            after.events == self.events,
            after.stanzas == self.stanzas,
            after.crypto_engines == self.crypto_engines,
    {
        assert(self.woken@ + seq![waker] =~= self.woken@.push(waker));
        assert(after.pending_iq@ =~= self.pending_iq@.remove(uuid));
    }

    /// Asking for an answer gives it once, as it came or as it could not be read, and forgets the
    /// request. Where none came, the one who asked last is the one to wake. Where nothing was
    /// asked, nothing changes. Nobody is woken by it, and no other request changes.
    pub proof fn law_answer_is_handed_out_once(
        self,
        after: Self,
        uuid: u128,
        waker: Waker,
        r: Option<Result<Iq, String>>,
    )
        requires
            self.polled(after, uuid, waker, r),
        ensures
            after.events == self.events,
            after.stanzas == self.stanzas,
            after.crypto_engines == self.crypto_engines,
            after.woken == self.woken,
            forall|other: u128| #![trigger after.pending_iq@.contains_key(other)]
                other != uuid ==> (after.pending_iq@.contains_key(other)
                    <==> self.pending_iq@.contains_key(other)),
            forall|other: u128|
                other != uuid && self.pending_iq@.contains_key(other)
                    ==> #[trigger] after.pending_iq@[other] == self.pending_iq@[other],
            !self.pending_iq@.contains_key(uuid) ==> r is None && after.pending_iq@
                == self.pending_iq@,
            self.pending_iq@.contains_key(uuid) ==> match self.pending_iq@[uuid] {
                PendingIqState::Waiting(_) => r is None && after.pending_iq@.contains_key(uuid)
                    && after.pending_iq@[uuid] == PendingIqState::Waiting(Some(waker)),
                PendingIqState::Errored(reason) => r == Some(Err::<Iq, String>(reason))
                    && !after.pending_iq@.contains_key(uuid),
                PendingIqState::Finished(iq) => r == Some(Ok::<Iq, String>(iq))
                    && !after.pending_iq@.contains_key(uuid),
            },
    {
    }

    /// To expect an answer makes room for it, for nobody yet, and changes nothing else; what was
    /// kept of an earlier request with this number is forgotten.
    pub proof fn law_expecting_makes_room(self, after: Self, uuid: u128)
        requires
            self.expects(after, uuid),
        ensures
            after.pending_iq@ == self.pending_iq@.insert(uuid, PendingIqState::Waiting(None)),
            after.events == self.events,
            after.stanzas == self.stanzas,
            after.crypto_engines == self.crypto_engines,
            after.woken == self.woken,
    {
    }

    /// A scheme that is set for a conversation is the scheme of that conversation, in the place of
    /// an earlier one, and of no other. Nothing else changes.
    pub proof fn law_scheme_is_set(
        self,
        after: Self,
        id: Seq<Seq<char>>,
        engine: CryptoEngine<C>,
    )
        requires
            self.engine_added(after, id, engine),
        ensures
            after.crypto_engines@.contains_key(id),
            after.crypto_engines@[id] == engine,
            forall|other: Seq<Seq<char>>| #![trigger after.crypto_engines@.contains_key(other)]
                other != id ==> (after.crypto_engines@.contains_key(other)
                    <==> self.crypto_engines@.contains_key(other)),
            forall|other: Seq<Seq<char>>|
                other != id && self.crypto_engines@.contains_key(other)
                    ==> #[trigger] after.crypto_engines@[other] == self.crypto_engines@[other],
            after.events == self.events,
            after.stanzas == self.stanzas,
            after.pending_iq == self.pending_iq,
            after.woken == self.woken,
    {
    }
}

} // verus!
