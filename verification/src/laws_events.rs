//! What holds of the handling of events, whatever the event is.
use crate::account::{resource_of, text_view, Account, ConnectionInfo, Jid, JidView, Password};
use crate::aparte::Aparte;
use crate::async_iq::uuid_of;
use crate::crypto::{conversation_id, Cipher};
use crate::disco::{caps_bytes, caps_hash, DiscoInfoView};
use crate::dispatch::{
    join_presence, join_target, message_result_view, message_seen, readable, sender_id,
};
use crate::event::{Delay, Event};
use crate::laws::law_best_is_one;
use crate::laws_values::law_best_is_highest;
use crate::message::Message;
use crate::mods::{is_best, Disco, Keeps, Mod, ModTrait};
use crate::payload::{can_look, encryption_of, looked_at, payloads_view, Payload};
use crate::presence::{Outgoing, PresencePayload, PresenceView};
use crate::run::Halt;
use crate::shared::{announces, presence_added, Shared};
use crate::stanza::{
    iq_of, iq_result_view, message_of, presence_fault, xml_attribute, xml_name, Element, Iq, IqType,
    XmppMessage,
};
use vstd::prelude::*;

verus! {

impl<D: Disco<Aparte<D, C>>, C: Cipher<Aparte<D, C>>> Aparte<D, C> {
    /// The clients that the modules saw while they took notice of an event, one after the other.
    proof fn lemma_noticed_in_turn(
        self,
        mods: Seq<Mod<D>>,
        event: Event,
        mods_after: Seq<Mod<D>>,
        after: Self,
    ) -> (seen: Seq<Self>)
        requires
            self.noticed_by(mods, event, mods_after, after),
        ensures
            mods_after.len() == mods.len(),
            seen.len() == mods.len() + 1,
            seen[0] == self,
            seen.last() == after,
            forall|i: int|
                0 <= i < mods.len() ==> (#[trigger] mods[i])->Disco_0.reacts(
                    seen[i],
                    event,
                    mods_after[i]->Disco_0,
                    seen[i + 1],
                ),
        decreases mods.len(),
    {
        if mods.len() == 0 {
            seq![self]
        } else {
            let mid = choose|mid: Self|
                self.noticed_by(mods.drop_last(), event, mods_after.drop_last(), mid)
                    && #[trigger] mods.last().reacts(mid, event, mods_after.last(), after)
                    && mid.keeps(after);
            let before = self.lemma_noticed_in_turn(
                mods.drop_last(),
                event,
                mods_after.drop_last(),
                mid,
            );
            let seen = before.push(after);
            assert forall|i: int| 0 <= i < mods.len() implies (
            #[trigger] mods[i])->Disco_0.reacts(
                seen[i],
                event,
                mods_after[i]->Disco_0,
                seen[i + 1],
            ) by {
                if i < mods.len() - 1 {
                    assert(mods.drop_last()[i] == mods[i]);
                    assert(mods_after.drop_last()[i] == mods_after[i]);
                }
            }
            seen
        }
    }

    /// Whatever happens, each module takes notice of it once, the first first, and each of them
    /// sees the client as the one before left it. Then the client itself handles the same event, or
    /// goes no further where something is missing that the event needs.
    pub proof fn law_each_module_notices_each_event(
        self,
        event: Event,
        after: Self,
        halt: Option<Halt>,
    )
        requires
            self.handled(event, after, halt),
            !self.mods_at_work,
        ensures
            exists|seen: Seq<Self>, mid: Self|
                {
                    &&& #[trigger] seen.len() == self.mods@.len() + 1
                    &&& seen[0].mods@.len() == 0
                    &&& seen[0] == (Aparte { mods: seen[0].mods, mods_at_work: true, ..self })
                    &&& forall|i: int|
                        0 <= i < self.mods@.len() ==> (#[trigger] self.mods@[i])->Disco_0.reacts(
                            seen[i],
                            event,
                            mid.mods@[i]->Disco_0,
                            seen[i + 1],
                        )
                    &&& mid.mods@.len() == self.mods@.len()
                    &&& mid == (Aparte { mods: mid.mods, mods_at_work: false, ..seen.last() })
                    &&& (#[trigger] mid.can_handle(event) && mid.dispatched(event, after) && halt
                        == if event is Quit {
                        Some(Halt::Quit)
                    } else {
                        None
                    }) || (!mid.can_handle(event) && after == mid && halt == Some(Halt::Unmet))
                },
    {
        let mid = choose|mid: Self|
            {
                &&& #[trigger] self.noticed(event, mid)
                &&& if mid.can_handle(event) {
                    &&& mid.dispatched(event, after)
                    &&& halt == if event is Quit {
                        Some(Halt::Quit)
                    } else {
                        None
                    }
                } else {
                    after == mid && halt == Some(Halt::Unmet)
                }
            };
        let seen = self.lemma_noticed_from(event, mid);
        assert(seen.len() == self.mods@.len() + 1);
    }

    /// The clients that the modules saw while the client told them of an event.
    proof fn lemma_noticed_from(self, event: Event, after: Self) -> (seen: Seq<Self>)
        requires
            self.noticed(event, after),
        ensures
            seen.len() == self.mods@.len() + 1,
            seen[0].mods@.len() == 0,
            seen[0] == (Aparte { mods: seen[0].mods, mods_at_work: true, ..self }),
            forall|i: int|
                0 <= i < self.mods@.len() ==> (#[trigger] self.mods@[i])->Disco_0.reacts(
                    seen[i],
                    event,
                    after.mods@[i]->Disco_0,
                    seen[i + 1],
                ),
            after.mods@.len() == self.mods@.len(),
            after == (Aparte { mods: after.mods, mods_at_work: false, ..seen.last() }),
    {
        let (during, done) = choose|during: Self, done: Self|
            {
                &&& #[trigger] self.without_mods(during)
                &&& #[trigger] done.with_mods(after.mods@, after)
                &&& during.noticed_by(self.mods@, event, after.mods@, done)
            };
        during.lemma_noticed_in_turn(self.mods@, event, after.mods@, done)
    }

    /// Telling the modules of an event, by itself, is the same whatever the event is: each of them
    /// takes notice of it once.
    pub proof fn law_notice_reaches_each_module(self, event: Event, after: Self)
        requires
            self.noticed(event, after),
        ensures
            exists|seen: Seq<Self>|
                {
                    &&& #[trigger] seen.len() == self.mods@.len() + 1
                    &&& seen[0].mods@.len() == 0
                    &&& seen[0] == (Aparte { mods: seen[0].mods, mods_at_work: true, ..self })
                    &&& forall|i: int|
                        0 <= i < self.mods@.len() ==> (#[trigger] self.mods@[i])->Disco_0.reacts(
                            seen[i],
                            event,
                            after.mods@[i]->Disco_0,
                            seen[i + 1],
                        )
                    &&& after.mods@.len() == self.mods@.len()
                    &&& after == (Aparte { mods: after.mods, mods_at_work: false, ..seen.last() })
                },
    {
        let seen = self.lemma_noticed_from(event, after);
        assert(seen.len() == self.mods@.len() + 1);
    }

    /// While a module is at work nothing is handled, and nothing changes.
    pub proof fn law_nothing_is_handled_at_work(self, event: Event, after: Self, halt: Option<Halt>)
        requires
            self.handled(event, after, halt),
            self.mods_at_work,
        ensures
            after == self,
            halt == Some(Halt::Unmet),
    {
    }

    /// A message that came is decrypted just where its sender is known, the conversation with them
    /// has a scheme, and that is the scheme that the message is encrypted with. This does not
    /// depend on when the message was held back, nor on whether it comes from an archive. What goes
    /// on to the modules is what decrypting it once gave, and the message as it came where that
    /// failed or was not to be done.
    pub proof fn law_message_is_decrypted_and_routed(
        self,
        after: Self,
        account: Account,
        message: XmppMessage,
        delay: Option<Delay>,
        archive: bool,
    )
        requires
            self.message_handled(after, account, message, delay, archive),
        ensures
            ({
                let engines = self.shared.crypto_engines@;
                let scheme = encryption_of(payloads_view(message.payloads@));
                let id = seq![
                    account@.text(),
                    (JidView {
                        node: message.from->0@.node,
                        domain: message.from->0@.domain,
                        resource: None,
                    }).text(),
                ];
                if message.from is Some && scheme is Some && engines.contains_key(id)
                    && engines[id].namespace@ == scheme->0 {
                    exists|
                        mid: Self,
                        clear: XmppMessage,
                        during: Self,
                        r: Result<XmppMessage, String>,
                    |
                        {
                            &&& during == (Aparte {
                                shared: Shared {
                                    crypto_engines: during.shared.crypto_engines,
                                    ..self.shared
                                },
                                ..self
                            })
                            &&& during.shared.crypto_engines@ == engines.remove(id)
                            &&& #[trigger] engines[id].cipher.decrypts(
                                during,
                                account,
                                message,
                                mid.shared.crypto_engines@[id].cipher,
                                r,
                            )
                            &&& r is Ok ==> clear == r->Ok_0
                            &&& r is Err ==> clear == message
                            &&& mid == (Aparte {
                                shared: Shared {
                                    crypto_engines: mid.shared.crypto_engines,
                                    ..self.shared
                                },
                                ..self
                            })
                            &&& mid.shared.crypto_engines@ == engines.insert(
                                id,
                                mid.shared.crypto_engines@[id],
                            )
                            &&& mid.shared.crypto_engines@[id].namespace == engines[id].namespace
                            &&& #[trigger] mid.routed(account, clear, delay, archive, after)
                        }
                } else {
                    self.routed(account, message, delay, archive, after)
                }
            }),
    {
        let (mid, clear) = choose|mid: Self, clear: XmppMessage| #[trigger]
            self.decrypted(mid, account, message, clear) && mid.routed(
                account,
                clear,
                delay,
                archive,
                after,
            );
        if self.decrypts_from(account, message) {
            let id = sender_id(account, message.from->0@);
            let (during, r) = choose|during: Self, r: Result<XmppMessage, String>|
                {
                    &&& self.lent(during, id)
                    &&& #[trigger] self.shared.crypto_engines@[id].cipher.decrypts(
                        during,
                        account,
                        message,
                        mid.shared.crypto_engines@[id].cipher,
                        r,
                    )
                    &&& clear == readable(message, r)
                };
            assert(self.shared.crypto_engines@[id].cipher.decrypts(
                during,
                account,
                message,
                mid.shared.crypto_engines@[id].cipher,
                r,
            ));
            assert(mid.routed(account, clear, delay, archive, after));
        }
    }

    /// Two messages that differ only in when they were held back and in whether they come from an
    /// archive are decrypted alike: what the one goes on as, the other may go on as too.
    pub proof fn law_archive_is_decrypted_alike(
        self,
        after: Self,
        account: Account,
        message: XmppMessage,
        delay: Option<Delay>,
        archive: bool,
    )
        requires
            self.message_handled(after, account, message, delay, archive),
        ensures
            exists|mid: Self, clear: XmppMessage|
                {
                    &&& #[trigger] mid.routed(account, clear, delay, archive, after)
                    &&& forall|other: Self, late: Option<Delay>, stored: bool|
                        mid.routed(account, clear, late, stored, other)
                            ==> #[trigger] self.message_handled(
                            other,
                            account,
                            message,
                            late,
                            stored,
                        )
                },
    {
        let (mid, clear) = choose|mid: Self, clear: XmppMessage| #[trigger]
            self.decrypted(mid, account, message, clear) && mid.routed(
                account,
                clear,
                delay,
                archive,
                after,
            );
        assert(mid.routed(account, clear, delay, archive, after));
        assert(self.decrypted(mid, account, message, clear));
    }

    /// The events that the client itself has nothing to do for: it shows, asks and sends nothing.
    pub proof fn law_other_events_change_nothing(self, event: Event, after: Self)
        requires
            self.dispatched(event, after),
            !(event is Start),
            !(event is Connect),
            !(event is Connected),
            !(event is Disconnected),
            !(event is AuthError),
            !(event is Stanza),
            !(event is RawMessage),
            !(event is SendMessage),
            !(event is Join),
        ensures
            after == self,
    {
    }

    /// A message that the user sends is shown once and goes out once. Where its conversation has a
    /// scheme, that encrypts it once, and what goes out is what this gave; where it failed, nothing
    /// goes out. Where there is no scheme, the message itself goes out. A line of the log does not.
    pub proof fn law_message_goes_out_once(
        self,
        account: Account,
        message: Message,
        after: Self,
    )
        requires
            self.dispatched(Event::SendMessage(account, message), after),
        ensures
            after == (Aparte {
                shared: Shared {
                    events: after.shared.events,
                    stanzas: after.shared.stanzas,
                    crypto_engines: after.shared.crypto_engines,
                    ..self.shared
                },
                ..self
            }),
            after.shared.events@ == self.shared.events@.push(
                Event::Message(Some(account), message),
            ),
            ({
                let engines = self.shared.crypto_engines@;
                let used = after.shared.crypto_engines@;
                let (before, sent) = (self.shared.stanzas@, after.shared.stanzas@);
                let id = seq![account@.text(), message->recipient->0@.text()];
                if message is Xmpp && message->recipient is Some && engines.contains_key(id) {
                    &&& used == engines.insert(id, used[id])
                    &&& used[id].namespace == engines[id].namespace
                    &&& exists|during: Self, r: Result<Element, String>|
                        {
                            &&& during == (Aparte {
                                shared: Shared {
                                    events: during.shared.events,
                                    crypto_engines: during.shared.crypto_engines,
                                    ..self.shared
                                },
                                ..self
                            })
                            &&& during.shared.events@ == after.shared.events@
                            &&& during.shared.crypto_engines@ == engines.remove(id)
                            &&& #[trigger] engines[id].cipher.encrypts(
                                during,
                                account,
                                message,
                                used[id].cipher,
                                r,
                            )
                            &&& r is Ok ==> sent == before.push(
                                (account, Outgoing::Element(r->Ok_0)),
                            )
                            &&& r is Err ==> sent == before
                        }
                } else {
                    &&& used == engines
                    &&& message is Xmpp ==> sent == before.push(
                        (account, Outgoing::Element(message->element)),
                    )
                    &&& message is Log ==> sent == before
                }
            }),
    {
        let (shown, mid, encryption) = choose|
            shown: Self,
            mid: Self,
            encryption: Option<Result<Element, String>>,
        |
            {
                &&& self.only_shared(shown)
                &&& self.shared.scheduled(shown.shared, Event::Message(Some(account), message))
                &&& #[trigger] shown.encrypted(mid, account, message, encryption)
                &&& mid.sent(after, account, message, encryption)
            };
        if shown.encrypts_for(account, message) {
            let id = conversation_id(account, message.recipient()->0);
            let during = choose|during: Self| #[trigger]
                shown.lent(during, id) && shown.shared.crypto_engines@[id].cipher.encrypts(
                    during,
                    account,
                    message,
                    mid.shared.crypto_engines@[id].cipher,
                    encryption->0,
                );
            assert(self.shared.crypto_engines@[id].cipher.encrypts(
                during,
                account,
                message,
                after.shared.crypto_engines@[id].cipher,
                encryption->0,
            ));
        }
    }

    /// Only a message that the user sends, the news that an account is connected and the wish to
    /// join a channel make the client itself send something. Whatever else happens, what is to be
    /// sent stays what it was, as long as the modules send nothing for a message that comes in.
    pub proof fn law_only_three_events_send(self, event: Event, after: Self)
        requires
            self.dispatched(event, after),
            !(event is SendMessage),
            !(event is Connected),
            !(event is Join),
            (event is RawMessage || (event is Stanza && xml_name(event->Stanza_1.xml@) == Some(
                "message"@,
            ))) ==> (forall|
                m: D,
                a: Self,
                c: Account,
                x: XmppMessage,
                d: Option<Delay>,
                m2: D,
                a2: Self,
                r: u64,
            | #[trigger]
                m.scores(a, c, x, d, m2, a2, r) ==> a2.shared.stanzas == a.shared.stanzas) && (
            forall|
                m: D,
                a: Self,
                c: Account,
                x: XmppMessage,
                d: Option<Delay>,
                stored: bool,
                m2: D,
                a2: Self,
            | #[trigger]
                m.handles(a, c, x, d, stored, m2, a2) ==> a2.shared.stanzas == a.shared.stanzas),
        ensures
            after.shared.stanzas == self.shared.stanzas,
    {
        match event {
            Event::Start => {
                self.lemma_start_sends_nothing(after, self.config.accounts.entries());
            },
            Event::RawMessage { account, message, delay, archive } => {
                self.lemma_message_sends_nothing(after, account, message, delay, archive);
            },
            Event::Stanza(account, stanza) => {
                if xml_name(stanza.xml@) == Some("message"@) {
                    reveal_strlit("message");
                    reveal_strlit("iq");
                    reveal_strlit("presence");
                    assert("message"@.len() != "iq"@.len() && "message"@.len()
                        != "presence"@.len());
                    self.lemma_message_stanza(after, account, stanza);
                }
            },
            _ => {},
        }
    }

    /// Connecting the configured accounts sends nothing.
    proof fn lemma_start_sends_nothing(
        self,
        after: Self,
        accounts: Seq<(String, ConnectionInfo)>,
    )
        requires
            self.started(after, accounts),
        ensures
            after.shared.stanzas == self.shared.stanzas,
        decreases accounts.len(),
    {
        if accounts.len() > 0 {
            let mid = choose|mid: Self|
                self.started(mid, accounts.drop_last()) && #[trigger] mid.started_one(
                    after,
                    accounts.last().1,
                );
            self.lemma_start_sends_nothing(mid, accounts.drop_last());
        }
    }

    /// A stanza that is a message, taken in by modules that send nothing, sends nothing.
    proof fn lemma_message_stanza(self, after: Self, account: Account, stanza: Element)
        requires
            self.stanza_received(after, account, stanza, "message"@),
            "message"@ != "iq"@,
            "message"@ != "presence"@,
            forall|
                m: D,
                a: Self,
                c: Account,
                x: XmppMessage,
                d: Option<Delay>,
                m2: D,
                a2: Self,
                r: u64,
            | #[trigger]
                m.scores(a, c, x, d, m2, a2, r) ==> a2.shared.stanzas == a.shared.stanzas,
            forall|
                m: D,
                a: Self,
                c: Account,
                x: XmppMessage,
                d: Option<Delay>,
                stored: bool,
                m2: D,
                a2: Self,
            | #[trigger]
                m.handles(a, c, x, d, stored, m2, a2) ==> a2.shared.stanzas == a.shared.stanzas,
        ensures
            after.shared.stanzas == self.shared.stanzas,
    {
        let parsed = choose|parsed: Result<(Option<Jid>, Vec<Payload>), String>|
            message_result_view(parsed) == message_seen(stanza@)
                && #[trigger] self.message_received(after, account, stanza, parsed);
        if let Ok((from, payloads)) = parsed {
            self.lemma_message_sends_nothing(
                after,
                account,
                XmppMessage { from, payloads, element: stanza },
                None,
                false,
            );
        }
    }

    /// A message that is taken in by modules that send nothing sends nothing.
    proof fn lemma_message_sends_nothing(
        self,
        after: Self,
        account: Account,
        message: XmppMessage,
        delay: Option<Delay>,
        archive: bool,
    )
        requires
            self.message_handled(after, account, message, delay, archive),
            forall|
                m: D,
                a: Self,
                c: Account,
                x: XmppMessage,
                d: Option<Delay>,
                m2: D,
                a2: Self,
                r: u64,
            | #[trigger]
                m.scores(a, c, x, d, m2, a2, r) ==> a2.shared.stanzas == a.shared.stanzas,
            forall|
                m: D,
                a: Self,
                c: Account,
                x: XmppMessage,
                d: Option<Delay>,
                stored: bool,
                m2: D,
                a2: Self,
            | #[trigger]
                m.handles(a, c, x, d, stored, m2, a2) ==> a2.shared.stanzas == a.shared.stanzas,
        ensures
            after.shared.stanzas == self.shared.stanzas,
    {
        let (mid, clear) = choose|mid: Self, clear: XmppMessage| #[trigger]
            self.decrypted(mid, account, message, clear) && mid.routed(
                account,
                clear,
                delay,
                archive,
                after,
            );
        let (seen, asked, scores, done) = mid.lemma_routed_from(
            account,
            clear,
            delay,
            archive,
            after,
        );
        Self::lemma_scoring_sends_nothing(
            mid.mods@,
            account,
            clear,
            delay,
            asked,
            seen,
            scores,
            mid.mods@.len() as int,
        );
    }

    /// Modules that send nothing for a question send nothing for several.
    proof fn lemma_scoring_sends_nothing(
        mods: Seq<Mod<D>>,
        account: Account,
        message: XmppMessage,
        delay: Option<Delay>,
        asked: Seq<Mod<D>>,
        seen: Seq<Self>,
        scores: Seq<u64>,
        k: int,
    )
        requires
            0 <= k <= mods.len(),
            seen.len() == mods.len() + 1,
            forall|i: int|
                0 <= i < mods.len() ==> (#[trigger] mods[i])->Disco_0.scores(
                    seen[i],
                    account,
                    message,
                    delay,
                    asked[i]->Disco_0,
                    seen[i + 1],
                    scores[i],
                ),
            forall|
                m: D,
                a: Self,
                c: Account,
                x: XmppMessage,
                d: Option<Delay>,
                m2: D,
                a2: Self,
                r: u64,
            | #[trigger]
                m.scores(a, c, x, d, m2, a2, r) ==> a2.shared.stanzas == a.shared.stanzas,
        ensures
            seen[k].shared.stanzas == seen[0].shared.stanzas,
        decreases k,
    {
        if k > 0 {
            Self::lemma_scoring_sends_nothing(
                mods,
                account,
                message,
                delay,
                asked,
                seen,
                scores,
                k - 1,
            );
            assert(mods[k - 1]->Disco_0.scores(
                seen[k - 1],
                account,
                message,
                delay,
                asked[k - 1]->Disco_0,
                seen[k],
                scores[k - 1],
            ));
        }
    }

    /// The clients that the modules saw while they told how well they can handle a message.
    proof fn lemma_scored_in_turn(
        self,
        mods: Seq<Mod<D>>,
        account: Account,
        message: XmppMessage,
        delay: Option<Delay>,
        asked: Seq<Mod<D>>,
        after: Self,
        scores: Seq<u64>,
    ) -> (seen: Seq<Self>)
        requires
            self.scored_by(mods, account, message, delay, asked, after, scores),
        ensures
            asked.len() == mods.len(),
            scores.len() == mods.len(),
            seen.len() == mods.len() + 1,
            seen[0] == self,
            seen.last() == after,
            forall|i: int|
                0 <= i < mods.len() ==> (#[trigger] mods[i])->Disco_0.scores(
                    seen[i],
                    account,
                    message,
                    delay,
                    asked[i]->Disco_0,
                    seen[i + 1],
                    scores[i],
                ),
        decreases mods.len(),
    {
        if mods.len() == 0 {
            seq![self]
        } else {
            let mid = choose|mid: Self|
                self.scored_by(
                    mods.drop_last(),
                    account,
                    message,
                    delay,
                    asked.drop_last(),
                    mid,
                    scores.drop_last(),
                ) && #[trigger] mods.last().scores(
                    mid,
                    account,
                    message,
                    delay,
                    asked.last(),
                    after,
                    scores.last(),
                ) && mid.keeps(after);
            let before = self.lemma_scored_in_turn(
                mods.drop_last(),
                account,
                message,
                delay,
                asked.drop_last(),
                mid,
                scores.drop_last(),
            );
            let seen = before.push(after);
            assert forall|i: int| 0 <= i < mods.len() implies (
            #[trigger] mods[i])->Disco_0.scores(
                seen[i],
                account,
                message,
                delay,
                asked[i]->Disco_0,
                seen[i + 1],
                scores[i],
            ) by {
                if i < mods.len() - 1 {
                    assert(mods.drop_last()[i] == mods[i]);
                    assert(asked.drop_last()[i] == asked[i]);
                    assert(scores.drop_last()[i] == scores[i]);
                }
            }
            seen
        }
    }

    /// What the modules saw, said and did while a message went to one of them.
    proof fn lemma_routed_from(
        self,
        account: Account,
        message: XmppMessage,
        delay: Option<Delay>,
        archive: bool,
        after: Self,
    ) -> (r: (Seq<Self>, Seq<Mod<D>>, Seq<u64>, Self))
        requires
            self.routed(account, message, delay, archive, after),
        ensures
            ({
                let (seen, asked, scores, done) = r;
                &&& seen.len() == self.mods@.len() + 1
                &&& asked.len() == self.mods@.len()
                &&& scores.len() == self.mods@.len()
                &&& seen[0].mods@.len() == 0
                &&& seen[0] == (Aparte { mods: seen[0].mods, mods_at_work: true, ..self })
                &&& forall|i: int|
                    0 <= i < self.mods@.len() ==> (#[trigger] self.mods@[i])->Disco_0.scores(
                        seen[i],
                        account,
                        message,
                        delay,
                        asked[i]->Disco_0,
                        seen[i + 1],
                        scores[i],
                    )
                &&& after == (Aparte { mods: after.mods, mods_at_work: false, ..done })
                &&& if forall|i: int| 0 <= i < scores.len() ==> #[trigger] scores[i] == 0 {
                    after.mods@ == asked && done == seen.last()
                } else {
                    exists|i: int|
                        {
                            &&& 0 <= i < scores.len()
                            &&& #[trigger] scores[i] > 0
                            &&& forall|j: int|
                                0 <= j < scores.len() ==> #[trigger] scores[j] <= scores[i]
                            &&& forall|j: int| 0 <= j < i ==> #[trigger] scores[j] < scores[i]
                            &&& after.mods@ == asked.update(i, after.mods@[i])
                            &&& asked[i]->Disco_0.handles(
                                seen.last(),
                                account,
                                message,
                                delay,
                                archive,
                                after.mods@[i]->Disco_0,
                                done,
                            )
                        }
                }
            }),
    {
        let (during, asked, mid, scores, done) = choose|
            during: Self,
            asked: Seq<Mod<D>>,
            mid: Self,
            scores: Seq<u64>,
            done: Self,
        |
            {
                &&& #[trigger] self.without_mods(during)
                &&& #[trigger] during.scored_by(
                    self.mods@,
                    account,
                    message,
                    delay,
                    asked,
                    mid,
                    scores,
                )
                &&& mid.handed_over(
                    asked,
                    account,
                    message,
                    delay,
                    archive,
                    after.mods@,
                    done,
                    scores,
                )
                &&& #[trigger] done.with_mods(after.mods@, after)
            };
        let seen = during.lemma_scored_in_turn(
            self.mods@,
            account,
            message,
            delay,
            asked,
            mid,
            scores,
        );
        if forall|i: int| 0 <= i < scores.len() ==> #[trigger] scores[i] == 0 {
            assert forall|i: int| !is_best(scores, i) by {
                if 0 <= i < scores.len() {
                    assert(scores[i] == 0);
                }
            }
        } else {
            let k = choose|k: int| 0 <= k < scores.len() && #[trigger] scores[k] != 0;
            law_best_is_one(scores);
            let i = choose|i: int|
                {
                    &&& #[trigger] is_best(scores, i)
                    &&& after.mods@ == asked.update(i, after.mods@[i])
                    &&& asked[i].handles(
                        mid,
                        account,
                        message,
                        delay,
                        archive,
                        after.mods@[i],
                        done,
                    )
                    &&& mid.keeps(done)
                };
            law_best_is_highest(scores, i);
            assert(scores[i] > 0);
        }
        (seen, asked, scores, done)
    }

    /// A message that is ready to be read goes to one module at most. Each module, the first first,
    /// tells once how well it can handle it. The one that tells most, and the first of several that
    /// do, then handles the very message, for the same account and with all that is known of when
    /// and whence it came. Where all tell nothing, none handles it.
    pub proof fn law_message_goes_to_the_best_module(
        self,
        account: Account,
        message: XmppMessage,
        delay: Option<Delay>,
        archive: bool,
        after: Self,
    )
        requires
            self.routed(account, message, delay, archive, after),
        ensures
            exists|seen: Seq<Self>, asked: Seq<Mod<D>>, scores: Seq<u64>, done: Self|
                {
                    &&& #[trigger] seen.len() == self.mods@.len() + 1
                    &&& #[trigger] asked.len() == self.mods@.len()
                    &&& #[trigger] scores.len() == self.mods@.len()
                    &&& seen[0].mods@.len() == 0
                    &&& seen[0] == (Aparte { mods: seen[0].mods, mods_at_work: true, ..self })
                    &&& forall|i: int|
                        0 <= i < self.mods@.len() ==> (#[trigger] self.mods@[i])->Disco_0.scores(
                            seen[i],
                            account,
                            message,
                            delay,
                            asked[i]->Disco_0,
                            seen[i + 1],
                            scores[i],
                        )
                    &&& after.shared == #[trigger] done.shared
                    &&& after == (Aparte { mods: after.mods, mods_at_work: false, ..done })
                    &&& if forall|i: int| 0 <= i < scores.len() ==> #[trigger] scores[i] == 0 {
                        after.mods@ == asked && done == seen.last()
                    } else {
                        exists|i: int|
                            {
                                &&& 0 <= i < scores.len()
                                &&& #[trigger] scores[i] > 0
                                &&& forall|j: int|
                                    0 <= j < scores.len() ==> #[trigger] scores[j] <= scores[i]
                                &&& forall|j: int| 0 <= j < i ==> #[trigger] scores[j] < scores[i]
                                &&& after.mods@ == asked.update(i, after.mods@[i])
                                &&& asked[i]->Disco_0.handles(
                                    seen.last(),
                                    account,
                                    message,
                                    delay,
                                    archive,
                                    after.mods@[i]->Disco_0,
                                    done,
                                )
                            }
                    }
                },
    {
        let (seen, asked, scores, done) = self.lemma_routed_from(
            account,
            message,
            delay,
            archive,
            after,
        );
        assert(seen.len() == self.mods@.len() + 1);
        assert(asked.len() == self.mods@.len());
        assert(scores.len() == self.mods@.len());
        assert(after.shared == done.shared);
    }

    /// Modules that neither send nor encrypt leave both alone while they take notice of an event.
    proof fn lemma_quiet_notice(self, event: Event, after: Self)
        requires
            self.noticed(event, after),
            forall|m: D, a: Self, e: Event, m2: D, a2: Self| #[trigger]
                m.reacts(a, e, m2, a2) ==> a2.shared.stanzas == a.shared.stanzas
                    && a2.shared.crypto_engines == a.shared.crypto_engines,
        ensures
            after.shared.stanzas == self.shared.stanzas,
            after.shared.crypto_engines == self.shared.crypto_engines,
            !after.mods_at_work,
    {
        let seen = self.lemma_noticed_from(event, after);
        Self::lemma_quiet_in_turn(self.mods@, event, after.mods@, seen, self.mods@.len() as int);
    }

    /// Modules that neither send nor encrypt leave both alone, one after the other.
    proof fn lemma_quiet_in_turn(
        mods: Seq<Mod<D>>,
        event: Event,
        mods_after: Seq<Mod<D>>,
        seen: Seq<Self>,
        k: int,
    )
        requires
            0 <= k <= mods.len(),
            seen.len() == mods.len() + 1,
            forall|i: int|
                0 <= i < mods.len() ==> (#[trigger] mods[i])->Disco_0.reacts(
                    seen[i],
                    event,
                    mods_after[i]->Disco_0,
                    seen[i + 1],
                ),
            forall|m: D, a: Self, e: Event, m2: D, a2: Self| #[trigger]
                m.reacts(a, e, m2, a2) ==> a2.shared.stanzas == a.shared.stanzas
                    && a2.shared.crypto_engines == a.shared.crypto_engines,
        ensures
            seen[k].shared.stanzas == seen[0].shared.stanzas,
            seen[k].shared.crypto_engines == seen[0].shared.crypto_engines,
        decreases k,
    {
        if k > 0 {
            Self::lemma_quiet_in_turn(mods, event, mods_after, seen, k - 1);
            assert(mods[k - 1]->Disco_0.reacts(
                seen[k - 1],
                event,
                mods_after[k - 1]->Disco_0,
                seen[k],
            ));
        }
    }

    /// A message that the user sends goes out once, also after all that it brings about: what it
    /// schedules is that it is shown, and with modules that send nothing, this sends nothing. Where
    /// its conversation has a scheme, nothing goes out but what that encrypted.
    pub proof fn law_message_is_sent_once_in_all(
        self,
        account: Account,
        message: Message,
        mid: Self,
        halt: Option<Halt>,
        after: Self,
        shown: Option<Halt>,
    )
        requires
            !self.mods_at_work,
            forall|m: D, a: Self, e: Event, m2: D, a2: Self| #[trigger]
                m.reacts(a, e, m2, a2) ==> a2.shared.stanzas == a.shared.stanzas
                    && a2.shared.crypto_engines == a.shared.crypto_engines,
            self.handled(Event::SendMessage(account, message), mid, halt),
            mid.handled(Event::Message(Some(account), message), after, shown),
        ensures
            halt is None,
            shown is None,
            mid.shared.events@.len() > 0,
            mid.shared.events@.last() == Event::Message(Some(account), message),
            after.shared.stanzas == mid.shared.stanzas,
            ({
                let engines = self.shared.crypto_engines@;
                let (before, sent) = (self.shared.stanzas@, after.shared.stanzas@);
                let id = seq![account@.text(), message->recipient->0@.text()];
                if message is Xmpp && message->recipient is Some && engines.contains_key(id) {
                    exists|during: Self, used: C, r: Result<Element, String>|
                        {
                            &&& #[trigger] engines[id].cipher.encrypts(
                                during,
                                account,
                                message,
                                used,
                                r,
                            )
                            &&& r is Ok ==> sent == before.push(
                                (account, Outgoing::Element(r->Ok_0)),
                            )
                            &&& r is Err ==> sent == before
                        }
                } else {
                    &&& message is Xmpp ==> sent == before.push(
                        (account, Outgoing::Element(message->element)),
                    )
                    &&& message is Log ==> sent == before
                }
            }),
    {
        let event = Event::SendMessage(account, message);
        let told = choose|told: Self|
            {
                &&& #[trigger] self.noticed(event, told)
                &&& if told.can_handle(event) {
                    &&& told.dispatched(event, mid)
                    &&& halt == if event is Quit {
                        Some(Halt::Quit)
                    } else {
                        None
                    }
                } else {
                    mid == told && halt == Some(Halt::Unmet)
                }
            };
        self.lemma_quiet_notice(event, told);
        told.law_message_goes_out_once(account, message, mid);
        let next = Event::Message(Some(account), message);
        let again = choose|again: Self|
            {
                &&& #[trigger] mid.noticed(next, again)
                &&& if again.can_handle(next) {
                    &&& again.dispatched(next, after)
                    &&& shown == if next is Quit {
                        Some(Halt::Quit)
                    } else {
                        None
                    }
                } else {
                    after == again && shown == Some(Halt::Unmet)
                }
            };
        mid.lemma_quiet_notice(next, again);
        again.law_other_events_change_nothing(next, after);
    }

    /// A stanza that is a presence is handed on as it came, to whoever wants to know, whatever else
    /// is in it: of its attributes and of what it carries only matters that it can be read. One
    /// that cannot be is dropped.
    pub proof fn law_presence_is_handed_on(
        self,
        account: Account,
        stanza: Element,
        after: Self,
    )
        requires
            self.dispatched(Event::Stanza(account, stanza), after),
            xml_name(stanza.xml@) == Some("presence"@),
        ensures
            after == (Aparte {
                shared: Shared { events: after.shared.events, ..self.shared },
                ..self
            }),
            presence_fault(stanza.xml@) is None ==> after.shared.events@
                == self.shared.events@.push(Event::Presence(account, stanza)),
            presence_fault(stanza.xml@) is Some ==> after == self,
    {
        reveal_strlit("presence");
        reveal_strlit("iq");
        assert("presence"@.len() != "iq"@.len());
    }

    /// A stanza that is a message is taken in as one that came just now: with the sender that it
    /// names, with what is seen of its payloads, and as the stanza that it is. One that cannot be
    /// read is dropped.
    pub proof fn law_message_is_taken_in(
        self,
        account: Account,
        stanza: Element,
        after: Self,
    )
        requires
            self.stanza_received(after, account, stanza, "message"@),
        ensures
            match message_of(stanza.xml@) {
                Ok((from, payloads)) => exists|message: XmppMessage|
                    {
                        &&& message.element == stanza
                        &&& message.from is Some <==> from is Some
                        &&& message.from is Some ==> message.from->0@ == from->0
                        &&& payloads_view(message.payloads@) == looked_at(
                            stanza.xml@,
                            payloads as int,
                        )
                        &&& #[trigger] self.message_handled(after, account, message, None, false)
                    },
                Err(_) => after == self,
            },
    {
        reveal_strlit("message");
        reveal_strlit("iq");
        reveal_strlit("presence");
        assert("message"@.len() != "iq"@.len() && "message"@.len() != "presence"@.len());
        let parsed = choose|parsed: Result<(Option<Jid>, Vec<Payload>), String>|
            message_result_view(parsed) == message_seen(stanza@)
                && #[trigger] self.message_received(after, account, stanza, parsed);
        if let Ok((from, payloads)) = parsed {
            let message = XmppMessage { from, payloads, element: stanza };
            assert(self.message_handled(after, account, message, None, false));
        }
    }

    /// A message out of an archive, or one that was held back, is taken in like any other.
    pub proof fn law_raw_message_is_taken_in(
        self,
        account: Account,
        message: XmppMessage,
        delay: Option<Delay>,
        archive: bool,
        after: Self,
    )
        requires
            self.dispatched(Event::RawMessage { account, message, delay, archive }, after),
        ensures
            self.message_handled(after, account, message, delay, archive),
    {
    }

    /// A stanza that is no message, presence, request or answer is dropped, and so is what is no
    /// stanza at all.
    pub proof fn law_other_stanzas_are_dropped(
        self,
        account: Account,
        stanza: Element,
        after: Self,
    )
        requires
            self.dispatched(Event::Stanza(account, stanza), after),
            xml_name(stanza.xml@) != Some("message"@),
            xml_name(stanza.xml@) != Some("presence"@),
            xml_name(stanza.xml@) != Some("iq"@),
        ensures
            after == self,
    {
    }

    /// What becomes of a stanza goes by the name that it has, whoever sent it and whatever it
    /// carries. Taken in under the name of a presence it is handed on where it can be read as one,
    /// and under a name that the client does not know it is dropped.
    pub proof fn law_stanza_goes_by_its_name(
        self,
        account: Account,
        stanza: Element,
        after: Self,
        name: Seq<char>,
        other: Self,
    )
        requires
            self.dispatched(Event::Stanza(account, stanza), after),
            self.stanza_received(other, account, stanza, name),
        ensures
            xml_name(stanza.xml@) is None ==> after == self,
            xml_name(stanza.xml@) is Some ==> self.stanza_received(
                after,
                account,
                stanza,
                xml_name(stanza.xml@)->0,
            ),
            name == "presence"@ && presence_fault(stanza.xml@) is None ==> other == (Aparte {
                shared: Shared { events: other.shared.events, ..self.shared },
                ..self
            }) && other.shared.events@ == self.shared.events@.push(
                Event::Presence(account, stanza),
            ),
            name == "presence"@ && presence_fault(stanza.xml@) is Some ==> other == self,
            name != "presence"@ && name != "iq"@ && name != "message"@ ==> other == self,
    {
        reveal_strlit("presence");
        reveal_strlit("iq");
        assert("presence"@.len() != "iq"@.len());
    }

    /// A stanza that is a request or an answer is taken in as it came, under the identifier that it
    /// bears. One that cannot be read is taken in as the failure of the request with this
    /// identifier, and is dropped where it bears none.
    pub proof fn law_iq_is_taken_in(
        self,
        account: Account,
        stanza: Element,
        after: Self,
    )
        requires
            self.stanza_received(after, account, stanza, "iq"@),
        ensures
            after == (Aparte { shared: after.shared, ..self }),
            match iq_of(stanza.xml@) {
                Ok((id, payload)) => exists|iq: Iq|
                    {
                        &&& iq.id@ == id
                        &&& iq.payload@ == payload
                        &&& iq.element == stanza
                        &&& #[trigger] self.shared.answered(after.shared, account, iq, uuid_of(id))
                    },
                Err(reason) => match xml_attribute(stanza.xml@, "id"@) {
                    Some(id) => exists|text: String|
                        text@ == reason && #[trigger] self.shared.errored(
                            after.shared,
                            text,
                            uuid_of(id),
                        ),
                    None => after == self,
                },
            },
    {
        let (parsed, id) = choose|parsed: Result<(String, IqType), String>, id: Option<String>|
            {
                &&& iq_result_view(parsed) == iq_of(stanza@)
                &&& text_view(id) == xml_attribute(stanza@, "id"@)
                &&& #[trigger] self.iq_received(after, account, stanza, parsed, id)
            };
        match parsed {
            Ok((id, payload)) => {
                let iq = Iq { id, payload, element: stanza };
                assert(self.shared.answered(after.shared, account, iq, uuid_of(id@)));
            },
            Err(reason) => {
                if let Some(id) = id {
                    assert(self.shared.errored(after.shared, reason, uuid_of(id@)));
                }
            },
        }
    }

    /// An account that is connected is welcomed with one line of the log. The client announces
    /// itself once, for this account: as ready to chat, to everybody, with the hash of what the
    /// module that knows it tells of the client.
    pub proof fn law_connected_is_welcomed(
        self,
        account: Account,
        jid: Jid,
        after: Self,
    )
        requires
            self.dispatched(Event::Connected(account, jid), after),
        ensures
            after == (Aparte {
                shared: Shared {
                    events: after.shared.events,
                    stanzas: after.shared.stanzas,
                    ..self.shared
                },
                ..self
            }),
            after.shared.events@.len() == self.shared.events@.len() + 1,
            after.shared.events@.drop_last() == self.shared.events@,
            after.shared.events@.last() matches Event::Message(None, Message::Log(text)) && text@
                == "Connected as "@ + account@.text(),
            after.shared.stanzas@.len() == self.shared.stanzas@.len() + 1,
            after.shared.stanzas@.drop_last() == self.shared.stanzas@,
            after.shared.stanzas@.last().0 == account,
            after.shared.stanzas@.last().1 matches Outgoing::Presence(presence) && {
                &&& presence.type_ is None
                &&& presence.from is None
                &&& presence.to is None
                &&& presence.show is Some && presence.show->0@ == "chat"@
                &&& presence.payloads@.len() == 1
                &&& presence.payloads@[0] matches PresencePayload::Caps { node, algo, hash } && {
                    &&& node@ == "apart\u{e9}"@
                    &&& algo@ == "blake2b-512"@
                    &&& exists|info: DiscoInfoView|
                        self.mods@[0]->Disco_0.tells(info) && caps_hash(
                            #[trigger] caps_bytes(info),
                            "blake2b-512"@,
                        ) == Ok::<Seq<u8>, Seq<char>>(hash@)
                }
            },
    {
        let (info, presence) = choose|info: DiscoInfoView, presence: PresenceView|
            {
                &&& self.mods@[0].disco().tells(info)
                &&& #[trigger] announces(info, presence)
                &&& presence_added(
                    self.shared.stanzas@,
                    after.shared.stanzas@,
                    account,
                    presence,
                )
            };
        let added = after.shared.stanzas@.last().1->Presence_0;
        assert(added@.payloads[0] == added.payloads@[0]@);
        let bytes = caps_bytes(info);
        assert(caps_hash(bytes, "blake2b-512"@) == Ok::<Seq<u8>, Seq<char>>(
            added.payloads@[0]->hash@,
        ));
    }

    /// A lost connection and a refusal each show one line of the log, which tells the account and
    /// the reason, and change nothing else.
    pub proof fn law_failures_are_shown(
        self,
        account: Account,
        reason: String,
        lost: Self,
        refused: Self,
    )
        requires
            self.dispatched(Event::Disconnected(account, reason), lost),
            self.dispatched(Event::AuthError(account, reason), refused),
        ensures
            lost == (Aparte {
                shared: Shared { events: lost.shared.events, ..self.shared },
                ..self
            }),
            lost.shared.events@.len() == self.shared.events@.len() + 1,
            lost.shared.events@.drop_last() == self.shared.events@,
            lost.shared.events@.last() matches Event::Message(None, Message::Log(text)) && text@
                == "Connection lost for "@ + account@.text() + ": "@ + reason@,
            refused == (Aparte {
                shared: Shared { events: refused.shared.events, ..self.shared },
                ..self
            }),
            refused.shared.events@.len() == self.shared.events@.len() + 1,
            refused.shared.events@.drop_last() == self.shared.events@,
            refused.shared.events@.last() matches Event::Message(None, Message::Log(text)) && text@
                == "Authentication error for "@ + account@.text() + ": "@ + reason@,
    {
    }

    /// A channel is joined by one presence, from the account to the channel under a nickname, which
    /// carries the wish to join and nothing else. The log names the channel as it was asked for;
    /// those who want to know learn under which nickname it was joined, and who asked. The nickname
    /// is the one in the channel's address, else the account's name made one.
    pub proof fn law_channel_is_joined(
        self,
        account: Account,
        channel: Jid,
        user_request: bool,
        after: Self,
    )
        requires
            self.dispatched(Event::Join { account, channel, user_request }, after),
        ensures
            after == (Aparte {
                shared: Shared {
                    events: after.shared.events,
                    stanzas: after.shared.stanzas,
                    ..self.shared
                },
                ..self
            }),
            after.shared.events@.len() == self.shared.events@.len() + 2,
            after.shared.events@.take(self.shared.events@.len() as int) == self.shared.events@,
            after.shared.events@[self.shared.events@.len() as int] matches Event::Message(
                None,
                Message::Log(text),
            ) && text@ == "Joined "@ + channel@.text(),
            after.shared.stanzas@.len() == self.shared.stanzas@.len() + 1,
            after.shared.stanzas@.drop_last() == self.shared.stanzas@,
            after.shared.stanzas@.last().0 == account,
            after.shared.events@.last() matches Event::Joined {
                account: by,
                channel: target,
                user_request: asked,
            } && {
                &&& by == account
                &&& asked == user_request
                &&& target@.node == channel@.node
                &&& target@.domain == channel@.domain
                &&& channel@.resource is Some ==> target@.resource == channel@.resource
                &&& channel@.resource is None ==> account@.node is Some && resource_of(
                    account@.node->0,
                ) is Ok && target@.resource == Some(resource_of(account@.node->0)->Ok_0)
                &&& after.shared.stanzas@.last().1 matches Outgoing::Presence(presence) && {
                    &&& presence.type_ is None
                    &&& presence.from is Some && presence.from->0@ == account@.text()
                    &&& presence.to is Some && presence.to->0@ == target@.text()
                    &&& presence.show is None
                    &&& presence.payloads@.len() == 1
                    &&& presence.payloads@[0] is Muc
                }
            },
    {
        let (before, events) = (self.shared.events@, after.shared.events@);
        assert(events.take(before.len() as int) =~= events.drop_last().drop_last());
        assert(events.drop_last().last() == events[before.len() as int]);
        let added = after.shared.stanzas@.last().1->Presence_0;
        let target = join_target(account, channel)->0;
        assert(added@ == join_presence(account, target));
        assert(added@.payloads.len() == added.payloads@.len());
        assert(added@.payloads[0] == added.payloads@[0]@);
    }

    /// An account connects where the user wants it to, with what the user gave.
    pub proof fn law_connect_event_connects(
        self,
        info: ConnectionInfo,
        password: Password,
        after: Self,
    )
        requires
            self.dispatched(Event::Connect(info, password), after),
        ensures
            self.connected(after, info, password),
    {
    }

    /// What an event needs: that no module is at work; to start, a password for each account that
    /// connects by itself; to announce the client, a module that knows what it can do; to take a
    /// message in, payloads that can be looked at; and to join a channel, a nickname. An event that
    /// needs no more than what is there can be handled.
    pub proof fn law_what_events_need(self, event: Event)
        ensures
            self.can_handle(event) <==> !self.mods_at_work && match event {
                Event::Start => forall|i: int|
                    0 <= i < self.config.accounts.entries().len()
                        ==> !(#[trigger] self.config.accounts.entries()[i]).1.autoconnect
                        || self.config.accounts.entries()[i].1.password is Some,
                Event::Connected(_, _) => self.mods@.len() > 0,
                Event::Stanza(_, stanza) => xml_name(stanza.xml@) == Some("message"@)
                    && message_of(stanza.xml@) is Ok ==> can_look(
                    stanza.xml@,
                    (message_of(stanza.xml@)->Ok_0).1 as int,
                ),
                Event::Join { account, channel, user_request } => channel.resource is Some || (
                account.node is Some && resource_of(account.node->0@) is Ok),
                _ => true,
            },
    {
    }

    /// What is sent for a message is what encrypting it gave, nothing where that failed, and where
    /// it was not to be encrypted, the message itself, unless it is a line of the log. At most one
    /// stanza is sent, for the same account, and nothing else changes.
    pub proof fn law_sent_by_encryption(
        self,
        after: Self,
        account: Account,
        message: Message,
        encryption: Option<Result<Element, String>>,
    )
        requires
            self.sent(after, account, message, encryption),
        ensures
            after == (Aparte {
                shared: Shared { stanzas: after.shared.stanzas, ..self.shared },
                ..self
            }),
            encryption is Some && encryption->0 is Ok ==> after.shared.stanzas@
                == self.shared.stanzas@.push((account, Outgoing::Element(encryption->0->Ok_0))),
            encryption is Some && encryption->0 is Err ==> after == self,
            encryption is None && message is Xmpp ==> after.shared.stanzas@
                == self.shared.stanzas@.push((account, Outgoing::Element(message->element))),
            encryption is None && message is Log ==> after == self,
    {
    }

    /// Joining a channel as somebody sends one presence, from the account to that somebody, shows
    /// one line of the log with the channel as it was asked for, and tells under whom it was joined
    /// and whether the user asked. Nothing else changes.
    pub proof fn law_joined_as_somebody(
        self,
        after: Self,
        account: Account,
        channel: Jid,
        target: JidView,
        user_request: bool,
    )
        requires
            self.joined(after, account, channel, target, user_request),
        ensures
            after == (Aparte {
                shared: Shared {
                    events: after.shared.events,
                    stanzas: after.shared.stanzas,
                    ..self.shared
                },
                ..self
            }),
            after.shared.events@.len() == self.shared.events@.len() + 2,
            after.shared.events@.drop_last().drop_last() == self.shared.events@,
            after.shared.events@.drop_last().last() matches Event::Message(
                None,
                Message::Log(text),
            ) && text@ == "Joined "@ + channel@.text(),
            after.shared.events@.last() matches Event::Joined {
                account: by,
                channel: room,
                user_request: asked,
            } && by == account && room@ == target && asked == user_request,
            after.shared.stanzas@.len() == self.shared.stanzas@.len() + 1,
            after.shared.stanzas@.drop_last() == self.shared.stanzas@,
            after.shared.stanzas@.last().0 == account,
            after.shared.stanzas@.last().1 matches Outgoing::Presence(presence) && {
                &&& presence@.type_ is None
                &&& presence@.from == Some(account@.text())
                &&& presence@.to == Some(target.text())
                &&& presence@.show is None
                &&& presence@.payloads.len() == 1
                &&& presence@.payloads[0] is Muc
            },
    {
    }
}

} // verus!
