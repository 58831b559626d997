//! What holds of the connections that the client opens, and of what it handles one after the other.
use crate::account::{
    is_alphanumeric, is_suffix, jid_of, Account, ConnectionInfo, JidView, Password,
};
use crate::aparte::Aparte;
use crate::connections::account_id;
use crate::crypto::Cipher;
use crate::event::{ordinary_of, priority_of, Event};
use crate::message::Message;
use crate::mods::{Disco, Keeps, Mod, ModTrait};
use crate::presence::{presence_xml, Outgoing};
use crate::run::{halt_before, halt_of, Halt, Step};
use crate::shared::Shared;
use crate::stanza::Element;
use vstd::prelude::*;

verus! {

impl<D, C> Aparte<D, C> {
    /// A connection is opened to the server that is configured, and with the password that is
    /// given: to the host and the port where both are configured; to the host at the standard port
    /// where only the host is; to the account's domain at the port where only the port is; and to
    /// where a lookup leads where neither is. The account is the one of the address, under its
    /// resource or, where it has none, one that starts with `aparte_` and ends in the suffix. It is
    /// then the current one, its connection has nothing to write, and the log names it. An address
    /// that cannot be read opens nothing, and the log tells the reason.
    pub proof fn law_connects_as_configured(
        self,
        after: Self,
        info: ConnectionInfo,
        password: Password,
        parsed: Result<JidView, Seq<char>>,
        suffix: Seq<char>,
    )
        requires
            self.opened(after, info, password, parsed, suffix),
        ensures
            after.mods == self.mods,
            after.mods_at_work == self.mods_at_work,
            after.config == self.config,
            after.shared == (Shared { events: after.shared.events, ..self.shared }),
            after.shared.events@.len() == self.shared.events@.len() + 1,
            after.shared.events@.drop_last() == self.shared.events@,
            parsed is Err ==> {
                &&& after == (Aparte { shared: after.shared, ..self })
                &&& after.shared.events@.last() matches Event::Message(None, Message::Log(text))
                    && text@ == "Cannot connect as "@ + info.jid@ + ": "@ + parsed->Err_0
            },
            parsed is Ok ==> {
                let config = after.opening@.last();
                let id = seq![config.jid@.text()];
                &&& after.opening@.len() == self.opening@.len() + 1
                &&& after.opening@.drop_last() == self.opening@
                &&& config.jid@.node == parsed->Ok_0.node
                &&& config.jid@.domain == parsed->Ok_0.domain
                &&& parsed->Ok_0.resource is Some ==> config.jid@.resource == parsed->Ok_0.resource
                &&& parsed->Ok_0.resource is None ==> config.jid@.resource == Some(
                    "aparte_"@ + suffix,
                )
                &&& config.password == password.secret
                &&& config.reconnect
                &&& match (info.server, info.port) {
                    (Some(host), Some(port)) => config.server is Manual && config.server->host@
                        == host@ && config.server->port == port,
                    (Some(host), None) => config.server is Manual && config.server->host@ == host@
                        && config.server->port == 5222,
                    (None, Some(port)) => config.server is Manual && config.server->host@
                        == parsed->Ok_0.domain && config.server->port == port,
                    (None, None) => config.server is UseSrv,
                }
                &&& after.shared.events@.last() matches Event::Message(None, Message::Log(text))
                    && text@ == "Connecting as "@ + config.jid@.text()
                &&& after.connections.current() is Some
                &&& after.connections.current()->0@ == config.jid@
                &&& after.connections@.contains_key(id)
                &&& after.connections@[id].sink@.len() == 0
                &&& after.connections@ == self.connections@.insert(id, after.connections@[id])
                &&& !self.connections@.contains_key(id) ==> after.replaced@ == self.replaced@
                &&& self.connections@.contains_key(id) ==> {
                    &&& after.replaced@.len() == self.replaced@.len() + 1
                    &&& after.replaced@.drop_last() == self.replaced@
                    &&& after.replaced@.last().0@ == config.jid@
                    &&& after.replaced@.last().1 == self.connections@[id]
                }
            },
    {
    }

    /// Of a connection that is opened only the last five letters and digits of a resource are left
    /// to chance, for an address without one. All else is as configured, and the password is the
    /// given one.
    pub proof fn law_opens_one_connection(
        self,
        after: Self,
        info: ConnectionInfo,
        password: Password,
    )
        requires
            self.connected(after, info, password),
        ensures
            exists|suffix: Seq<char>|
                {
                    &&& suffix.len() == 5
                    &&& forall|i: int|
                        0 <= i < suffix.len() ==> ('A' <= #[trigger] suffix[i] <= 'Z' || 'a'
                            <= suffix[i] <= 'z' || '0' <= suffix[i] <= '9')
                    &&& #[trigger] self.opened(after, info, password, jid_of(info.jid@), suffix)
                },
            jid_of(info.jid@) is Err ==> after == (Aparte { shared: after.shared, ..self }),
            jid_of(info.jid@) is Ok ==> {
                let jid = jid_of(info.jid@)->Ok_0;
                let config = after.opening@.last();
                &&& after.opening@.len() == self.opening@.len() + 1
                &&& after.opening@.drop_last() == self.opening@
                &&& config.jid@.node == jid.node
                &&& config.jid@.domain == jid.domain
                &&& jid.resource is Some ==> config.jid@.resource == jid.resource
                &&& config.password == password.secret
                &&& config.reconnect
                &&& info.server is Some && info.port is Some ==> config.server is Manual
                    && config.server->host@ == info.server->0@ && config.server->port
                    == info.port->0
                &&& info.server is Some && info.port is None ==> config.server is Manual
                    && config.server->host@ == info.server->0@ && config.server->port == 5222
                &&& info.server is None && info.port is Some ==> config.server is Manual
                    && config.server->host@ == jid.domain && config.server->port == info.port->0
                &&& info.server is None && info.port is None ==> config.server is UseSrv
            },
    {
        let suffix = choose|suffix: Seq<char>|
            is_suffix(suffix) && #[trigger] self.opened(
                after,
                info,
                password,
                jid_of(info.jid@),
                suffix,
            );
        assert forall|i: int| 0 <= i < suffix.len() implies ('A' <= #[trigger] suffix[i] <= 'Z'
            || 'a' <= suffix[i] <= 'z' || '0' <= suffix[i] <= '9') by {
            assert(is_alphanumeric(suffix[i]));
        }
        self.law_connects_as_configured(after, info, password, jid_of(info.jid@), suffix);
    }

    /// The start goes through the configured accounts, the first first: each that connects by
    /// itself is connected, with what is configured for it and its own password, and for the others
    /// nothing is done.
    pub proof fn law_start_goes_through_the_accounts(
        self,
        after: Self,
        accounts: Seq<(String, ConnectionInfo)>,
    )
        requires
            self.started(after, accounts),
        ensures
            exists|seen: Seq<Self>|
                {
                    &&& #[trigger] seen.len() == accounts.len() + 1
                    &&& seen[0] == self
                    &&& seen.last() == after
                    &&& forall|i: int|
                        0 <= i < accounts.len() ==> if (#[trigger] accounts[i]).1.autoconnect {
                            accounts[i].1.password is Some && seen[i].connected(
                                seen[i + 1],
                                accounts[i].1,
                                accounts[i].1.password->0,
                            )
                        } else {
                            seen[i + 1] == seen[i]
                        }
                },
    {
        let seen = self.lemma_started_in_turn(after, accounts);
        assert(seen.len() == accounts.len() + 1);
    }

    /// The clients between the accounts that the start goes through.
    proof fn lemma_started_in_turn(
        self,
        after: Self,
        accounts: Seq<(String, ConnectionInfo)>,
    ) -> (seen: Seq<Self>)
        requires
            self.started(after, accounts),
        ensures
            seen.len() == accounts.len() + 1,
            seen[0] == self,
            seen.last() == after,
            forall|i: int|
                0 <= i < accounts.len() ==> if (#[trigger] accounts[i]).1.autoconnect {
                    accounts[i].1.password is Some && seen[i].connected(
                        seen[i + 1],
                        accounts[i].1,
                        accounts[i].1.password->0,
                    )
                } else {
                    seen[i + 1] == seen[i]
                },
        decreases accounts.len(),
    {
        if accounts.len() == 0 {
            seq![self]
        } else {
            let mid = choose|mid: Self|
                self.started(mid, accounts.drop_last()) && #[trigger] mid.started_one(
                    after,
                    accounts.last().1,
                );
            let before = self.lemma_started_in_turn(mid, accounts.drop_last());
            let seen = before.push(after);
            assert forall|i: int| 0 <= i < accounts.len() implies if (
            #[trigger] accounts[i]).1.autoconnect {
                accounts[i].1.password is Some && seen[i].connected(
                    seen[i + 1],
                    accounts[i].1,
                    accounts[i].1.password->0,
                )
            } else {
                seen[i + 1] == seen[i]
            } by {
                if i < accounts.len() - 1 {
                    assert(accounts.drop_last()[i] == accounts[i]);
                }
            }
            seen
        }
    }

    /// What goes out is handed, as it is written, to the connection of its account, behind what
    /// that is to write already, and to no other. Without a connection it is dropped. Nothing else
    /// changes.
    pub proof fn law_goes_to_its_connection(
        self,
        after: Self,
        account: Account,
        stanza: Outgoing,
    )
        requires
            self.outgoing_sent(after, account, stanza),
        ensures
            after == (Aparte { connections: after.connections, ..self }),
            after.connections.current() == self.connections.current(),
            ({
                let id = seq![account@.text()];
                if self.connections@.contains_key(id) {
                    &&& after.connections@ == self.connections@.insert(id, after.connections@[id])
                    &&& after.connections@[id].sink@.len() == self.connections@[id].sink@.len() + 1
                    &&& after.connections@[id].sink@.drop_last() == self.connections@[id].sink@
                    &&& match stanza {
                        Outgoing::Element(element) => after.connections@[id].sink@.last()
                            == element,
                        Outgoing::Presence(presence) => presence_xml(presence@) == Ok::<
                            Seq<char>,
                            Seq<char>,
                        >(after.connections@[id].sink@.last().xml@),
                    }
                } else {
                    after.connections@ == self.connections@
                }
            }),
    {
        let written = choose|written: Element|
            stanza.written_as(written) && #[trigger] self.stanza_sent(after, account, written);
        let id = account_id(account@);
        if self.connections@.contains_key(id) {
            assert(after.connections@[id].sink@.drop_last() =~= self.connections@[id].sink@);
        }
    }

    /// What lasts is that every account that has a connection keeps having one, and that there is a
    /// current account once there was one.
    pub proof fn law_what_lasts(self, after: Self)
        ensures
            self.keeps(after) <==> (forall|id: Seq<Seq<char>>| #[trigger]
                self.connections@.contains_key(id) ==> after.connections@.contains_key(id)) && (
            self.connections.current() is Some ==> after.connections.current() is Some),
    {
    }
}

impl<D: ModTrait<Aparte<D, C>>, C> Aparte<D, C> {
    /// The clients that the modules saw while they were prepared, one after the other.
    proof fn lemma_prepared_in_turn(
        self,
        mods: Seq<Mod<D>>,
        mods_after: Seq<Mod<D>>,
        after: Self,
    ) -> (seen: Seq<Self>)
        requires
            self.prepared(mods, mods_after, after),
        ensures
            mods_after.len() == mods.len(),
            seen.len() == mods.len() + 1,
            seen[0] == self,
            seen.last() == after,
            forall|i: int|
                0 <= i < mods.len() ==> (#[trigger] mods[i])->Disco_0.prepares(
                    seen[i],
                    mods_after[i]->Disco_0,
                    seen[i + 1],
                    true,
                ),
        decreases mods.len(),
    {
        if mods.len() == 0 {
            seq![self]
        } else {
            let mid = choose|mid: Self|
                self.prepared(mods.drop_last(), mods_after.drop_last(), mid)
                    && #[trigger] mods.last().prepares(mid, mods_after.last(), after, true)
                    && mid.keeps(after);
            let before = self.lemma_prepared_in_turn(mods.drop_last(), mods_after.drop_last(), mid);
            let seen = before.push(after);
            assert forall|i: int| 0 <= i < mods.len() implies (
            #[trigger] mods[i])->Disco_0.prepares(
                seen[i],
                mods_after[i]->Disco_0,
                seen[i + 1],
                true,
            ) by {
                if i < mods.len() - 1 {
                    assert(mods.drop_last()[i] == mods[i]);
                    assert(mods_after.drop_last()[i] == mods_after[i]);
                }
            }
            seen
        }
    }

    /// The modules are prepared one after the other, the first first, each on the client as the one
    /// before left it. It succeeds just where each of them did; the first that fails is the last
    /// that is prepared, and those behind it stay as they were.
    pub proof fn law_modules_are_prepared_in_turn(self, after: Self, success: bool)
        requires
            self.initialised(after, success),
        ensures
            exists|seen: Seq<Self>|
                {
                    let k = seen.len() - 1;
                    &&& 1 <= #[trigger] seen.len() <= self.mods@.len() + 1
                    &&& after.mods@.len() == self.mods@.len()
                    &&& seen[0].mods@.len() == 0
                    &&& seen[0] == (Aparte { mods: seen[0].mods, mods_at_work: true, ..self })
                    &&& after == (Aparte { mods: after.mods, mods_at_work: false, ..seen.last() })
                    &&& success ==> k == self.mods@.len()
                    &&& !success ==> k > 0
                    &&& forall|i: int|
                        0 <= i < k ==> (#[trigger] self.mods@[i])->Disco_0.prepares(
                            seen[i],
                            after.mods@[i]->Disco_0,
                            seen[i + 1],
                            success || i < k - 1,
                        )
                    &&& forall|i: int|
                        k <= i < self.mods@.len() ==> #[trigger] after.mods@[i] == self.mods@[i]
                },
    {
        let (during, done) = choose|during: Self, done: Self|
            {
                &&& #[trigger] self.without_mods(during)
                &&& #[trigger] done.with_mods(after.mods@, after)
                &&& if success {
                    during.prepared(self.mods@, after.mods@, done)
                } else {
                    exists|i: int| #[trigger]
                        during.prepared_up_to(self.mods@, after.mods@, done, i)
                }
            };
        let (mods, mods_after) = (self.mods@, after.mods@);
        if success {
            let seen = during.lemma_prepared_in_turn(mods, mods_after, done);
            assert(seen.len() == mods.len() + 1);
        } else {
            let n = choose|i: int| #[trigger] during.prepared_up_to(mods, mods_after, done, i);
            let mid = choose|mid: Self|
                during.prepared(mods.take(n), mods_after.take(n), mid)
                    && #[trigger] mods[n].prepares(mid, mods_after[n], done, false) && mid.keeps(
                    done,
                );
            let before = during.lemma_prepared_in_turn(mods.take(n), mods_after.take(n), mid);
            let seen = before.push(done);
            assert forall|i: int| 0 <= i < seen.len() - 1 implies (
            #[trigger] mods[i])->Disco_0.prepares(
                seen[i],
                mods_after[i]->Disco_0,
                seen[i + 1],
                i < seen.len() - 2,
            ) by {
                if i < n {
                    assert(mods.take(n)[i] == mods[i]);
                    assert(mods_after.take(n)[i] == mods_after[i]);
                }
            }
            assert forall|i: int| n + 1 <= i < mods.len() implies #[trigger] mods_after[i]
                == mods[i] by {
                assert(mods_after.skip(n + 1)[i - n - 1] == mods.skip(n + 1)[i - n - 1]);
            }
            assert(seen.len() == n + 2);
        }
    }
}

/// How the handling went and how the client goes on say the same: it goes on where nothing ended
/// it, stops where the user wants it, and else something is missing.
pub proof fn law_how_it_goes_on(halt: Halt)
    ensures
        halt_of(Ok(())) is None,
        halt_of(Err(halt)) == Some(halt),
        halt_before(Step::Next) is None,
        halt_before(Step::Stop) == Some(Halt::Quit),
        halt_before(Step::Unmet) == Some(Halt::Unmet),
{
}

impl<D: Disco<Aparte<D, C>>, C: Cipher<Aparte<D, C>>> Aparte<D, C> {
    /// The clients between events that are handled one after the other.
    proof fn lemma_ran_in_turn(self, events: Seq<Event>, after: Self) -> (seen: Seq<Self>)
        requires
            self.ran(events, after),
        ensures
            seen.len() == events.len() + 1,
            seen[0] == self,
            seen.last() == after,
            forall|i: int|
                0 <= i < events.len() ==> seen[i].handled(#[trigger] events[i], seen[i + 1], None),
        decreases events.len(),
    {
        if events.len() == 0 {
            seq![self]
        } else {
            let mid = choose|mid: Self|
                self.ran(events.drop_last(), mid) && #[trigger] mid.handled(
                    events.last(),
                    after,
                    None,
                );
            let before = self.lemma_ran_in_turn(events.drop_last(), mid);
            let seen = before.push(after);
            assert forall|i: int| 0 <= i < events.len() implies seen[i].handled(
                #[trigger] events[i],
                seen[i + 1],
                None,
            ) by {
                if i < events.len() - 1 {
                    assert(events.drop_last()[i] == events[i]);
                }
            }
            seen
        }
    }

    /// Events that are handled without an end are each handled once, in their order, on the client
    /// as the one before left it.
    pub proof fn law_each_event_is_handled_once(self, events: Seq<Event>, after: Self)
        requires
            self.ran(events, after),
        ensures
            exists|seen: Seq<Self>|
                {
                    &&& #[trigger] seen.len() == events.len() + 1
                    &&& seen[0] == self
                    &&& seen.last() == after
                    &&& forall|i: int|
                        0 <= i < events.len() ==> seen[i].handled(
                            #[trigger] events[i],
                            seen[i + 1],
                            None,
                        )
                },
    {
        let seen = self.lemma_ran_in_turn(events, after);
        assert(seen.len() == events.len() + 1);
    }

    /// Events are handled up to the one that ends it: those before it once each and in their order,
    /// then that one.
    pub proof fn law_handled_up_to_the_end(
        self,
        events: Seq<Event>,
        k: int,
        after: Self,
        halt: Halt,
    )
        requires
            self.halted(events, k, after, halt),
        ensures
            0 <= k < events.len(),
            exists|seen: Seq<Self>|
                {
                    &&& #[trigger] seen.len() == k + 1
                    &&& seen[0] == self
                    &&& forall|i: int|
                        0 <= i < k ==> seen[i].handled(#[trigger] events[i], seen[i + 1], None)
                    &&& seen[k].handled(events[k], after, Some(halt))
                },
    {
        let seen = self.lemma_halted_in_turn(events, k, after, halt);
        assert(seen.len() == k + 1);
    }

    /// The clients between events that are handled up to one that ends it.
    proof fn lemma_halted_in_turn(
        self,
        events: Seq<Event>,
        k: int,
        after: Self,
        halt: Halt,
    ) -> (seen: Seq<Self>)
        requires
            self.halted(events, k, after, halt),
        ensures
            0 <= k < events.len(),
            seen.len() == k + 1,
            seen[0] == self,
            forall|i: int| 0 <= i < k ==> seen[i].handled(#[trigger] events[i], seen[i + 1], None),
            seen[k].handled(events[k], after, Some(halt)),
    {
        let mid = choose|mid: Self|
            self.ran(events.take(k), mid) && #[trigger] mid.handled(events[k], after, Some(halt));
        let seen = self.lemma_ran_in_turn(events.take(k), mid);
        assert forall|i: int| 0 <= i < k implies seen[i].handled(
            #[trigger] events[i],
            seen[i + 1],
            None,
        ) by {
            assert(events.take(k)[i] == events[i]);
        }
        seen
    }

    /// Of events that come together, those that change the window or end the client are handled
    /// first, then those that waited before, then the others, each in the order in which they came,
    /// each once, and each on the client as the one before left it. The first that ends it is the
    /// last that is handled; those that wait behind it are left.
    pub proof fn law_batch_is_handled_in_order(
        self,
        events: Seq<Event>,
        last: Seq<Event>,
        after: Self,
        rest: Seq<Event>,
        halt: Option<Halt>,
    )
        requires
            self.batch_handled(events, last, after, rest, halt),
        ensures
            ({
                let first = events.filter(|e: Event| e is ChangeWindow || e is Quit);
                let all = first + (last + events.filter(
                    |e: Event| !(e is ChangeWindow || e is Quit),
                ));
                exists|seen: Seq<Self>|
                    {
                        &&& 1 <= #[trigger] seen.len() <= all.len() + 1
                        &&& seen[0] == self
                        &&& forall|i: int|
                            0 <= i < seen.len() - 1 ==> seen[i].handled(
                                #[trigger] all[i],
                                seen[i + 1],
                                None,
                            )
                        &&& match halt {
                            None => {
                                &&& seen.len() == all.len() + 1
                                &&& seen.last() == after
                                &&& rest.len() == 0
                            },
                            Some(why) => {
                                &&& seen.len() <= all.len()
                                &&& seen.last().handled(all[seen.len() - 1], after, Some(why))
                                &&& rest == all.skip(
                                    if seen.len() <= first.len() {
                                        first.len() as int
                                    } else {
                                        seen.len() as int
                                    },
                                )
                            },
                        }
                    }
            }),
    {
        let first = priority_of(events);
        let waiting = last + ordinary_of(events);
        let all = first + waiting;
        Self::lemma_split_is_by_kind(events);
        match halt {
            None => {
                let seen = self.lemma_ran_in_turn(all, after);
                assert(seen.len() == all.len() + 1);
            },
            Some(why) => {
                let k = choose|k: int|
                    {
                        &&& #[trigger] self.halted(all, k, after, why)
                        &&& rest == if k < first.len() {
                            waiting
                        } else {
                            waiting.skip(k - first.len() + 1)
                        }
                    };
                let seen = self.lemma_halted_in_turn(all, k, after, why);
                assert(all.skip(first.len() as int) =~= waiting);
                if k >= first.len() {
                    assert(all.skip(k + 1) =~= waiting.skip(k - first.len() + 1));
                }
                assert(seen.len() == k + 1);
            },
        }
    }

    /// The events are parted by whether they change the window or end the client.
    proof fn lemma_split_is_by_kind(events: Seq<Event>)
        ensures
            priority_of(events) == events.filter(
                |e: Event| e is ChangeWindow || e is Quit,
            ),
            ordinary_of(events) == events.filter(
                |e: Event| !(e is ChangeWindow || e is Quit),
            ),
        decreases events.len(),
    {
        reveal(Seq::filter);
        if events.len() > 0 {
            Self::lemma_split_is_by_kind(events.drop_last());
        }
    }

    /// For a client that no event ends, events that come together are handled in two rounds: those
    /// that change the window or end the client, and then those that wait. Each round goes on, in
    /// order and on the client as it was left, until nothing is left of it or an event would end
    /// the client; the second round takes place either way. Only where something is missing for an
    /// event does it end there.
    pub proof fn law_rounds_of_a_client_without_end(
        self,
        events: Seq<Event>,
        last: Seq<Event>,
        after: Self,
        rest: Seq<Event>,
        halt: Option<Halt>,
    )
        requires
            self.batch_handled_async(events, last, after, rest, halt),
        ensures
            halt is None || halt == Some(Halt::Unmet),
            ({
                let first = events.filter(|e: Event| e is ChangeWindow || e is Quit);
                let waiting = last + events.filter(|e: Event| !(e is ChangeWindow || e is Quit));
                ||| halt is Some && rest == waiting && exists|k: int| #[trigger]
                    self.halted(first, k, after, Halt::Unmet)
                ||| exists|mid: Self|
                    {
                        &&& #[trigger] self.ran(first, mid) || exists|k: int| #[trigger]
                            self.halted(first, k, mid, Halt::Quit)
                        &&& match halt {
                            None => {
                                ||| rest.len() == 0 && mid.ran(waiting, after)
                                ||| exists|k: int|
                                    {
                                        &&& #[trigger] mid.halted(waiting, k, after, Halt::Quit)
                                        &&& rest == waiting.skip(k + 1)
                                    }
                            },
                            Some(_) => exists|k: int|
                                {
                                    &&& #[trigger] mid.halted(waiting, k, after, Halt::Unmet)
                                    &&& rest == waiting.skip(k + 1)
                                },
                        }
                    }
            }),
    {
        let first = priority_of(events);
        let waiting = last + ordinary_of(events);
        Self::lemma_split_is_by_kind(events);
        if halt is None {
            let (mid, dropped) = choose|mid: Self, dropped: Seq<Event>| #[trigger]
                self.walked(first, mid, dropped) && mid.walked(waiting, after, rest);
            assert(self.ran(first, mid) || exists|k: int| #[trigger]
                self.halted(first, k, mid, Halt::Quit));
        } else if exists|mid: Self, dropped: Seq<Event>, k: int|
            {
                &&& #[trigger] self.walked(first, mid, dropped)
                &&& #[trigger] mid.halted(waiting, k, after, Halt::Unmet)
                &&& rest == waiting.skip(k + 1)
            } {
            let (mid, dropped, k) = choose|mid: Self, dropped: Seq<Event>, k: int|
                {
                    &&& #[trigger] self.walked(first, mid, dropped)
                    &&& #[trigger] mid.halted(waiting, k, after, Halt::Unmet)
                    &&& rest == waiting.skip(k + 1)
                };
            assert(self.ran(first, mid) || exists|k: int| #[trigger]
                self.halted(first, k, mid, Halt::Quit));
        }
    }

    /// A stanza that is to be sent and can be written is handed on, and the client waits for what
    /// comes next. One that cannot be written changes nothing and is told as missing.
    pub proof fn law_stanza_is_taken(
        self,
        after: Self,
        account: Account,
        stanza: Outgoing,
        step: Step,
    )
        requires
            self.stanza_taken(after, account, stanza, step),
        ensures
            stanza is Element ==> step == Step::Next,
            stanza.writable() ==> step == Step::Next && self.outgoing_sent(after, account, stanza),
            !stanza.writable() ==> step == Step::Unmet && after == self,
    {
    }
}

} // verus!
