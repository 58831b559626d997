//! What holds of the client as a whole.
use crate::account::{jid_of, Account, ConnectionInfo, FullJid, Jid, Password};
use crate::aparte::Aparte;
use crate::async_iq::PendingIqState;
use crate::connections::account_id;
use crate::crypto::{conversation_id, Cipher, CryptoEngine};
use crate::dispatch::{join_target, message_result_view, message_seen, sender_id};
use crate::event::{ordinary_of, priority_of, Delay, Event};
use crate::message::Message;
use crate::mods::{is_best, Disco, Keeps, Mod, ModTrait};
use crate::presence::Outgoing;
use crate::run::Halt;
use crate::shared::Shared;
use crate::payload::{encryption_of, payloads_view, Payload};
use crate::stanza::{xml_name, Element, Iq, XmppMessage};
use std::task::Waker;
use vstd::prelude::*;

verus! {

/// The first answer to a request stays: no further answer, and nothing that cannot be read, takes
/// its place, for this request or another.
pub proof fn law_first_answer_stays<C>(
    shared: Shared<C>,
    after: Shared<C>,
    request: u128,
    account: Account,
    iq: Iq,
    reason: String,
    uuid: Option<u128>,
)
    requires
        shared.pending_iq@.contains_key(request),
        shared.pending_iq@[request] is Finished,
        shared.answered(after, account, iq, uuid) || shared.errored(after, reason, uuid),
    ensures
        after.pending_iq@.contains_key(request),
        after.pending_iq@[request] == shared.pending_iq@[request],
{
}

/// An answer that can be read takes the place of one that could not be.
pub proof fn law_answer_replaces_failure<C>(
    shared: Shared<C>,
    failed: Shared<C>,
    after: Shared<C>,
    account: Account,
    iq: Iq,
    reason: String,
    request: u128,
)
    requires
        shared.pending_iq@.contains_key(request),
        !(shared.pending_iq@[request] is Finished),
        shared.errored(failed, reason, Some(request)),
        failed.answered(after, account, iq, Some(request)),
    ensures
        failed.pending_iq@[request] is Errored,
        after.pending_iq@[request] == PendingIqState::Finished(iq),
{
}

/// Of several answers that cannot be read, the first is kept.
pub proof fn law_first_failure_stays<C>(
    shared: Shared<C>,
    once: Shared<C>,
    twice: Shared<C>,
    first: String,
    second: String,
    uuid: Option<u128>,
)
    requires
        shared.errored(once, first, uuid),
        once.errored(twice, second, uuid),
    ensures
        twice.pending_iq@ == once.pending_iq@,
        twice.woken@ == once.woken@,
{
    if shared.awaits(uuid) {
        assert(twice.pending_iq@ =~= once.pending_iq@);
        assert(twice.woken@ =~= once.woken@);
    }
}

/// Nothing that comes makes the client forget a request, or wait for one that it did not send.
pub proof fn law_requests_stay<C>(
    shared: Shared<C>,
    after: Shared<C>,
    account: Account,
    iq: Iq,
    reason: String,
    uuid: Option<u128>,
)
    requires
        shared.answered(after, account, iq, uuid) || shared.errored(after, reason, uuid),
    ensures
        after.pending_iq@.dom() == shared.pending_iq@.dom(),
{
    if shared.awaits(uuid) {
        assert(after.pending_iq@.dom() =~= shared.pending_iq@.dom());
    }
}

/// What comes for one request leaves the others as they are.
pub proof fn law_other_requests_unchanged<C>(
    shared: Shared<C>,
    after: Shared<C>,
    account: Account,
    iq: Iq,
    reason: String,
    uuid: Option<u128>,
    other: u128,
)
    requires
        uuid != Some(other),
        shared.pending_iq@.contains_key(other),
        shared.answered(after, account, iq, uuid) || shared.errored(after, reason, uuid),
    ensures
        after.pending_iq@[other] == shared.pending_iq@[other],
{
}

/// An answer that nobody waits for leaves the requests as they are and wakes nobody.
pub proof fn law_unexpected_answer_wakes_nobody<C>(
    shared: Shared<C>,
    after: Shared<C>,
    account: Account,
    iq: Iq,
    reason: String,
    uuid: Option<u128>,
)
    requires
        !shared.awaits(uuid),
        shared.answered(after, account, iq, uuid) || shared.errored(after, reason, uuid),
    ensures
        after.pending_iq@ == shared.pending_iq@,
        after.woken@ == shared.woken@,
{
}

/// Whoever waits for an answer is woken by the first thing that comes for the request, and by
/// nothing after it.
pub proof fn law_woken_once<C>(
    shared: Shared<C>,
    once: Shared<C>,
    twice: Shared<C>,
    account: Account,
    iq: Iq,
    second: Iq,
    reason: String,
    other: String,
    request: u128,
)
    requires
        shared.pending_iq@.contains_key(request),
        shared.answered(once, account, iq, Some(request)) || shared.errored(
            once,
            reason,
            Some(request),
        ),
        once.answered(twice, account, second, Some(request)) || once.errored(
            twice,
            other,
            Some(request),
        ),
    ensures
        once.woken@ == shared.woken@ + shared.pending_iq@[request].wakes(),
        twice.woken@ == once.woken@,
{
    assert(twice.woken@ =~= once.woken@);
}

/// Whoever waits for the answer to a request is woken by it and gets that answer.
pub proof fn law_answer_is_delivered<C>(
    shared: Shared<C>,
    asked: Shared<C>,
    answered: Shared<C>,
    after: Shared<C>,
    request: u128,
    waker: Waker,
    again: Waker,
    account: Account,
    iq: Iq,
    first: Option<Result<Iq, String>>,
    second: Option<Result<Iq, String>>,
)
    requires
        shared.pending_iq@.contains_key(request),
        shared.pending_iq@[request] is Waiting,
        shared.polled(asked, request, waker, first),
        asked.answered(answered, account, iq, Some(request)),
        answered.polled(after, request, again, second),
    ensures
        first is None,
        answered.woken@ == asked.woken@.push(waker),
        second == Some(Ok::<Iq, String>(iq)),
        !after.pending_iq@.contains_key(request),
{
    assert(answered.woken@ =~= asked.woken@.push(waker));
}

/// Parting events by priority loses none and makes up none.
pub proof fn law_split_keeps_all(events: Seq<Event>)
    ensures
        priority_of(events).to_multiset().add(ordinary_of(events).to_multiset())
            == events.to_multiset(),
        priority_of(events).len() + ordinary_of(events).len() == events.len(),
    decreases events.len(),
{
    broadcast use vstd::seq_lib::group_to_multiset_ensures;

    reveal(Seq::filter);
    if events.len() == 0 {
        assert(priority_of(events).to_multiset().add(ordinary_of(events).to_multiset())
            =~= events.to_multiset());
    } else {
        let before = events.drop_last();
        law_split_keeps_all(before);
        assert(events =~= before.push(events.last()));
        assert(priority_of(events).to_multiset().add(ordinary_of(events).to_multiset())
            =~= before.to_multiset().insert(events.last()));
    }
}

/// Which events go before others is a matter of their kind alone.
pub proof fn law_split_by_priority(events: Seq<Event>, event: Event)
    ensures
        priority_of(events).contains(event) <==> events.contains(event) && event.is_priority(),
        ordinary_of(events).contains(event) <==> events.contains(event) && !event.is_priority(),
{
    broadcast use vstd::seq_lib::group_filter_ensures;

    let first = |event: Event| event.is_priority();
    let other = |event: Event| !event.is_priority();
    if events.contains(event) {
        let i = events.index_of(event);
        assert(events[i] == event);
        if event.is_priority() {
            events.lemma_filter_contains(first, i);
        } else {
            events.lemma_filter_contains(other, i);
        }
    }
    if events.filter(first).contains(event) {
        events.lemma_filter_contains_rev(first, event);
        let i = events.filter(first).index_of(event);
        assert(first(events.filter(first)[i]));
    }
    if events.filter(other).contains(event) {
        events.lemma_filter_contains_rev(other, event);
        let i = events.filter(other).index_of(event);
        assert(other(events.filter(other)[i]));
    }
}

/// Whether one event stands before another among the given ones.
pub open spec fn stands_before(events: Seq<Event>, one: Event, another: Event) -> bool {
    exists|p: int, q: int|
        0 <= p < q < events.len() && #[trigger] events[p] == one && #[trigger] events[q] == another
}

/// A part of the events keeps their order.
proof fn lemma_filter_keeps_order(events: Seq<Event>, kind: spec_fn(Event) -> bool, i: int, j: int)
    requires
        0 <= i < j < events.filter(kind).len(),
    ensures
        stands_before(events, events.filter(kind)[i], events.filter(kind)[j]),
    decreases events.len(),
{
    reveal(Seq::filter);
    let before = events.drop_last();
    let part = before.filter(kind);
    if j < part.len() {
        lemma_filter_keeps_order(before, kind, i, j);
        let (p, q) = choose|p: int, q: int|
            0 <= p < q < before.len() && #[trigger] before[p] == part[i] && #[trigger] before[q]
                == part[j];
        assert(events[p] == part[i] && events[q] == part[j]);
    } else {
        assert(part.contains(part[i]));
        before.lemma_filter_contains_rev(kind, part[i]);
        let p = before.index_of(part[i]);
        assert(events[p] == part[i] && events[events.len() - 1] == events.filter(kind)[j]);
    }
}

/// Parting events by priority keeps the order on both sides.
pub proof fn law_split_keeps_order(events: Seq<Event>, i: int, j: int)
    requires
        0 <= i < j,
    ensures
        j < priority_of(events).len() ==> stands_before(
            events,
            priority_of(events)[i],
            priority_of(events)[j],
        ),
        j < ordinary_of(events).len() ==> stands_before(
            events,
            ordinary_of(events)[i],
            ordinary_of(events)[j],
        ),
{
    if j < priority_of(events).len() {
        lemma_filter_keeps_order(events, |event: Event| event.is_priority(), i, j);
    }
    if j < ordinary_of(events).len() {
        lemma_filter_keeps_order(events, |event: Event| !event.is_priority(), i, j);
    }
}

/// There is a best module just where some module can handle the message, and it is one alone.
pub proof fn law_best_is_one(scores: Seq<u64>)
    ensures
        (exists|i: int| is_best(scores, i)) <==> exists|i: int|
            0 <= i < scores.len() && #[trigger] scores[i] > 0,
        forall|i: int, j: int| is_best(scores, i) && is_best(scores, j) ==> i == j,
    decreases scores.len(),
{
    if exists|i: int| 0 <= i < scores.len() && #[trigger] scores[i] > 0 {
        let before = scores.drop_last();
        let last = scores.len() - 1;
        law_best_is_one(before);
        if exists|i: int| is_best(before, i) {
            let b = choose|i: int| is_best(before, i);
            assert(forall|j: int| 0 <= j < last ==> #[trigger] before[j] == scores[j]);
            if scores[last] > scores[b] {
                assert forall|j: int| 0 <= j < last implies #[trigger] scores[j] < scores[last] by {
                    assert(before[j] == scores[j]);
                }
                assert(is_best(scores, last));
            } else {
                assert forall|j: int| 0 <= j < scores.len() implies #[trigger] scores[j]
                    <= scores[b] by {
                    if j < last {
                        assert(before[j] == scores[j]);
                    }
                }
                assert forall|j: int| 0 <= j < b implies #[trigger] scores[j] < scores[b] by {
                    assert(before[j] == scores[j]);
                }
                assert(is_best(scores, b));
            }
        } else {
            assert forall|j: int| 0 <= j < last implies #[trigger] scores[j] == 0 by {
                assert(before[j] == scores[j]);
            }
            assert(scores[last] > 0);
            assert(is_best(scores, last));
        }
    }
    if exists|i: int| is_best(scores, i) {
        let b = choose|i: int| is_best(scores, i);
        assert(scores[b] > 0);
    }
}

/// A channel is joined under its own address, with a nickname.
pub proof fn law_join_keeps_channel(account: FullJid, channel: Jid)
    requires
        join_target(account, channel) is Some,
    ensures
        (join_target(account, channel)->0).bare() == channel@.bare(),
        (join_target(account, channel)->0).resource is Some,
        channel@.resource is Some ==> join_target(account, channel) == Some(channel@),
{
}

impl<D, C> Aparte<D, C> {
    /// Connecting with an address that can be read makes the account the current one, gives it a
    /// connection with nothing to write yet, and keeps the address: all of it where it has a
    /// resource, and all but the resource where it has none.
    pub proof fn law_connected_is_current(
        self,
        after: Self,
        info: ConnectionInfo,
        password: Password,
    )
        requires
            self.connected(after, info, password),
            jid_of(info.jid@) is Ok,
        ensures
            after.connections.current() is Some,
            ({
                let (jid, account) = (jid_of(info.jid@)->Ok_0, after.connections.current()->0@);
                &&& after.connections@.contains_key(account_id(account))
                &&& after.connections@[account_id(account)].sink@.len() == 0
                &&& account.bare() == jid.bare()
                &&& jid.resource is Some ==> account == jid
                &&& account.resource is Some
                &&& after.opening@.last().jid@ == account
            }),
    {
    }

    /// An address that cannot be read connects nothing: only the log tells of it.
    pub proof fn law_unreadable_address_connects_nothing(
        self,
        after: Self,
        info: ConnectionInfo,
        password: Password,
    )
        requires
            self.connected(after, info, password),
            jid_of(info.jid@) is Err,
        ensures
            after.opening == self.opening,
            after.connections == self.connections,
            after.connections.current() == self.connections.current(),
            after.shared.events@.len() == self.shared.events@.len() + 1,
    {
    }

    /// Connecting one account leaves the connections of the others as they are.
    pub proof fn law_connect_keeps_others(
        self,
        after: Self,
        info: ConnectionInfo,
        password: Password,
        other: Seq<Seq<char>>,
    )
        requires
            self.connected(after, info, password),
            self.connections@.contains_key(other),
            jid_of(info.jid@) is Ok ==> other != account_id(after.connections.current()->0@),
        ensures
            after.connections@.contains_key(other),
            after.connections@[other] == self.connections@[other],
    {
    }

    /// A stanza goes to the connection of its account, behind what waits there, and to no other.
    pub proof fn law_stanza_reaches_its_account(
        self,
        after: Self,
        account: Account,
        stanza: Element,
        other: Seq<Seq<char>>,
    )
        requires
            self.stanza_sent(after, account, stanza),
        ensures
            after.connections@.dom() == self.connections@.dom(),
            other != account_id(account@) && self.connections@.contains_key(other)
                ==> after.connections@[other] == self.connections@[other],
            self.connections@.contains_key(account_id(account@))
                ==> after.connections@[account_id(account@)].sink@
                == self.connections@[account_id(account@)].sink@.push(stanza),
    {
        assert(after.connections@.dom() =~= self.connections@.dom());
    }

    /// The start makes one attempt for each account that connects by itself, and no other: each
    /// attempt shows one line of the log, and each address that can be read opens one connection.
    pub proof fn law_start_connects_each(self, after: Self, accounts: Seq<(String, ConnectionInfo)>)
        requires
            self.started(after, accounts),
        ensures
            after.shared.events@.len() == self.shared.events@.len() + accounts.filter(
                |entry: (String, ConnectionInfo)| entry.1.autoconnect,
            ).len(),
            after.opening@.len() == self.opening@.len() + accounts.filter(
                |entry: (String, ConnectionInfo)|
                    entry.1.autoconnect && jid_of(entry.1.jid@) is Ok,
            ).len(),
        decreases accounts.len(),
    {
        reveal(Seq::filter);
        if accounts.len() > 0 {
            let mid = choose|mid: Self|
                self.started(mid, accounts.drop_last()) && #[trigger] mid.started_one(
                    after,
                    accounts.last().1,
                );
            self.law_start_connects_each(mid, accounts.drop_last());
        }
    }

    /// What keeps the connections twice keeps them.
    pub proof fn law_keeps_on(self, mid: Self, after: Self)
        requires
            self.keeps(mid),
            mid.keeps(after),
        ensures
            self.keeps(after),
    {
    }

    /// Connecting takes no connection away, and leaves the current account connected.
    pub proof fn law_connect_keeps(self, after: Self, info: ConnectionInfo, password: Password)
        requires
            self.connected(after, info, password),
        ensures
            self.keeps(after),
    {
    }

    /// The start takes no connection away, and leaves the current account connected.
    pub proof fn law_start_keeps(self, after: Self, accounts: Seq<(String, ConnectionInfo)>)
        requires
            self.started(after, accounts),
        ensures
            self.keeps(after),
        decreases accounts.len(),
    {
        if accounts.len() > 0 {
            let mid = choose|mid: Self|
                self.started(mid, accounts.drop_last()) && #[trigger] mid.started_one(
                    after,
                    accounts.last().1,
                );
            self.law_start_keeps(mid, accounts.drop_last());
            assert(mid.keeps(after));
            self.law_keeps_on(mid, after);
        }
    }

    /// Handing a stanza over takes no connection away, and leaves the current account connected.
    pub proof fn law_sending_keeps(self, after: Self, account: Account, stanza: Element)
        requires
            self.stanza_sent(after, account, stanza),
        ensures
            self.keeps(after),
    {
        self.law_stanza_reaches_its_account(after, account, stanza, account_id(account@));
    }

    /// Whether the start, or an attempt to connect, leaves the modules as they were: not at work
    /// where they were not.
    proof fn lemma_start_at_rest(self, after: Self, accounts: Seq<(String, ConnectionInfo)>)
        requires
            self.started(after, accounts),
        ensures
            after.mods_at_work == self.mods_at_work,
        decreases accounts.len(),
    {
        if accounts.len() > 0 {
            let mid = choose|mid: Self|
                self.started(mid, accounts.drop_last()) && #[trigger] mid.started_one(
                    after,
                    accounts.last().1,
                );
            self.lemma_start_at_rest(mid, accounts.drop_last());
        }
    }
}

impl<D: ModTrait<Aparte<D, C>>, C> Aparte<D, C> {
    /// What the modules do in turn keeps the connections.
    proof fn lemma_prepared_keeps(self, mods: Seq<Mod<D>>, mods_after: Seq<Mod<D>>, after: Self)
        requires
            self.prepared(mods, mods_after, after),
        ensures
            self.keeps(after),
        decreases mods.len(),
    {
        if mods.len() > 0 {
            let mid = choose|mid: Self|
                self.prepared(mods.drop_last(), mods_after.drop_last(), mid)
                    && #[trigger] mods.last().prepares(mid, mods_after.last(), after, true)
                    && mid.keeps(after);
            self.lemma_prepared_keeps(mods.drop_last(), mods_after.drop_last(), mid);
            self.law_keeps_on(mid, after);
        }
    }

    /// What the modules do in turn keeps the connections.
    proof fn lemma_noticed_keeps(
        self,
        mods: Seq<Mod<D>>,
        event: Event,
        mods_after: Seq<Mod<D>>,
        after: Self,
    )
        requires
            self.noticed_by(mods, event, mods_after, after),
        ensures
            self.keeps(after),
        decreases mods.len(),
    {
        if mods.len() > 0 {
            let mid = choose|mid: Self|
                self.noticed_by(mods.drop_last(), event, mods_after.drop_last(), mid)
                    && #[trigger] mods.last().reacts(mid, event, mods_after.last(), after)
                    && mid.keeps(after);
            self.lemma_noticed_keeps(mods.drop_last(), event, mods_after.drop_last(), mid);
            self.law_keeps_on(mid, after);
        }
    }

    /// What the modules do in turn keeps the connections.
    proof fn lemma_scored_keeps(
        self,
        mods: Seq<Mod<D>>,
        account: Account,
        message: XmppMessage,
        delay: Option<Delay>,
        mods_after: Seq<Mod<D>>,
        after: Self,
        scores: Seq<u64>,
    )
        requires
            self.scored_by(mods, account, message, delay, mods_after, after, scores),
        ensures
            self.keeps(after),
        decreases mods.len(),
    {
        if mods.len() > 0 {
            let (before, before_after) = (mods.drop_last(), mods_after.drop_last());
            let mid = choose|mid: Self|
                self.scored_by(
                    before,
                    account,
                    message,
                    delay,
                    before_after,
                    mid,
                    scores.drop_last(),
                ) && #[trigger] mods.last().scores(
                    mid,
                    account,
                    message,
                    delay,
                    mods_after.last(),
                    after,
                    scores.last(),
                ) && mid.keeps(after);
            self.lemma_scored_keeps(
                before,
                account,
                message,
                delay,
                before_after,
                mid,
                scores.drop_last(),
            );
            self.law_keeps_on(mid, after);
        }
    }

    /// Preparing the modules takes no connection away, and leaves the current account connected.
    pub proof fn law_init_keeps(self, after: Self, success: bool)
        requires
            self.initialised(after, success),
        ensures
            self.keeps(after),
    {
        let (during, done) = choose|during: Self, done: Self|
            {
                &&& #[trigger] self.without_mods(during)
                &&& #[trigger] done.with_mods(after.mods@, after)
                &&& if success {
                    during.prepared(self.mods@, after.mods@, done)
                } else {
                    exists|i: int| #[trigger]
                        during.prepared_up_to(self.mods@, after.mods@, done, i)
                }
            };
        if success {
            during.lemma_prepared_keeps(self.mods@, after.mods@, done);
        } else {
            let i = choose|i: int| #[trigger]
                during.prepared_up_to(self.mods@, after.mods@, done, i);
            let mid = choose|mid: Self|
                during.prepared(self.mods@.take(i), after.mods@.take(i), mid)
                    && #[trigger] self.mods@[i].prepares(mid, after.mods@[i], done, false)
                    && mid.keeps(done);
            during.lemma_prepared_keeps(self.mods@.take(i), after.mods@.take(i), mid);
            during.law_keeps_on(mid, done);
        }
    }

    /// Telling the modules of an event takes no connection away, and leaves the current account
    /// connected.
    pub proof fn law_notice_keeps(self, event: Event, after: Self)
        requires
            self.noticed(event, after),
        ensures
            self.keeps(after),
    {
        let (during, done) = choose|during: Self, done: Self|
            {
                &&& #[trigger] self.without_mods(during)
                &&& #[trigger] done.with_mods(after.mods@, after)
                &&& during.noticed_by(self.mods@, event, after.mods@, done)
            };
        during.lemma_noticed_keeps(self.mods@, event, after.mods@, done);
    }

    /// Letting a module handle a message takes no connection away, and leaves the current account
    /// connected.
    pub proof fn law_routing_keeps(
        self,
        account: Account,
        message: XmppMessage,
        delay: Option<Delay>,
        archive: bool,
        after: Self,
    )
        requires
            self.routed(account, message, delay, archive, after),
        ensures
            self.keeps(after),
    {
        let (during, asked, mid, scores, done) = choose|
            during: Self,
            asked: Seq<Mod<D>>,
            mid: Self,
            scores: Seq<u64>,
            done: Self,
        |
            {
                &&& #[trigger] self.without_mods(during)
                &&& #[trigger] during.scored_by(
                    self.mods@,
                    account,
                    message,
                    delay,
                    asked,
                    mid,
                    scores,
                )
                &&& mid.handed_over(
                    asked,
                    account,
                    message,
                    delay,
                    archive,
                    after.mods@,
                    done,
                    scores,
                )
                &&& #[trigger] done.with_mods(after.mods@, after)
            };
        during.lemma_scored_keeps(self.mods@, account, message, delay, asked, mid, scores);
        assert(mid.keeps(done));
        during.law_keeps_on(mid, done);
    }
}

impl<D: ModTrait<Aparte<D, C>>, C: Cipher<Aparte<D, C>>> Aparte<D, C> {
    /// A scheme that was set for a conversation is the one that encrypts in it.
    pub proof fn law_added_scheme_encrypts(
        self,
        after: Self,
        account: Account,
        message: Message,
        engine: CryptoEngine<C>,
    )
        requires
            message.recipient() is Some,
            self.shared.engine_added(
                after.shared,
                conversation_id(account, message.recipient()->0),
                engine,
            ),
        ensures
            after.encrypts_for(account, message),
            after.shared.crypto_engines@[conversation_id(account, message.recipient()->0)]
                == engine,
    {
    }

    /// A message that the user sends is shown, once, whatever becomes of it.
    pub proof fn law_sent_message_is_shown(self, after: Self, account: Account, message: Message)
        requires
            self.submitted(after, account, message),
        ensures
            after.shared.events@ == self.shared.events@.push(
                Event::Message(Some(account), message),
            ),
    {
    }

    /// A message whose conversation has a scheme is never sent in the clear: what is sent is what
    /// the scheme gave, and where it failed, nothing is.
    pub proof fn law_never_in_the_clear(self, after: Self, account: Account, message: Message)
        requires
            self.submitted(after, account, message),
            self.encrypts_for(account, message),
        ensures
            ({
                let id = conversation_id(account, message.recipient()->0);
                exists|during: Self, encryption: Result<Element, String>|
                    {
                        &&& #[trigger] self.shared.crypto_engines@[id].cipher.encrypts(
                            during,
                            account,
                            message,
                            after.shared.crypto_engines@[id].cipher,
                            encryption,
                        )
                        &&& match encryption {
                            Ok(stanza) => after.shared.stanzas@ == self.shared.stanzas@.push(
                                (account, Outgoing::Element(stanza)),
                            ),
                            Err(_) => after.shared.stanzas@ == self.shared.stanzas@,
                        }
                    }
            }),
    {
        let id = conversation_id(account, message.recipient()->0);
        let (shown, mid, encryption) = choose|
            shown: Self,
            mid: Self,
            encryption: Option<Result<Element, String>>,
        |
            {
                &&& self.only_shared(shown)
                &&& self.shared.scheduled(shown.shared, Event::Message(Some(account), message))
                &&& #[trigger] shown.encrypted(mid, account, message, encryption)
                &&& mid.sent(after, account, message, encryption)
            };
        assert(shown.encrypts_for(account, message));
        let during = choose|during: Self| #[trigger]
            shown.lent(during, id) && shown.shared.crypto_engines@[id].cipher.encrypts(
                during,
                account,
                message,
                mid.shared.crypto_engines@[id].cipher,
                encryption->0,
            );
        assert(self.shared.crypto_engines@[id].cipher.encrypts(
            during,
            account,
            message,
            after.shared.crypto_engines@[id].cipher,
            encryption->0,
        ));
    }

    /// A message whose conversation has no scheme is sent as it is, and a line of the log is not
    /// sent.
    pub proof fn law_sent_as_it_is(self, after: Self, account: Account, message: Message)
        requires
            self.submitted(after, account, message),
            !self.encrypts_for(account, message),
        ensures
            match message {
                Message::Xmpp { element, recipient } => after.shared.stanzas@
                    == self.shared.stanzas@.push((account, Outgoing::Element(element))),
                Message::Log(_) => after.shared.stanzas@ == self.shared.stanzas@,
            },
    {
        let (shown, mid, encryption) = choose|
            shown: Self,
            mid: Self,
            encryption: Option<Result<Element, String>>,
        |
            {
                &&& self.only_shared(shown)
                &&& self.shared.scheduled(shown.shared, Event::Message(Some(account), message))
                &&& #[trigger] shown.encrypted(mid, account, message, encryption)
                &&& mid.sent(after, account, message, encryption)
            };
        assert(!shown.encrypts_for(account, message));
    }

    /// A message from a conversation without a scheme, or not encrypted with it, is read as it
    /// came.
    pub proof fn law_foreign_encryption_is_left(
        self,
        after: Self,
        account: Account,
        message: XmppMessage,
        clear: XmppMessage,
    )
        requires
            self.decrypted(after, account, message, clear),
            ({
                let id = sender_id(account, message.from->0@);
                ||| message.from is None
                ||| !self.shared.crypto_engines@.contains_key(id)
                ||| encryption_of(payloads_view(message.payloads@)) != Some(
                    self.shared.crypto_engines@[id].namespace@,
                )
            }),
        ensures
            clear == message,
            after == self,
    {
    }

    /// Encrypting and decrypting leave every conversation its scheme.
    pub proof fn law_schemes_stay(
        self,
        after: Self,
        account: Account,
        message: Message,
        encryption: Option<Result<Element, String>>,
        received: XmppMessage,
        clear: XmppMessage,
        id: Seq<Seq<char>>,
    )
        requires
            self.encrypted(after, account, message, encryption) || self.decrypted(
                after,
                account,
                received,
                clear,
            ),
        ensures
            after.shared.crypto_engines@.dom() == self.shared.crypto_engines@.dom(),
            self.shared.crypto_engines@.contains_key(id)
                ==> after.shared.crypto_engines@[id].namespace
                == self.shared.crypto_engines@[id].namespace,
    {
        assert(after.shared.crypto_engines@.dom() =~= self.shared.crypto_engines@.dom());
    }

    /// Without modules an event is noticed by nobody, and a message goes to nobody.
    pub proof fn law_no_modules_no_effect(
        self,
        after: Self,
        event: Event,
        account: Account,
        message: XmppMessage,
        delay: Option<Delay>,
        archive: bool,
    )
        requires
            self.mods@.len() == 0,
            !self.mods_at_work,
            self.noticed(event, after) || self.routed(account, message, delay, archive, after),
        ensures
            after.mods@.len() == 0,
            after == (Aparte { mods: after.mods, ..self }),
    {
    }
}

impl<D: Disco<Aparte<D, C>>, C: Cipher<Aparte<D, C>>> Aparte<D, C> {
    /// An event to end the client ends it, unless a module is at work, and no other event does.
    pub proof fn law_quit_alone_ends(self, event: Event, after: Self, halt: Option<Halt>)
        requires
            self.handled(event, after, halt),
        ensures
            halt == Some(Halt::Quit) ==> event is Quit,
            event is Quit ==> halt is Some,
            event is Quit && !self.mods_at_work ==> halt == Some(Halt::Quit),
            event.is_priority() && !self.mods_at_work ==> halt != Some(Halt::Unmet),
    {
    }

    /// An event that was handled leaves no module at work.
    pub proof fn law_handled_at_rest(self, event: Event, after: Self, halt: Option<Halt>)
        requires
            self.handled(event, after, halt),
            !self.mods_at_work,
        ensures
            !after.mods_at_work,
    {
        let mid = choose|mid: Self|
            {
                &&& #[trigger] self.noticed(event, mid)
                &&& if mid.can_handle(event) {
                    &&& mid.dispatched(event, after)
                    &&& halt == if event is Quit {
                        Some(Halt::Quit)
                    } else {
                        None
                    }
                } else {
                    after == mid && halt == Some(Halt::Unmet)
                }
            };
        if mid.can_handle(event) && event is Start {
            mid.lemma_start_at_rest(after, mid.config.accounts.entries());
        }
    }

    /// Events that were handled leave no module at work.
    pub proof fn law_ran_at_rest(self, events: Seq<Event>, after: Self)
        requires
            self.ran(events, after),
            !self.mods_at_work,
        ensures
            !after.mods_at_work,
        decreases events.len(),
    {
        if events.len() > 0 {
            let mid = choose|mid: Self|
                self.ran(events.drop_last(), mid) && #[trigger] mid.handled(
                    events.last(),
                    after,
                    None,
                );
            self.law_ran_at_rest(events.drop_last(), mid);
            mid.law_handled_at_rest(events.last(), after, None);
        }
    }

    /// What the client does with an event takes no connection away, and leaves the current account
    /// connected.
    pub proof fn law_dispatch_keeps(self, event: Event, after: Self)
        requires
            self.dispatched(event, after),
        ensures
            self.keeps(after),
    {
        match event {
            Event::Start => {
                self.law_start_keeps(after, self.config.accounts.entries());
            },
            Event::Connect(info, password) => {
                self.law_connect_keeps(after, info, password);
            },
            Event::Stanza(account, stanza) => {
                if xml_name(stanza@) == Some("message"@) {
                    reveal_strlit("iq");
                    reveal_strlit("presence");
                    reveal_strlit("message");
                    assert("message"@.len() != "iq"@.len() && "message"@.len()
                        != "presence"@.len());
                    let parsed = choose|parsed: Result<(Option<Jid>, Vec<Payload>), String>|
                        message_result_view(parsed) == message_seen(stanza@)
                            && #[trigger] self.message_received(after, account, stanza, parsed);
                    if let Ok((from, payloads)) = parsed {
                        let message = XmppMessage { from, payloads, element: stanza };
                        self.lemma_message_keeps(after, account, message, None, false);
                    }
                }
            },
            Event::RawMessage { account, message, delay, archive } => {
                self.lemma_message_keeps(after, account, message, delay, archive);
            },
            _ => {},
        }
    }

    /// Taking a message in keeps the connections.
    proof fn lemma_message_keeps(
        self,
        after: Self,
        account: Account,
        message: XmppMessage,
        delay: Option<Delay>,
        archive: bool,
    )
        requires
            self.message_handled(after, account, message, delay, archive),
        ensures
            self.keeps(after),
    {
        let (mid, clear) = choose|mid: Self, clear: XmppMessage| #[trigger]
            self.decrypted(mid, account, message, clear) && mid.routed(
                account,
                clear,
                delay,
                archive,
                after,
            );
        mid.law_routing_keeps(account, clear, delay, archive, after);
        assert(self.keeps(mid));
        self.law_keeps_on(mid, after);
    }

    /// No event takes a connection away or parts the current account from its own, and where there
    /// was a current account, there still is one.
    pub proof fn law_event_keeps(self, event: Event, after: Self, halt: Option<Halt>)
        requires
            self.handled(event, after, halt),
        ensures
            self.keeps(after),
    {
        if !self.mods_at_work {
            let mid = choose|mid: Self|
                {
                    &&& #[trigger] self.noticed(event, mid)
                    &&& if mid.can_handle(event) {
                        &&& mid.dispatched(event, after)
                        &&& halt == if event is Quit {
                            Some(Halt::Quit)
                        } else {
                            None
                        }
                    } else {
                        after == mid && halt == Some(Halt::Unmet)
                    }
                };
            self.law_notice_keeps(event, mid);
            if mid.can_handle(event) {
                mid.law_dispatch_keeps(event, after);
                self.law_keeps_on(mid, after);
            }
        }
    }

    /// No sequence of events takes a connection away or parts the current account from its own, and
    /// where there was a current account, there still is one.
    pub proof fn law_run_keeps(self, events: Seq<Event>, after: Self)
        requires
            self.ran(events, after),
        ensures
            self.keeps(after),
        decreases events.len(),
    {
        if events.len() > 0 {
            let mid = choose|mid: Self|
                self.ran(events.drop_last(), mid) && #[trigger] mid.handled(
                    events.last(),
                    after,
                    None,
                );
            self.law_run_keeps(events.drop_last(), mid);
            mid.law_event_keeps(events.last(), after, None);
            self.law_keeps_on(mid, after);
        }
    }

    /// Nor does a sequence of events that one ends.
    pub proof fn law_halt_keeps(self, events: Seq<Event>, k: int, after: Self, halt: Halt)
        requires
            self.halted(events, k, after, halt),
        ensures
            self.keeps(after),
    {
        let mid = choose|mid: Self|
            self.ran(events.take(k), mid) && #[trigger] mid.handled(events[k], after, Some(halt));
        self.law_run_keeps(events.take(k), mid);
        mid.law_event_keeps(events[k], after, Some(halt));
        self.law_keeps_on(mid, after);
    }

    /// Handling events that came together takes no connection away, and leaves the current account
    /// connected.
    pub proof fn law_batch_keeps(
        self,
        events: Seq<Event>,
        last: Seq<Event>,
        after: Self,
        rest: Seq<Event>,
        halt: Option<Halt>,
    )
        requires
            self.batch_handled(events, last, after, rest, halt) || self.batch_handled_async(
                events,
                last,
                after,
                rest,
                halt,
            ),
        ensures
            self.keeps(after),
    {
        let priority = priority_of(events);
        let waiting = last + ordinary_of(events);
        if self.batch_handled(events, last, after, rest, halt) {
            match halt {
                None => {
                    self.law_run_keeps(priority + waiting, after);
                },
                Some(why) => {
                    let k = choose|k: int| #[trigger]
                        self.halted(priority + waiting, k, after, why);
                    self.law_halt_keeps(priority + waiting, k, after, why);
                },
            }
        } else {
            match halt {
                None => {
                    let (mid, dropped) = choose|mid: Self, dropped: Seq<Event>| #[trigger]
                        self.walked(priority, mid, dropped) && mid.walked(waiting, after, rest);
                    self.lemma_walk_keeps(priority, mid, dropped);
                    mid.lemma_walk_keeps(waiting, after, rest);
                    self.law_keeps_on(mid, after);
                },
                Some(why) => {
                    if exists|k: int| #[trigger] self.halted(priority, k, after, why) {
                        let k = choose|k: int| #[trigger] self.halted(priority, k, after, why);
                        self.law_halt_keeps(priority, k, after, why);
                    } else {
                        let (mid, dropped, k) = choose|mid: Self, dropped: Seq<Event>, k: int|
                            {
                                &&& #[trigger] self.walked(priority, mid, dropped)
                                &&& #[trigger] mid.halted(waiting, k, after, why)
                                &&& rest == waiting.skip(k + 1)
                            };
                        self.lemma_walk_keeps(priority, mid, dropped);
                        mid.law_halt_keeps(waiting, k, after, why);
                        self.law_keeps_on(mid, after);
                    }
                },
            }
        }
    }

    /// Handling events until one ends it keeps the connections.
    proof fn lemma_walk_keeps(self, events: Seq<Event>, after: Self, rest: Seq<Event>)
        requires
            self.walked(events, after, rest),
        ensures
            self.keeps(after),
    {
        if rest.len() == 0 && self.ran(events, after) {
            self.law_run_keeps(events, after);
        } else {
            let k = choose|k: int| #[trigger]
                self.halted(events, k, after, Halt::Quit) && rest == events.skip(k + 1);
            self.law_halt_keeps(events, k, after, Halt::Quit);
        }
    }

    /// Where the handling of events did not end, each of them was handled and none was to end it.
    pub proof fn law_ran_without_quit(self, events: Seq<Event>, after: Self, i: int)
        requires
            self.ran(events, after),
            0 <= i < events.len(),
        ensures
            !(events[i] is Quit),
        decreases events.len(),
    {
        let mid = choose|mid: Self|
            self.ran(events.drop_last(), mid) && #[trigger] mid.handled(events.last(), after, None);
        if i == events.len() - 1 {
            mid.law_quit_alone_ends(events.last(), after, None);
        } else {
            self.law_ran_without_quit(events.drop_last(), mid, i);
            assert(events.drop_last()[i] == events[i]);
        }
    }

    /// Where an event to end the client is among those that came, the client ends before it handles
    /// any that waits: those are all left.
    pub proof fn law_quit_goes_first(
        self,
        events: Seq<Event>,
        last: Seq<Event>,
        after: Self,
        rest: Seq<Event>,
        halt: Option<Halt>,
    )
        requires
            !self.mods_at_work,
            self.batch_handled(events, last, after, rest, halt),
            events.contains(Event::Quit),
        ensures
            halt == Some(Halt::Quit),
            rest == last + ordinary_of(events),
    {
        let priority = priority_of(events);
        let waiting = last + ordinary_of(events);
        let all = priority + waiting;
        law_split_by_priority(events, Event::Quit);
        let q = priority.index_of(Event::Quit);
        assert(all[q] is Quit);
        match halt {
            None => {
                self.law_ran_without_quit(all, after, q);
            },
            Some(why) => {
                let k = choose|k: int|
                    {
                        &&& #[trigger] self.halted(all, k, after, why)
                        &&& rest == if k < priority.len() {
                            waiting
                        } else {
                            waiting.skip(k - priority.len() + 1)
                        }
                    };
                let mid = choose|mid: Self|
                    self.ran(all.take(k), mid) && #[trigger] mid.handled(all[k], after, Some(why));
                if q < k {
                    self.law_ran_without_quit(all.take(k), mid, q);
                    assert(all.take(k)[q] == all[q]);
                }
                self.law_ran_at_rest(all.take(k), mid);
                assert(priority.contains(all[k]));
                law_split_by_priority(events, all[k]);
                mid.law_quit_alone_ends(all[k], after, Some(why));
            },
        }
    }

    /// Events among which none is to end the client do not end it.
    pub proof fn law_goes_on_without_quit(
        self,
        events: Seq<Event>,
        last: Seq<Event>,
        after: Self,
        rest: Seq<Event>,
        halt: Option<Halt>,
    )
        requires
            self.batch_handled(events, last, after, rest, halt),
            !events.contains(Event::Quit),
            !last.contains(Event::Quit),
        ensures
            halt != Some(Halt::Quit),
    {
        let priority = priority_of(events);
        let waiting = last + ordinary_of(events);
        let all = priority + waiting;
        if halt == Some(Halt::Quit) {
            let k = choose|k: int| #[trigger] self.halted(all, k, after, Halt::Quit);
            let mid = choose|mid: Self|
                self.ran(all.take(k), mid) && #[trigger] mid.handled(
                    all[k],
                    after,
                    Some(Halt::Quit),
                );
            mid.law_quit_alone_ends(all[k], after, Some(Halt::Quit));
            assert(all[k] == Event::Quit);
            law_split_by_priority(events, Event::Quit);
            if k < priority.len() {
                assert(priority[k] == Event::Quit);
            } else if k < priority.len() + last.len() {
                assert(last[k - priority.len()] == Event::Quit);
            } else {
                assert(ordinary_of(events)[k - priority.len() - last.len()] == Event::Quit);
            }
        }
    }

    /// A client that no event ends handles all that wait, even where an event to end it came: none
    /// is left, unless something was missing for one.
    pub proof fn law_unending_client_leaves_nothing(
        self,
        events: Seq<Event>,
        last: Seq<Event>,
        after: Self,
        rest: Seq<Event>,
    )
        requires
            self.batch_handled_async(events, last, after, rest, None),
            !last.contains(Event::Quit),
        ensures
            rest.len() == 0,
    {
        let priority = priority_of(events);
        let waiting = last + ordinary_of(events);
        let (mid, dropped) = choose|mid: Self, dropped: Seq<Event>| #[trigger]
            self.walked(priority, mid, dropped) && mid.walked(waiting, after, rest);
        if rest.len() != 0 {
            let k = choose|k: int| #[trigger]
                mid.halted(waiting, k, after, Halt::Quit) && rest == waiting.skip(k + 1);
            let before = choose|before: Self|
                mid.ran(waiting.take(k), before) && #[trigger] before.handled(
                    waiting[k],
                    after,
                    Some(Halt::Quit),
                );
            before.law_quit_alone_ends(waiting[k], after, Some(Halt::Quit));
            assert(waiting[k] == Event::Quit);
            law_split_by_priority(events, Event::Quit);
            if k < last.len() {
                assert(last[k] == Event::Quit);
            } else {
                assert(ordinary_of(events)[k - last.len()] == Event::Quit);
            }
        }
    }
}

} // verus!
