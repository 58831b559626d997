//! The client at work: what becomes of the events, one after the other.
use crate::account::Account;
use crate::aparte::Aparte;
use crate::crypto::Cipher;
use crate::disco::DiscoInfoView;
use crate::dispatch::{find_join_target, join_target};
use crate::event::{ordinary_of, priority_of, split_priority, Event};
use crate::mods::{Disco, Keeps};
use crate::shared::{announces, log_added, presence_added, Shared};
use crate::presence::{Outgoing, PresenceView};
use std::collections::VecDeque;
use vstd::prelude::*;

verus! {

/// Why the handling of events ends.
#[derive(Debug, Clone, Copy, PartialEq, Eq, Structural)]
pub enum Halt {
    /// The user wants it.
    Quit,
    /// Something is missing that the event needs.
    Unmet,
}

/// Why the handling ended, where it did.
pub open spec fn halt_of(r: Result<(), Halt>) -> Option<Halt> {
    match r {
        Ok(_) => None,
        Err(halt) => Some(halt),
    }
}

/// What comes for the client.
pub enum Wake {
    /// Events that came together; none where no more can come.
    Events(Vec<Event>),
    /// A stanza that is to be sent; none where no more can come.
    Stanza(Option<(Account, Outgoing)>),
}

/// How the client goes on.
#[derive(Debug, Clone, Copy, PartialEq, Eq, Structural)]
pub enum Step {
    /// It waits for what comes next.
    Next,
    /// It ends.
    Stop,
    /// Something is missing that an event needs, or a stanza cannot be written.
    Unmet,
}

/// What ended the handling of some events, by how the client goes on.
pub open spec fn halt_before(step: Step) -> Option<Halt> {
    match step {
        Step::Next => None,
        Step::Stop => Some(Halt::Quit),
        Step::Unmet => Some(Halt::Unmet),
    }
}

impl<D: Disco<Aparte<D, C>>, C: Cipher<Aparte<D, C>>> Aparte<D, C> {
    /// What becomes of the news that an account is connected.
    pub open spec fn welcomed(self, after: Self, account: Account) -> bool {
        &&& after == (Aparte {
            shared: Shared {
                events: after.shared.events,
                stanzas: after.shared.stanzas,
                ..self.shared
            },
            ..self
        })
        &&& log_added(
            self.shared.events@,
            after.shared.events@,
            None,
            "Connected as "@ + account@.text(),
        )
        &&& exists|info: DiscoInfoView, presence: PresenceView|
            {
                &&& self.mods@[0].disco().tells(info)
                &&& #[trigger] announces(info, presence)
                &&& presence_added(
                    self.shared.stanzas@,
                    after.shared.stanzas@,
                    account,
                    presence,
                )
            }
    }

    /// What the client itself does with an event.
    pub open spec fn dispatched(self, event: Event, after: Self) -> bool {
        match event {
            Event::Start => self.started(after, self.config.accounts.entries()),
            Event::SendMessage(account, message) => self.submitted(after, account, message),
            Event::Connect(info, password) => self.connected(after, info, password),
            Event::Connected(account, _) => self.welcomed(after, account),
            Event::Disconnected(account, err) => {
                &&& self.only_shared(after)
                &&& self.shared.logged(
                    after.shared,
                    None,
                    "Connection lost for "@ + account@.text() + ": "@ + err@,
                )
            },
            Event::AuthError(account, err) => {
                &&& self.only_shared(after)
                &&& self.shared.logged(
                    after.shared,
                    None,
                    "Authentication error for "@ + account@.text() + ": "@ + err@,
                )
            },
            Event::Stanza(account, stanza) => self.stanza_handled(after, account, stanza),
            Event::RawMessage { account, message, delay, archive } => self.message_handled(
                after,
                account,
                message,
                delay,
                archive,
            ),
            Event::Join { account, channel, user_request } => {
                &&& join_target(account, channel) is Some
                &&& self.joined(
                    after,
                    account,
                    channel,
                    join_target(account, channel)->0,
                    user_request,
                )
            },
            _ => after == self,
        }
    }

    /// What becomes of an event, and whether the handling ends: the modules take notice of it, then
    /// the client handles it, unless something is missing that it needs. While a module is at work
    /// nothing is handled.
    pub open spec fn handled(self, event: Event, after: Self, halt: Option<Halt>) -> bool {
        if self.mods_at_work {
            after == self && halt == Some(Halt::Unmet)
        } else {
            self.noticed_and_handled(event, after, halt)
        }
    }

    /// What becomes of an event where no module is at work.
    pub open spec fn noticed_and_handled(
        self,
        event: Event,
        after: Self,
        halt: Option<Halt>,
    ) -> bool {
        exists|mid: Self|
            {
                &&& #[trigger] self.noticed(event, mid)
                &&& if mid.can_handle(event) {
                    &&& mid.dispatched(event, after)
                    &&& halt == if event is Quit {
                        Some(Halt::Quit)
                    } else {
                        None
                    }
                } else {
                    after == mid && halt == Some(Halt::Unmet)
                }
            }
    }

    /// Handles an event, given that nothing is missing that it needs. The result is an error just
    /// where the event ends the client.
    pub fn dispatch_event(&mut self, event: Event) -> (r: Result<(), ()>)
        requires
            old(self).can_handle(event),
        ensures
            old(self).dispatched(event, *final(self)),
            r is Err <==> event is Quit,
            !(event is SendMessage || event is Connected || event is Join || event is Stanza
                || event is RawMessage) ==> final(self).shared.stanzas == old(self).shared.stanzas,
            old(self).keeps(*final(self)),
    {
        let ghost before = *self;
        let r = self.dispatch_one(event);
        proof {
            before.law_dispatch_keeps(event, *self);
            if !(event is SendMessage || event is Connected || event is Join || event is Stanza
                || event is RawMessage) {
                before.law_only_three_events_send(event, *self);
            }
        }
        r
    }

    /// Handles an event, given that nothing is missing that it needs.
    fn dispatch_one(&mut self, event: Event) -> (r: Result<(), ()>)
        requires
            old(self).can_handle(event),
        ensures
            old(self).dispatched(event, *final(self)),
            r is Err <==> event is Quit,
    {
        match event {
            Event::Start => {
                self.start();
            },
            Event::SendMessage(account, message) => {
                self.schedule(Event::Message(Some(account.clone()), message.clone()));
                let ghost shown = *self;
                let encryption = self.encrypt(&account, &message);
                assert(shown.encrypted(*self, account, message, encryption));
                self.finish_send(&account, message, encryption);
            },
            Event::Connect(info, password) => {
                self.connect(&info, password);
            },
            Event::Connected(account, _) => {
                self.log("Connected as ".to_owned().concat(account.to_string().as_str()));
                let info = self.get_mod().get_disco();
                self.shared.announce(&account, &info);
            },
            Event::Disconnected(account, err) => {
                let start = "Connection lost for ".to_owned().concat(account.to_string().as_str());
                self.log(start.concat(": ").concat(err.as_str()));
            },
            Event::AuthError(account, err) => {
                let start = "Authentication error for ".to_owned().concat(
                    account.to_string().as_str(),
                );
                self.log(start.concat(": ").concat(err.as_str()));
            },
            Event::Stanza(account, stanza) => {
                self.handle_stanza(account, stanza);
            },
            Event::RawMessage { account, message, delay, archive } => {
                self.handle_xmpp_message(account, message, delay, archive);
            },
            Event::Join { account, channel, user_request } => {
                if let Some(target) = find_join_target(&account, &channel) {
                    self.join_as(account, &channel, target, user_request);
                }
            },
            Event::Quit => {
                return Err(());
            },
            _ => {},
        }
        Ok(())
    }

    /// Handles an event: the modules take notice of it, then the client handles it.
    pub fn handle_event(&mut self, event: Event) -> (r: Result<(), Halt>)
        ensures
            old(self).handled(event, *final(self), halt_of(r)),
            !old(self).mods_at_work ==> exists|seen: Seq<Self>, mid: Self|
                {
                    &&& #[trigger] seen.len() == old(self).mods@.len() + 1
                    &&& seen[0].mods@.len() == 0
                    &&& seen[0] == (Aparte { mods: seen[0].mods, mods_at_work: true, ..*old(self) })
                    &&& forall|i: int|
                        0 <= i < old(self).mods@.len() ==> (
                        #[trigger] old(self).mods@[i])->Disco_0.reacts(
                            seen[i],
                            event,
                            mid.mods@[i]->Disco_0,
                            seen[i + 1],
                        )
                    &&& mid.mods@.len() == old(self).mods@.len()
                    &&& mid == (Aparte { mods: mid.mods, mods_at_work: false, ..seen.last() })
                    &&& if #[trigger] mid.can_handle(event) {
                        mid.dispatched(event, *final(self))
                    } else {
                        *final(self) == mid
                    }
                },
            final(self).connections.current_is_connected(),
            old(self).keeps(*final(self)),
    {
        let ghost before = *self;
        let r = self.handle_one(event);
        proof {
            use_type_invariant(&self.connections);
            before.law_event_keeps(event, *self, halt_of(r));
            if !before.mods_at_work {
                before.law_each_module_notices_each_event(event, *self, halt_of(r));
            }
        }
        r
    }

    /// Handles an event.
    fn handle_one(&mut self, event: Event) -> (r: Result<(), Halt>)
        ensures
            old(self).handled(event, *final(self), halt_of(r)),
    {
        if self.mods_at_work {
            return Err(Halt::Unmet);
        }
        self.notify(&event);
        if !self.check_event(&event) {
            return Err(Halt::Unmet);
        }
        match self.dispatch_event(event) {
            Ok(_) => Ok(()),
            Err(_) => Err(Halt::Quit),
        }
    }

    /// Whether the events were handled, one after the other, and none ended it.
    pub open spec fn ran(self, events: Seq<Event>, after: Self) -> bool
        decreases events.len(),
    {
        if events.len() == 0 {
            after == self
        } else {
            exists|mid: Self|
                self.ran(events.drop_last(), mid) && #[trigger] mid.handled(
                    events.last(),
                    after,
                    None,
                )
        }
    }

    /// Whether the events before one were handled, one after the other, and that one ended it.
    pub open spec fn halted(self, events: Seq<Event>, k: int, after: Self, halt: Halt) -> bool {
        &&& 0 <= k < events.len()
        &&& exists|mid: Self|
            self.ran(events.take(k), mid) && #[trigger] mid.handled(events[k], after, Some(halt))
    }

    /// Handles the events that wait, until none is left or one ends it.
    pub fn handle_waiting(&mut self, waiting: &mut VecDeque<Event>) -> (r: Result<(), Halt>)
        ensures
            match r {
                Ok(_) => final(waiting)@.len() == 0 && old(self).ran(old(waiting)@, *final(self)),
                Err(halt) => exists|k: int| #[trigger]
                    old(self).halted(old(waiting)@, k, *final(self), halt) && final(waiting)@
                        == old(waiting)@.skip(k + 1),
            },
            old(self).keeps(*final(self)),
    {
        let ghost all = waiting@;
        let ghost mut done: int = 0;
        assert(all.skip(0) =~= all && all.take(0).len() == 0);
        while waiting.len() > 0
            invariant
                all == old(waiting)@,
                0 <= done <= all.len(),
                waiting@ == all.skip(done),
                old(self).ran(all.take(done), *self),
                old(self).keeps(*self),
            decreases waiting@.len(),
        {
            let ghost before = *self;
            match waiting.pop_front() {
                Some(event) => {
                    assert(event == all[done]);
                    assert(waiting@ =~= all.skip(done + 1));
                    match self.handle_event(event) {
                        Ok(_) => {
                            proof {
                                let now = all.take(done + 1);
                                assert(now.drop_last() =~= all.take(done));
                                assert(before.handled(now.last(), *self, None));
                                assert(old(self).ran(now, *self));
                                done = done + 1;
                            }
                        },
                        Err(halt) => {
                            assert(before.handled(all[done], *self, Some(halt)));
                            assert(old(self).halted(all, done, *self, halt));
                            return Err(halt);
                        },
                    }
                },
                None => {},
            }
        }
        assert(all.take(done) =~= all);
        Ok(())
    }

    /// Events that are handled after others are handled with them.
    pub proof fn lemma_ran_after(self, first: Seq<Event>, mid: Self, next: Seq<Event>, after: Self)
        requires
            self.ran(first, mid),
            mid.ran(next, after),
        ensures
            self.ran(first + next, after),
        decreases next.len(),
    {
        if next.len() == 0 {
            assert(first + next =~= first);
        } else {
            let all = first + next;
            let before = choose|before: Self|
                mid.ran(next.drop_last(), before) && #[trigger] before.handled(
                    next.last(),
                    after,
                    None,
                );
            self.lemma_ran_after(first, mid, next.drop_last(), before);
            assert(all.drop_last() =~= first + next.drop_last());
            assert(before.handled(all.last(), after, None));
        }
    }

    /// What becomes of events that came together, with those that still wait: the ones that go
    /// before others are handled first, then those that wait, and all of them unless one ends it.
    /// Of those that wait, the ones behind it are left.
    pub open spec fn batch_handled(
        self,
        events: Seq<Event>,
        last: Seq<Event>,
        after: Self,
        rest: Seq<Event>,
        halt: Option<Halt>,
    ) -> bool {
        let priority = priority_of(events);
        let waiting = last + ordinary_of(events);
        match halt {
            None => rest.len() == 0 && self.ran(priority + waiting, after),
            Some(halt) => exists|k: int|
                {
                    &&& #[trigger] self.halted(priority + waiting, k, after, halt)
                    &&& rest == if k < priority.len() {
                        waiting
                    } else {
                        waiting.skip(k - priority.len() + 1)
                    }
                },
        }
    }

    /// Handles events that came together, with those that still wait: the ones that go before
    /// others first, then those that wait. The first that ends the handling ends it for good; those
    /// behind it are not handled.
    pub fn handle_batch(&mut self, events: Vec<Event>, last_events: &mut VecDeque<Event>) -> (r:
        Result<(), Halt>)
        ensures
            old(self).batch_handled(
                events@,
                old(last_events)@,
                *final(self),
                final(last_events)@,
                halt_of(r),
            ),
            old(self).keeps(*final(self)),
    {
        let ghost priority = priority_of(events@);
        let ghost waiting = last_events@ + ordinary_of(events@);
        let ghost all = priority + waiting;
        let (mut first, mut ordinary) = split_priority(events);
        last_events.append(&mut ordinary);
        assert(last_events@ =~= waiting);
        match self.handle_waiting(&mut first) {
            Ok(_) => {},
            Err(halt) => {
                proof {
                    let k = choose|k: int| #[trigger]
                        old(self).halted(priority, k, *self, halt) && first@ == priority.skip(
                            k + 1,
                        );
                    assert(all.take(k) =~= priority.take(k) && all[k] == priority[k]);
                    assert(old(self).halted(all, k, *self, halt));
                }
                return Err(halt);
            },
        }
        let ghost mid = *self;
        match self.handle_waiting(last_events) {
            Ok(_) => {
                proof {
                    old(self).lemma_ran_after(priority, mid, waiting, *self);
                }
                Ok(())
            },
            Err(halt) => {
                proof {
                    let k = choose|k: int| #[trigger]
                        mid.halted(waiting, k, *self, halt) && last_events@ == waiting.skip(k + 1);
                    old(self).lemma_halted_after(priority, mid, waiting, k, *self, halt);
                }
                Err(halt)
            },
        }
    }

    /// Events that are handled after others, up to one that ends it, are handled with them up to
    /// that one.
    pub proof fn lemma_halted_after(
        self,
        first: Seq<Event>,
        mid: Self,
        next: Seq<Event>,
        k: int,
        after: Self,
        halt: Halt,
    )
        requires
            self.ran(first, mid),
            mid.halted(next, k, after, halt),
        ensures
            self.halted(first + next, first.len() + k, after, halt),
    {
        let before = choose|before: Self|
            mid.ran(next.take(k), before) && #[trigger] before.handled(next[k], after, Some(halt));
        self.lemma_ran_after(first, mid, next.take(k), before);
        assert((first + next).take(first.len() + k) =~= first + next.take(k));
        assert(before.handled((first + next)[first.len() + k], after, Some(halt)));
    }

    /// Whether the events were handled, one after the other, until none was left or one ended the
    /// client, and these are left behind.
    pub open spec fn walked(self, events: Seq<Event>, after: Self, rest: Seq<Event>) -> bool {
        ||| rest.len() == 0 && self.ran(events, after)
        ||| exists|k: int| #[trigger]
            self.halted(events, k, after, Halt::Quit) && rest == events.skip(k + 1)
    }

    /// What becomes of events that came together, with those that still wait, where the client does
    /// not end: an event to end it drops the others that go before others, and those that wait are
    /// handled all the same.
    pub open spec fn batch_handled_async(
        self,
        events: Seq<Event>,
        last: Seq<Event>,
        after: Self,
        rest: Seq<Event>,
        halt: Option<Halt>,
    ) -> bool {
        let priority = priority_of(events);
        let waiting = last + ordinary_of(events);
        match halt {
            None => exists|mid: Self, dropped: Seq<Event>| #[trigger]
                self.walked(priority, mid, dropped) && mid.walked(waiting, after, rest),
            Some(halt) => {
                &&& halt == Halt::Unmet
                &&& {
                    ||| rest == waiting && exists|k: int| #[trigger]
                        self.halted(priority, k, after, halt)
                    ||| exists|mid: Self, dropped: Seq<Event>, k: int|
                        {
                            &&& #[trigger] self.walked(priority, mid, dropped)
                            &&& #[trigger] mid.halted(waiting, k, after, halt)
                            &&& rest == waiting.skip(k + 1)
                        }
                }
            },
        }
    }

    /// Handles events that came together, with those that still wait, for a client that does not
    /// end. An event to end it only drops the others that go before others; those that wait are
    /// handled all the same. What is missing for an event still ends the handling.
    pub fn handle_batch_async(
        &mut self,
        events: Vec<Event>,
        last_events: &mut VecDeque<Event>,
    ) -> (r: Result<(), Halt>)
        ensures
            old(self).batch_handled_async(
                events@,
                old(last_events)@,
                *final(self),
                final(last_events)@,
                halt_of(r),
            ),
            old(self).keeps(*final(self)),
    {
        let ghost priority = priority_of(events@);
        let ghost waiting = last_events@ + ordinary_of(events@);
        let (mut first, mut ordinary) = split_priority(events);
        last_events.append(&mut ordinary);
        assert(last_events@ =~= waiting);
        match self.handle_waiting(&mut first) {
            Ok(_) => {},
            Err(Halt::Quit) => {},
            Err(Halt::Unmet) => {
                return Err(Halt::Unmet);
            },
        }
        let ghost mid = *self;
        assert(old(self).walked(priority, mid, first@));
        match self.handle_waiting(last_events) {
            Ok(_) => Ok(()),
            Err(Halt::Quit) => Ok(()),
            Err(Halt::Unmet) => Err(Halt::Unmet),
        }
    }

    /// What becomes of a stanza that is to be sent: it is handed to its connection, where it can be
    /// written.
    pub open spec fn stanza_taken(
        self,
        after: Self,
        account: Account,
        stanza: Outgoing,
        step: Step,
    ) -> bool {
        if stanza.writable() {
            step == Step::Next && self.outgoing_sent(after, account, stanza)
        } else {
            step == Step::Unmet && after == self
        }
    }

    /// Hands a stanza to its connection, where it can be written.
    fn take_stanza(&mut self, account: Account, stanza: Outgoing) -> (r: Step)
        ensures
            old(self).stanza_taken(*final(self), account, stanza, r),
            old(self).keeps(*final(self)),
    {
        match stanza.to_element() {
            Ok(written) => {
                self.send_stanza(account, Outgoing::Element(written));
                assert(old(self).stanza_sent(*self, account, written));
                Step::Next
            },
            Err(_) => Step::Unmet,
        }
    }

    /// Lets the client start, once it has handled what was to happen before.
    pub fn begin(&mut self)
        ensures
            old(self).only_shared(*final(self)),
            old(self).shared.scheduled(final(self).shared, Event::Start),
    {
        self.schedule(Event::Start);
    }

    /// Takes in what came for the client: it goes on until an event ends it or no more can come.
    pub fn run_step(&mut self, came: Wake, last_events: &mut VecDeque<Event>) -> (r: Step)
        ensures
            match came {
                Wake::Events(events) => if events@.len() == 0 {
                    &&& r == Step::Stop
                    &&& *final(self) == *old(self)
                    &&& final(last_events)@ == old(last_events)@
                } else {
                    old(self).batch_handled(
                        events@,
                        old(last_events)@,
                        *final(self),
                        final(last_events)@,
                        halt_before(r),
                    )
                },
                Wake::Stanza(Some((account, stanza))) => {
                    &&& old(self).stanza_taken(*final(self), account, stanza, r)
                    &&& final(last_events)@ == old(last_events)@
                },
                Wake::Stanza(None) => {
                    &&& r == Step::Stop
                    &&& *final(self) == *old(self)
                    &&& final(last_events)@ == old(last_events)@
                },
            },
            old(self).keeps(*final(self)),
    {
        match came {
            Wake::Events(events) => {
                if events.len() == 0 {
                    return Step::Stop;
                }
                match self.handle_batch(events, last_events) {
                    Ok(_) => Step::Next,
                    Err(Halt::Quit) => Step::Stop,
                    Err(Halt::Unmet) => Step::Unmet,
                }
            },
            Wake::Stanza(Some((account, stanza))) => self.take_stanza(account, stanza),
            Wake::Stanza(None) => Step::Stop,
        }
    }

    /// Takes in what came for a client that no event ends: it goes on until no more can come.
    pub fn run_async_step(&mut self, came: Wake, last_events: &mut VecDeque<Event>) -> (r: Step)
        ensures
            match came {
                Wake::Events(events) => if events@.len() == 0 {
                    &&& r == Step::Stop
                    &&& *final(self) == *old(self)
                    &&& final(last_events)@ == old(last_events)@
                } else {
                    &&& r != Step::Stop
                    &&& old(self).batch_handled_async(
                        events@,
                        old(last_events)@,
                        *final(self),
                        final(last_events)@,
                        halt_before(r),
                    )
                },
                Wake::Stanza(Some((account, stanza))) => {
                    &&& old(self).stanza_taken(*final(self), account, stanza, r)
                    &&& final(last_events)@ == old(last_events)@
                },
                Wake::Stanza(None) => {
                    &&& r == Step::Stop
                    &&& *final(self) == *old(self)
                    &&& final(last_events)@ == old(last_events)@
                },
            },
            old(self).keeps(*final(self)),
    {
        match came {
            Wake::Events(events) => {
                if events.len() == 0 {
                    return Step::Stop;
                }
                match self.handle_batch_async(events, last_events) {
                    Ok(_) => Step::Next,
                    Err(_) => Step::Unmet,
                }
            },
            Wake::Stanza(Some((account, stanza))) => self.take_stanza(account, stanza),
            Wake::Stanza(None) => Step::Stop,
        }
    }
}

} // verus!
