//! How the client calls on its modules.
use crate::account::Account;
use crate::aparte::Aparte;
use crate::event::{Delay, Event};
use crate::mods::{best_match, is_best, Keeps, Mod, ModTrait};
use crate::stanza::XmppMessage;
use vstd::prelude::*;

verus! {

impl<D, C> Aparte<D, C> {
    /// The client while its modules are at work: they do not see one another.
    pub open spec fn without_mods(self, during: Self) -> bool {
        &&& during.mods@.len() == 0
        &&& during == (Aparte { mods: during.mods, mods_at_work: true, ..self })
    }

    /// The client once its modules are back.
    pub open spec fn with_mods(self, mods: Seq<Mod<D>>, after: Self) -> bool {
        after.mods@ == mods && after == (Aparte { mods: after.mods, mods_at_work: false, ..self })
    }

    /// The module that tells what the client can do.
    pub fn get_mod(&self) -> (r: &D)
        requires
            self.mods@.len() > 0,
        ensures
            *r == self.mods@[0].disco(),
    {
        self.mods[0].as_disco()
    }

    /// The module that tells what the client can do, to change it.
    pub fn get_mod_mut(&mut self) -> (r: &mut D)
        requires
            old(self).mods@.len() > 0,
        ensures
            *r == old(self).mods@[0].disco(),
            final(self).mods@ == old(self).mods@.update(0, Mod::Disco(*final(r))),
            *final(self) == (Aparte { mods: final(self).mods, ..*old(self) }),
    {
        self.mods[0].as_disco_mut()
    }
}

impl<D: ModTrait<Aparte<D, C>>, C> Aparte<D, C> {
    /// Whether the modules, one after the other, were prepared with success.
    pub open spec fn prepared(
        self,
        mods: Seq<Mod<D>>,
        mods_after: Seq<Mod<D>>,
        after: Self,
    ) -> bool
        decreases mods.len(),
    {
        &&& mods.len() == mods_after.len()
        &&& if mods.len() == 0 {
            after == self
        } else {
            exists|mid: Self|
                self.prepared(mods.drop_last(), mods_after.drop_last(), mid)
                    && #[trigger] mods.last().prepares(mid, mods_after.last(), after, true)
                    && mid.keeps(after)
        }
    }

    /// Whether the modules before one were prepared with success, that one was not, and those
    /// behind it were left alone.
    pub open spec fn prepared_up_to(
        self,
        mods: Seq<Mod<D>>,
        mods_after: Seq<Mod<D>>,
        after: Self,
        i: int,
    ) -> bool {
        &&& 0 <= i < mods.len()
        &&& mods_after.len() == mods.len()
        &&& mods_after.skip(i + 1) == mods.skip(i + 1)
        &&& exists|mid: Self|
            self.prepared(mods.take(i), mods_after.take(i), mid) && #[trigger] mods[i].prepares(
                mid,
                mods_after[i],
                after,
                false,
            ) && mid.keeps(after)
    }

    /// What preparing the modules does: it succeeds where each of them does, and the first failure
    /// ends it.
    pub open spec fn initialised(self, after: Self, success: bool) -> bool {
        exists|during: Self, done: Self|
            {
                &&& #[trigger] self.without_mods(during)
                &&& #[trigger] done.with_mods(after.mods@, after)
                &&& if success {
                    during.prepared(self.mods@, after.mods@, done)
                } else {
                    exists|i: int| #[trigger]
                        during.prepared_up_to(self.mods@, after.mods@, done, i)
                }
            }
    }

    /// Whether the modules, one after the other, took notice of the event.
    pub open spec fn noticed_by(
        self,
        mods: Seq<Mod<D>>,
        event: Event,
        mods_after: Seq<Mod<D>>,
        after: Self,
    ) -> bool
        decreases mods.len(),
    {
        &&& mods.len() == mods_after.len()
        &&& if mods.len() == 0 {
            after == self
        } else {
            exists|mid: Self|
                self.noticed_by(mods.drop_last(), event, mods_after.drop_last(), mid)
                    && #[trigger] mods.last().reacts(mid, event, mods_after.last(), after)
                    && mid.keeps(after)
        }
    }

    /// What telling the modules of an event does.
    pub open spec fn noticed(self, event: Event, after: Self) -> bool {
        exists|during: Self, done: Self|
            {
                &&& #[trigger] self.without_mods(during)
                &&& #[trigger] done.with_mods(after.mods@, after)
                &&& during.noticed_by(self.mods@, event, after.mods@, done)
            }
    }

    /// Whether the modules, one after the other, told how well they can handle the message.
    pub open spec fn scored_by(
        self,
        mods: Seq<Mod<D>>,
        account: Account,
        message: XmppMessage,
        delay: Option<Delay>,
        mods_after: Seq<Mod<D>>,
        after: Self,
        scores: Seq<u64>,
    ) -> bool
        decreases mods.len(),
    {
        &&& mods.len() == mods_after.len() == scores.len()
        &&& if mods.len() == 0 {
            after == self
        } else {
            exists|mid: Self|
                self.scored_by(
                    mods.drop_last(),
                    account,
                    message,
                    delay,
                    mods_after.drop_last(),
                    mid,
                    scores.drop_last(),
                ) && #[trigger] mods.last().scores(
                    mid,
                    account,
                    message,
                    delay,
                    mods_after.last(),
                    after,
                    scores.last(),
                ) && mid.keeps(after)
        }
    }

    /// Whether the message went to the first of the modules that handle it best, and to no other;
    /// where none can handle it, to none.
    pub open spec fn handed_over(
        self,
        mods: Seq<Mod<D>>,
        account: Account,
        message: XmppMessage,
        delay: Option<Delay>,
        archive: bool,
        mods_after: Seq<Mod<D>>,
        after: Self,
        scores: Seq<u64>,
    ) -> bool {
        if exists|i: int| is_best(scores, i) {
            exists|i: int|
                {
                    &&& #[trigger] is_best(scores, i)
                    &&& mods_after == mods.update(i, mods_after[i])
                    &&& mods[i].handles(
                        self,
                        account,
                        message,
                        delay,
                        archive,
                        mods_after[i],
                        after,
                    )
                    &&& self.keeps(after)
                }
        } else {
            mods_after == mods && after == self
        }
    }

    /// What becomes of a message that is ready to be read: the modules tell how well they can
    /// handle it, and the best of them does.
    pub open spec fn routed(
        self,
        account: Account,
        message: XmppMessage,
        delay: Option<Delay>,
        archive: bool,
        after: Self,
    ) -> bool {
        exists|during: Self, asked: Seq<Mod<D>>, mid: Self, scores: Seq<u64>, done: Self|
            {
                &&& #[trigger] self.without_mods(during)
                &&& #[trigger] during.scored_by(
                    self.mods@,
                    account,
                    message,
                    delay,
                    asked,
                    mid,
                    scores,
                )
                &&& mid.handed_over(
                    asked,
                    account,
                    message,
                    delay,
                    archive,
                    after.mods@,
                    done,
                    scores,
                )
                &&& #[trigger] done.with_mods(after.mods@, after)
            }
    }

    /// Prepares the modules. The first that fails ends it.
    pub fn init(&mut self) -> (r: Result<(), ()>)
        requires
            !old(self).mods_at_work,
        ensures
            old(self).initialised(*final(self), r is Ok),
            old(self).mods@.len() == 0 ==> r is Ok,
            final(self).mods@.len() == old(self).mods@.len(),
            old(self).keeps(*final(self)),
    {
        let mut mods: Vec<Mod<D>> = Vec::new();
        core::mem::swap(&mut mods, &mut self.mods);
        self.mods_at_work = true;
        let ghost (first, during) = (mods@, *self);
        assert(old(self).without_mods(during));
        let mut i: usize = 0;
        while i < mods.len()
            invariant
                i <= mods@.len(),
                first == old(self).mods@,
                first.len() == mods@.len(),
                forall|j: int| i <= j < first.len() ==> #[trigger] mods@[j] == first[j],
                old(self).without_mods(during),
                during.prepared(first.take(i as int), mods@.take(i as int), *self),
            decreases mods@.len() - i,
        {
            let ghost (came, mid) = (mods@, *self);
            let r = mods[i].init(self);
            proof {
                let (x, y) = (first.take(i + 1), mods@.take(i + 1));
                assert(x.drop_last() =~= first.take(i as int));
                assert(y.drop_last() =~= came.take(i as int));
                assert(mods@.take(i as int) =~= came.take(i as int));
                assert(x.last().prepares(mid, y.last(), *self, r is Ok));
                assert(first[i as int].prepares(mid, mods@[i as int], *self, r is Ok));
                assert(mods@.skip(i + 1) =~= first.skip(i + 1));
                if r is Ok {
                    assert(during.prepared(x, y, *self));
                } else {
                    assert(during.prepared_up_to(first, mods@, *self, i as int));
                }
            }
            if r.is_err() {
                let ghost done = *self;
                self.mods = mods;
                self.mods_at_work = false;
                assert(done.with_mods(self.mods@, *self));
                proof {
                    old(self).law_init_keeps(*self, false);
                }
                return Err(());
            }
            i += 1;
        }
        assert(first.take(i as int) =~= first && mods@.take(i as int) =~= mods@);
        let ghost done = *self;
        self.mods = mods;
        self.mods_at_work = false;
        assert(done.with_mods(self.mods@, *self));
        proof {
            old(self).law_init_keeps(*self, true);
        }
        Ok(())
    }

    /// Tells the modules of an event.
    pub fn notify(&mut self, event: &Event)
        requires
            !old(self).mods_at_work,
        ensures
            old(self).noticed(*event, *final(self)),
            final(self).mods@.len() == old(self).mods@.len(),
    {
        let mut mods: Vec<Mod<D>> = Vec::new();
        core::mem::swap(&mut mods, &mut self.mods);
        self.mods_at_work = true;
        let ghost (first, during) = (mods@, *self);
        assert(old(self).without_mods(during));
        let mut i: usize = 0;
        while i < mods.len()
            invariant
                i <= mods@.len(),
                first.len() == mods@.len(),
                forall|j: int| i <= j < first.len() ==> #[trigger] mods@[j] == first[j],
                during.noticed_by(first.take(i as int), *event, mods@.take(i as int), *self),
            decreases mods@.len() - i,
        {
            let ghost (came, mid) = (mods@, *self);
            mods[i].on_event(self, event);
            proof {
                let (x, y) = (first.take(i + 1), mods@.take(i + 1));
                assert(x.drop_last() =~= first.take(i as int));
                assert(y.drop_last() =~= came.take(i as int));
                assert(x.last().reacts(mid, *event, y.last(), *self));
                assert(during.noticed_by(x, *event, y, *self));
            }
            i += 1;
        }
        assert(first.take(i as int) =~= first && mods@.take(i as int) =~= mods@);
        let ghost done = *self;
        self.mods = mods;
        self.mods_at_work = false;
        assert(done.with_mods(self.mods@, *self));
    }

    /// Lets the module handle the message that can do so best.
    pub fn route(
        &mut self,
        account: &Account,
        message: &XmppMessage,
        delay: &Option<Delay>,
        archive: bool,
    )
        requires
            !old(self).mods_at_work,
        ensures
            old(self).routed(*account, *message, *delay, archive, *final(self)),
            final(self).mods@.len() == old(self).mods@.len(),
    {
        let mut mods: Vec<Mod<D>> = Vec::new();
        core::mem::swap(&mut mods, &mut self.mods);
        self.mods_at_work = true;
        let ghost (first, during) = (mods@, *self);
        assert(old(self).without_mods(during));
        let mut scores: Vec<u64> = Vec::new();
        let mut i: usize = 0;
        while i < mods.len()
            invariant
                i <= mods@.len(),
                i == scores@.len(),
                first.len() == mods@.len(),
                forall|j: int| i <= j < first.len() ==> #[trigger] mods@[j] == first[j],
                during.scored_by(
                    first.take(i as int),
                    *account,
                    *message,
                    *delay,
                    mods@.take(i as int),
                    *self,
                    scores@,
                ),
            decreases mods@.len() - i,
        {
            let ghost (came, mid, told) = (mods@, *self, scores@);
            let score = mods[i].can_handle_xmpp_message(self, account, message, delay);
            scores.push(score);
            proof {
                let (x, y) = (first.take(i + 1), mods@.take(i + 1));
                assert(x.drop_last() =~= first.take(i as int));
                assert(y.drop_last() =~= came.take(i as int));
                assert(scores@.drop_last() =~= told);
                assert(x.last().scores(
                    mid,
                    *account,
                    *message,
                    *delay,
                    y.last(),
                    *self,
                    scores@.last(),
                ));
                assert(during.scored_by(x, *account, *message, *delay, y, *self, scores@));
            }
            i += 1;
        }
        assert(first.take(i as int) =~= first && mods@.take(i as int) =~= mods@);
        let ghost (asked, mid) = (mods@, *self);
        match best_match(&scores) {
            Some(best) => {
                mods[best].handle_xmpp_message(self, account, message, delay, archive);
                assert(is_best(scores@, best as int));
                assert(mods@ =~= asked.update(best as int, mods@[best as int]));
            },
            None => {},
        }
        let ghost done = *self;
        assert(mid.handed_over(
            asked,
            *account,
            *message,
            *delay,
            archive,
            mods@,
            done,
            scores@,
        ));
        self.mods = mods;
        self.mods_at_work = false;
        assert(done.with_mods(self.mods@, *self));
    }
}

} // verus!
