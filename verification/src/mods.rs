//! The modules that the client is made of.
use crate::account::Account;
use crate::disco::{DiscoInfo, DiscoInfoView};
use crate::event::{Delay, Event};
use crate::stanza::XmppMessage;
use vstd::prelude::*;

verus! {

/// What lasts through whatever is done to a value by its methods.
pub trait Keeps: Sized {
    /// Whether what is to last did.
    spec fn keeps(self, after: Self) -> bool;
}

/// What a module does. Each kind of module says for itself how it and the client may come out of a
/// call; one that says nothing of it may come out in any way. A module gets at what lasts of the
/// client only by the client's methods, so that it does last; it may not put another client in the
/// place of the one that it is given. No method has a body here: one body for all modules could not
/// hold to what each of them says. A module that handles no messages answers 0 and does nothing.
pub trait ModTrait<A: Keeps>: Sized {
    /// How the module and the client may come out of the preparation, and whether it
    /// may succeed.
    open spec fn prepares(self, aparte: A, after: Self, aparte_after: A, success: bool) -> bool {
        true
    }

    /// How the module and the client may come out of an event.
    open spec fn reacts(self, aparte: A, event: Event, after: Self, aparte_after: A) -> bool {
        true
    }

    /// How the module and the client may come out of the question whether the module can handle a
    /// message, and with what answer.
    open spec fn scores(
        self,
        aparte: A,
        account: Account,
        message: XmppMessage,
        delay: Option<Delay>,
        after: Self,
        aparte_after: A,
        r: u64,
    ) -> bool {
        true
    }

    /// How the module and the client may come out of a message.
    open spec fn handles(
        self,
        aparte: A,
        account: Account,
        message: XmppMessage,
        delay: Option<Delay>,
        archive: bool,
        after: Self,
        aparte_after: A,
    ) -> bool {
        true
    }

    /// Prepares the module.
    fn init(&mut self, aparte: &mut A) -> (r: Result<(), ()>)
        ensures
            old(self).prepares(*old(aparte), *final(self), *final(aparte), r is Ok),
            old(aparte).keeps(*final(aparte)),
    ;

    /// Takes notice of an event.
    fn on_event(&mut self, aparte: &mut A, event: &Event)
        ensures
            old(self).reacts(*old(aparte), *event, *final(self), *final(aparte)),
            old(aparte).keeps(*final(aparte)),
    ;

    /// How well the module can handle the message: 0 means not at all, and of two modules the one
    /// with the higher number is the better. A module that handles no messages answers 0.
    fn can_handle_xmpp_message(
        &mut self,
        aparte: &mut A,
        account: &Account,
        message: &XmppMessage,
        delay: &Option<Delay>,
    ) -> (r: u64)
        ensures
            old(self).scores(
                *old(aparte),
                *account,
                *message,
                *delay,
                *final(self),
                *final(aparte),
                r,
            ),
            old(aparte).keeps(*final(aparte)),
    ;

    /// Handles the message.
    fn handle_xmpp_message(
        &mut self,
        aparte: &mut A,
        account: &Account,
        message: &XmppMessage,
        delay: &Option<Delay>,
        archive: bool,
    )
        ensures
            old(self).handles(
                *old(aparte),
                *account,
                *message,
                *delay,
                archive,
                *final(self),
                *final(aparte),
            ),
            old(aparte).keeps(*final(aparte)),
    ;
}

/// The module that tells others what the client is and can do.
pub trait Disco<A: Keeps>: ModTrait<A> {
    /// What the module may tell of the client.
    open spec fn tells(&self, info: DiscoInfoView) -> bool {
        true
    }

    /// What the client is and can do.
    fn get_disco(&self) -> (r: DiscoInfo)
        ensures
            self.tells(r@),
    ;
}

/// A module of the client.
pub enum Mod<D> {
    /// The one that tells what the client is and can do.
    Disco(D),
}

impl<D> Mod<D> {
    /// The module inside, where it is the one that tells what the client can do.
    pub open spec fn disco(self) -> D {
        match self {
            Mod::Disco(inner) => inner,
        }
    }

    /// The module inside.
    pub fn as_disco(&self) -> (r: &D)
        ensures
            *r == self.disco(),
    {
        match self {
            Mod::Disco(inner) => inner,
        }
    }

    /// The module inside, to change it.
    pub fn as_disco_mut(&mut self) -> (r: &mut D)
        ensures
            *r == old(self).disco(),
            *final(self) == Mod::Disco(*final(r)),
    {
        match self {
            Mod::Disco(inner) => inner,
        }
    }

    /// The name that a log shows.
    pub fn debug_name(&self) -> (r: String)
        ensures
            r@ == "Mod::Disco"@,
    {
        match self {
            Mod::Disco(_) => "Mod::Disco".to_owned(),
        }
    }
}

impl<A: Keeps, D: ModTrait<A>> ModTrait<A> for Mod<D> {
    open spec fn prepares(self, aparte: A, after: Self, aparte_after: A, success: bool) -> bool {
        self.disco().prepares(aparte, after.disco(), aparte_after, success)
    }

    open spec fn reacts(self, aparte: A, event: Event, after: Self, aparte_after: A) -> bool {
        self.disco().reacts(aparte, event, after.disco(), aparte_after)
    }

    open spec fn scores(
        self,
        aparte: A,
        account: Account,
        message: XmppMessage,
        delay: Option<Delay>,
        after: Self,
        aparte_after: A,
        r: u64,
    ) -> bool {
        self.disco().scores(aparte, account, message, delay, after.disco(), aparte_after, r)
    }

    open spec fn handles(
        self,
        aparte: A,
        account: Account,
        message: XmppMessage,
        delay: Option<Delay>,
        archive: bool,
        after: Self,
        aparte_after: A,
    ) -> bool {
        self.disco().handles(
            aparte,
            account,
            message,
            delay,
            archive,
            after.disco(),
            aparte_after,
        )
    }

    fn init(&mut self, aparte: &mut A) -> Result<(), ()> {
        match self {
            Mod::Disco(inner) => inner.init(aparte),
        }
    }

    fn on_event(&mut self, aparte: &mut A, event: &Event) {
        match self {
            Mod::Disco(inner) => inner.on_event(aparte, event),
        }
    }

    fn can_handle_xmpp_message(
        &mut self,
        aparte: &mut A,
        account: &Account,
        message: &XmppMessage,
        delay: &Option<Delay>,
    ) -> u64 {
        match self {
            Mod::Disco(inner) => inner.can_handle_xmpp_message(aparte, account, message, delay),
        }
    }

    fn handle_xmpp_message(
        &mut self,
        aparte: &mut A,
        account: &Account,
        message: &XmppMessage,
        delay: &Option<Delay>,
        archive: bool,
    ) {
        match self {
            Mod::Disco(inner) => inner.handle_xmpp_message(
                aparte,
                account,
                message,
                delay,
                archive,
            ),
        }
    }
}

/// Whether the entry at this place is the first of the best, and no worse than nothing.
pub open spec fn is_best(scores: Seq<u64>, i: int) -> bool {
    &&& 0 <= i < scores.len()
    &&& scores[i] > 0
    &&& forall|j: int| 0 <= j < i ==> #[trigger] scores[j] < scores[i]
    &&& forall|j: int| i <= j < scores.len() ==> #[trigger] scores[j] <= scores[i]
}

/// Which module handles a message, by how well each says that it can: the first of the best, and
/// none where all say that they cannot.
pub fn best_match(scores: &Vec<u64>) -> (r: Option<usize>)
    ensures
        match r {
            Some(i) => is_best(scores@, i as int),
            None => forall|j: int| 0 <= j < scores@.len() ==> #[trigger] scores@[j] == 0,
        },
{
    let mut best: u64 = 0;
    let mut matched: Option<usize> = None;
    let mut i: usize = 0;
    while i < scores.len()
        invariant
            i <= scores@.len(),
            match matched {
                Some(m) => m < i && best == scores@[m as int] && is_best(
                    scores@.take(i as int),
                    m as int,
                ),
                None => best == 0 && forall|j: int| 0 <= j < i ==> #[trigger] scores@[j] == 0,
            },
        decreases scores@.len() - i,
    {
        proof {
            let (now, next) = (scores@.take(i as int), scores@.take(i + 1));
            assert(forall|j: int| 0 <= j < i ==> now[j] == #[trigger] next[j]);
            assert(forall|j: int| 0 <= j < i ==> now[j] == #[trigger] scores@[j]);
            assert(next[i as int] == scores@[i as int]);
        }
        if scores[i] > best {
            matched = Some(i);
            best = scores[i];
        }
        i += 1;
    }
    assert(scores@.take(i as int) =~= scores@);
    matched
}

} // verus!
