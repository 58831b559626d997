//! Encryption between an account and those that it talks to.
use crate::account::{Account, BareJid};
use crate::message::Message;
use crate::stanza::{Element, XmppMessage};
use crate::table::Key;
use vstd::prelude::*;

verus! {

/// Who talks to whom.
pub struct Conversation {
    /// The account on this side.
    pub account: Account,
    /// The other side.
    pub recipient: BareJid,
}

impl Key for Conversation {
    open spec fn id(&self) -> Seq<Seq<char>> {
        conversation_id(self.account, self.recipient)
    }

    fn same(&self, other: &Self) -> bool {
        let r = self.account.to_string() == other.account.to_string() && self.recipient.to_string()
            == other.recipient.to_string();
        proof {
            let (a, b) = (self.id(), other.id());
            assert(a[0] == self.account@.text() && a[1] == self.recipient@.text());
            assert(b[0] == other.account@.text() && b[1] == other.recipient@.text());
            if r {
                assert(a =~= b);
            }
        }
        r
    }
}

/// What tells the conversations of an account with others apart: how the addresses are written.
pub open spec fn conversation_id(account: Account, recipient: BareJid) -> Seq<Seq<char>> {
    seq![account@.text(), recipient@.text()]
}

/// What encrypts and decrypts the messages of one conversation. Each scheme says for itself what it
/// may give; one that says nothing of it may give anything.
pub trait Cipher<A>: Sized {
    /// How the scheme may come out of an encryption, and with what result.
    open spec fn encrypts(
        self,
        aparte: A,
        account: Account,
        message: Message,
        after: Self,
        r: Result<Element, String>,
    ) -> bool {
        true
    }

    /// How the scheme may come out of a decryption, and with what result.
    open spec fn decrypts(
        self,
        aparte: A,
        account: Account,
        message: XmppMessage,
        after: Self,
        r: Result<XmppMessage, String>,
    ) -> bool {
        true
    }

    /// Encrypts a message that the account sends.
    fn encrypt(&mut self, aparte: &A, account: &Account, message: &Message) -> (r: Result<
        Element,
        String,
    >)
        ensures
            old(self).encrypts(*aparte, *account, *message, *final(self), r),
    ;

    /// Decrypts a message that came for the account.
    fn decrypt(&mut self, aparte: &A, account: &Account, message: &XmppMessage) -> (r: Result<
        XmppMessage,
        String,
    >)
        ensures
            old(self).decrypts(*aparte, *account, *message, *final(self), r),
    ;
}

/// A scheme at work in one conversation.
pub struct CryptoEngine<C> {
    /// The namespace of the scheme.
    pub namespace: String,
    /// The scheme itself.
    pub cipher: C,
}

impl<C> CryptoEngine<C> {
    /// The namespace of the scheme.
    pub fn ns(&self) -> (r: &String)
        ensures
            *r == self.namespace,
    {
        &self.namespace
    }
}

} // verus!
