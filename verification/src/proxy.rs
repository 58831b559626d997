//! Those who act for the client from elsewhere.
use crate::account::{Account, BareJid, ConnectionInfo};
use crate::aparte::Aparte;
use crate::config::Config;
use crate::connections::account_id;
use crate::crypto::{conversation_id, CryptoEngine};
use crate::event::Event;
use crate::presence::Outgoing;
use crate::shared::Shared;
use crate::stanza::Element;
use vstd::prelude::*;

verus! {

/// One who acts for the client. It knows the configuration and the account that was current when it
/// was made, and works on what the client shares.
pub struct AparteAsync {
    /// The account that was connected last.
    pub current_connection: Option<Account>,
    /// The main configuration.
    pub config: Config,
}

/// A copy of an optional account.
fn clone_account(account: &Option<Account>) -> (r: Option<Account>)
    ensures
        r == *account,
{
    match account {
        Some(account) => Some(account.clone()),
        None => None,
    }
}

impl Clone for AparteAsync {
    fn clone(&self) -> (r: Self)
        ensures
            r.current_connection == self.current_connection,
            r.config.accounts@ == self.config.accounts@,
            r.config.accounts.entries() == self.config.accounts.entries(),
    {
        AparteAsync {
            current_connection: clone_account(&self.current_connection),
            config: self.config.clone(),
        }
    }
}

impl<D, C> Aparte<D, C> {
    /// One who acts for the client.
    pub fn proxy(&self) -> (r: AparteAsync)
        ensures
            r.current_connection == self.connections.current(),
            r.config.accounts@ == self.config.accounts@,
            r.config.accounts.entries() == self.config.accounts.entries(),
    {
        AparteAsync {
            current_connection: self.connections.current_account(),
            config: self.config.clone(),
        }
    }

    /// The account that was connected last. It has a connection.
    pub fn current_account(&self) -> (r: Option<Account>)
        ensures
            r == self.connections.current(),
            r is Some ==> self.connections@.contains_key(account_id(r->0@)),
    {
        self.connections.current_account()
    }

    /// Sets the scheme that encrypts in a conversation.
    pub fn add_crypto_engine(
        &mut self,
        account: &Account,
        recipient: &BareJid,
        crypto_engine: CryptoEngine<C>,
    )
        ensures
            old(self).only_shared(*final(self)),
            old(self).shared.engine_added(
                final(self).shared,
                conversation_id(*account, *recipient),
                crypto_engine,
            ),
    {
        self.shared.add_crypto_engine(account, recipient, crypto_engine);
    }
}

impl AparteAsync {
    /// Asks the client to connect an account with the password that it is configured with.
    pub fn connect<C>(&self, shared: &mut Shared<C>, connection_info: &ConnectionInfo)
        requires
            connection_info.password is Some,
        ensures
            old(shared).scheduled(
                *final(shared),
                Event::Connect(*connection_info, connection_info.password->0),
            ),
    {
        let connection_info = connection_info.clone();
        if let Some(password) = &connection_info.password {
            let password = password.clone();
            self.schedule(shared, Event::Connect(connection_info, password));
        }
    }

    /// Sends a stanza.
    pub fn send<C>(&self, shared: &mut Shared<C>, account: &Account, stanza: Element)
        ensures
            old(shared).queued(*final(shared), *account, Outgoing::Element(stanza)),
    {
        shared.queue(account, Outgoing::Element(stanza));
    }

    /// Adds an event to what is to happen.
    pub fn schedule<C>(&self, shared: &mut Shared<C>, event: Event)
        ensures
            old(shared).scheduled(*final(shared), event),
    {
        shared.schedule(event);
    }

    /// Shows a line of the client's log.
    pub fn log<C>(&self, shared: &mut Shared<C>, message: String)
        ensures
            old(shared).logged(*final(shared), None, message@),
    {
        shared.log(message);
    }

    /// Shows what failed and why.
    pub fn error<C>(&self, shared: &mut Shared<C>, message: String, err: String)
        ensures
            old(shared).logged(*final(shared), None, message@ + ": "@ + err@),
    {
        shared.error(message, err);
    }

    /// The account that was connected last.
    pub fn current_account(&self) -> (r: Option<Account>)
        ensures
            r == self.current_connection,
    {
        clone_account(&self.current_connection)
    }

    /// Sets the scheme that encrypts in a conversation.
    pub fn add_crypto_engine<C>(
        &self,
        shared: &mut Shared<C>,
        account: &Account,
        recipient: &BareJid,
        crypto_engine: CryptoEngine<C>,
    )
        ensures
            old(shared).engine_added(
                *final(shared),
                conversation_id(*account, *recipient),
                crypto_engine,
            ),
    {
        shared.add_crypto_engine(account, recipient, crypto_engine);
    }
}

} // verus!
