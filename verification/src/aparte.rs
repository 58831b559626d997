//! The client: its modules, its connections, and what it does with what happens.
use crate::account::{
    is_suffix, jid_of, jid_result_view, plain_resource, random_alphanumeric, read_jid, text_view,
    Account, ConnectionInfo, Jid, JidView, Password,
};
use crate::client::{server_of, ClientConfig, ServerConfig};
use crate::config::Config;
use crate::connections::{account_id, Connection, Connections};
use crate::event::Event;
use crate::mods::{Keeps, Mod};
use crate::presence::Outgoing;
use crate::shared::Shared;
use crate::stanza::Element;
use vstd::prelude::*;

verus! {

/// The client.
#[verifier::reject_recursive_types(D)]
#[verifier::reject_recursive_types(C)]
pub struct Aparte<D, C> {
    /// The modules, at most one of each kind. They are not here while they are at work.
    pub mods: Vec<Mod<D>>,
    /// Whether the modules are at work.
    pub mods_at_work: bool,
    /// The connections of the accounts, and the account that was connected last.
    pub connections: Connections,
    /// The connections that others took the place of, each with what it still has to write, the
    /// oldest first.
    pub replaced: Vec<(Account, Connection)>,
    /// The connections that are to be opened, the next first.
    pub opening: Vec<ClientConfig>,
    /// The main configuration.
    pub config: Config,
    /// What the client shares with those who act for it.
    pub shared: Shared<C>,
}

/// The address that an account connects as: one without a resource gets `aparte_` and the suffix.
pub open spec fn account_for(jid: JidView, suffix: Seq<char>) -> JidView {
    if jid.resource is Some {
        jid
    } else {
        jid.with_resource("aparte_"@ + suffix)
    }
}

/// What the connection of an account is opened with.
pub open spec fn opens(
    config: ClientConfig,
    info: ConnectionInfo,
    password: Password,
    account: JidView,
) -> bool {
    &&& config.jid@ == account
    &&& config.password == password.secret
    &&& config.reconnect
    &&& config.server@ == server_of(text_view(info.server), info.port, account.domain)
}

impl<D, C> Keeps for Aparte<D, C> {
    /// Whether no connection was taken away, and there still is a current account where there was
    /// one.
    open spec fn keeps(self, after: Self) -> bool {
        self.connections.keeps(after.connections)
    }
}

impl<D, C> Aparte<D, C> {
    /// Whether at most what is shared changed.
    pub open spec fn only_shared(self, after: Self) -> bool {
        after == (Aparte { shared: after.shared, ..self })
    }

    /// Whether the account has a connection, which has these to write, and is the current one.
    /// Where it had a connection before, that one is kept aside. No other connection changed.
    pub open spec fn joined_by(self, after: Self, account: JidView, sink: Seq<Element>) -> bool {
        let id = account_id(account);
        &&& after.connections@ == self.connections@.insert(id, after.connections@[id])
        &&& after.connections@[id].sink@ == sink
        &&& after.connections.current() is Some
        &&& after.connections.current()->0@ == account
        &&& if self.connections@.contains_key(id) {
            &&& after.replaced@.len() == self.replaced@.len() + 1
            &&& after.replaced@.drop_last() == self.replaced@
            &&& after.replaced@.last().0@ == account
            &&& after.replaced@.last().1 == self.connections@[id]
        } else {
            after.replaced@ == self.replaced@
        }
    }

    /// What an attempt to connect does, given what reading the address gave and the suffix for an
    /// address without a resource.
    pub open spec fn opened(
        self,
        after: Self,
        info: ConnectionInfo,
        password: Password,
        parsed: Result<JidView, Seq<char>>,
        suffix: Seq<char>,
    ) -> bool {
        match parsed {
            Ok(jid) => {
                let account = account_for(jid, suffix);
                &&& self.shared.logged(after.shared, None, "Connecting as "@ + account.text())
                &&& after.opening@.len() == self.opening@.len() + 1
                &&& after.opening@.drop_last() == self.opening@
                &&& opens(after.opening@.last(), info, password, account)
                &&& self.joined_by(after, account, Seq::empty())
                &&& after.mods == self.mods
                &&& after.mods_at_work == self.mods_at_work
                &&& after.config == self.config
            },
            Err(reason) => {
                &&& self.only_shared(after)
                &&& self.shared.logged(
                    after.shared,
                    None,
                    "Cannot connect as "@ + info.jid@ + ": "@ + reason,
                )
            },
        }
    }

    /// What an attempt to connect does, for some suffix.
    pub open spec fn connected(
        self,
        after: Self,
        info: ConnectionInfo,
        password: Password,
    ) -> bool {
        exists|suffix: Seq<char>|
            is_suffix(suffix) && #[trigger] self.opened(
                after,
                info,
                password,
                jid_of(info.jid@),
                suffix,
            )
    }

    /// What the start does with one configured account.
    pub open spec fn started_one(self, after: Self, info: ConnectionInfo) -> bool {
        if info.autoconnect {
            info.password is Some && self.connected(after, info, info.password->0)
        } else {
            after == self
        }
    }

    /// What the start does with the configured accounts, one after the other.
    pub open spec fn started(self, after: Self, accounts: Seq<(String, ConnectionInfo)>) -> bool
        decreases accounts.len(),
    {
        if accounts.len() == 0 {
            after == self
        } else {
            exists|mid: Self|
                self.started(mid, accounts.drop_last()) && #[trigger] mid.started_one(
                    after,
                    accounts.last().1,
                )
        }
    }

    /// Whether the stanza was handed to the connection of the account; without one, nothing was.
    pub open spec fn stanza_sent(self, after: Self, account: Account, stanza: Element) -> bool {
        let id = account_id(account@);
        &&& after == (Aparte { connections: after.connections, ..self })
        &&& after.connections.current() == self.connections.current()
        &&& if self.connections@.contains_key(id) {
            &&& after.connections@ == self.connections@.insert(id, after.connections@[id])
            &&& after.connections@[id].sink@ == self.connections@[id].sink@.push(stanza)
        } else {
            after.connections@ == self.connections@
        }
    }

    /// Whether what goes out was written and handed to the connection of the account.
    pub open spec fn outgoing_sent(self, after: Self, account: Account, stanza: Outgoing) -> bool {
        exists|written: Element|
            stanza.written_as(written) && #[trigger] self.stanza_sent(after, account, written)
    }

    /// A client with this configuration.
    pub fn new(config: Config) -> (r: Result<Self, String>)
        ensures
            r is Ok,
            (r->Ok_0).config == config,
            (r->Ok_0).mods@ == Seq::<Mod<D>>::empty(),
            !(r->Ok_0).mods_at_work,
            (r->Ok_0).connections@ == Map::<Seq<Seq<char>>, Connection>::empty(),
            (r->Ok_0).replaced@.len() == 0,
            (r->Ok_0).connections.current() is None,
            (r->Ok_0).opening@ == Seq::<ClientConfig>::empty(),
            (r->Ok_0).shared.events@ == Seq::<Event>::empty(),
            (r->Ok_0).shared.stanzas@ == Seq::<(Account, Outgoing)>::empty(),
            (r->Ok_0).shared.pending_iq@.dom() == Set::<u128>::empty(),
            (r->Ok_0).shared.crypto_engines@.dom() == Set::<Seq<Seq<char>>>::empty(),
            (r->Ok_0).shared.woken@.len() == 0,
    {
        Ok(
            Aparte {
                mods: Vec::new(),
                mods_at_work: false,
                connections: Connections::new(),
                replaced: Vec::new(),
                opening: Vec::new(),
                config,
                shared: Shared::new(),
            },
        )
    }

    /// Adds a module, in the place of the one of the same kind. All kinds being one, it is then the
    /// only module. No module can add one while it is at work.
    pub fn add_mod(&mut self, added: Mod<D>)
        requires
            !old(self).mods_at_work,
        ensures
            final(self).mods@ == seq![added],
            *final(self) == (Aparte { mods: final(self).mods, ..*old(self) }),
    {
        let mut mods: Vec<Mod<D>> = Vec::new();
        match added {
            Mod::Disco(inner) => {
                mods.push(Mod::Disco(inner));
            },
        }
        assert(mods@ =~= seq![added]);
        self.mods = mods;
    }

    /// Adds the connection of an account and makes the account the current one. An earlier
    /// connection of the account is kept aside, with what it still has to write.
    pub fn add_connection(&mut self, account: Account, sink: Vec<Element>)
        ensures
            final(self).connections@ == old(self).connections@.insert(
                account_id(account@),
                (Connection { sink }),
            ),
            final(self).connections.current() == Some(account),
            final(self).replaced@ == if old(self).connections@.contains_key(account_id(account@)) {
                old(self).replaced@.push((account, old(self).connections@[account_id(account@)]))
            } else {
                old(self).replaced@
            },
            *final(self) == (Aparte {
                connections: final(self).connections,
                replaced: final(self).replaced,
                ..*old(self)
            }),
            old(self).keeps(*final(self)),
    {
        let kept = account.clone();
        if let Some(earlier) = self.connections.add(account, Connection { sink }) {
            self.replaced.push((kept, earlier));
        }
    }

    /// Writes a stanza and hands it to the connection of the account. Without a connection nothing
    /// is sent.
    pub fn send_stanza(&mut self, account: Account, stanza: Outgoing)
        requires
            stanza.writable(),
        ensures
            old(self).outgoing_sent(*final(self), account, stanza),
            old(self).keeps(*final(self)),
    {
        if let Ok(written) = stanza.to_element() {
            self.connections.write(&account, written);
            assert(old(self).stanza_sent(*self, account, written));
        }
    }

    /// Takes out what the connection of the account is to write, the next first.
    pub fn take_outgoing(&mut self, account: &Account) -> (r: Vec<Element>)
        ensures
            ({
                let id = account_id(account@);
                if old(self).connections@.contains_key(id) {
                    &&& r == old(self).connections@[id].sink
                    &&& final(self).connections@ == old(self).connections@.insert(
                        id,
                        final(self).connections@[id],
                    )
                    &&& final(self).connections@[id].sink@.len() == 0
                } else {
                    r@.len() == 0 && final(self).connections@ == old(self).connections@
                }
            }),
            final(self).connections.current() == old(self).connections.current(),
            old(self).keeps(*final(self)),
            *final(self) == (Aparte { connections: final(self).connections, ..*old(self) }),
    {
        self.connections.take(account)
    }

    /// Connects an account, given what reading its address gave and the suffix for an address
    /// without a resource.
    pub fn connect_as(
        &mut self,
        connection_info: &ConnectionInfo,
        password: Password,
        parsed: Result<Jid, String>,
        suffix: &str,
    )
        requires
            is_suffix(suffix@),
        ensures
            old(self).opened(
                *final(self),
                *connection_info,
                password,
                jid_result_view(parsed),
                suffix@,
            ),
    {
        let account: Account = match parsed {
            Ok(jid) => match jid.try_into_full() {
                Ok(full_jid) => full_jid,
                Err(bare_jid) => {
                    let resource = "aparte_".to_owned().concat(suffix);
                    proof {
                        reveal_strlit("aparte_");
                        assert(plain_resource(resource@));
                    }
                    match bare_jid.with_resource_str(resource.as_str()) {
                        Ok(full_jid) => full_jid,
                        Err(_) => {
                            return ;
                        },
                    }
                },
            },
            Err(err) => {
                let start = "Cannot connect as ".to_owned().concat(connection_info.jid.as_str());
                self.log(start.concat(": ").concat(err.as_str()));
                return ;
            },
        };
        self.log("Connecting as ".to_owned().concat(account.to_string().as_str()));
        let config = ClientConfig {
            jid: account.clone(),
            password: password.expose_secret().clone(),
            server: ServerConfig::for_account(connection_info, &account),
            reconnect: true,
        };
        self.opening.push(config);
        self.add_connection(account, Vec::new());
        proof {
            assert(self.opening@.drop_last() =~= old(self).opening@);
            assert(self.replaced@ =~= old(self).replaced@ || self.replaced@.drop_last() =~= old(
                self,
            ).replaced@);
        }
    }

    /// Connects an account. One that is configured without a resource gets a random one.
    pub fn connect(&mut self, connection_info: &ConnectionInfo, password: Password)
        ensures
            old(self).connected(*final(self), *connection_info, password),
            jid_of(connection_info.jid@) is Ok ==> {
                let config = final(self).opening@.last();
                &&& config.password == password.secret
                &&& match (connection_info.server, connection_info.port) {
                    (Some(host), Some(port)) => config.server is Manual && config.server->host@
                        == host@ && config.server->port == port,
                    (Some(host), None) => config.server is Manual && config.server->host@ == host@
                        && config.server->port == 5222,
                    (None, Some(port)) => config.server is Manual && config.server->host@ == (
                    jid_of(connection_info.jid@)->Ok_0).domain && config.server->port == port,
                    (None, None) => config.server is UseSrv,
                }
            },
            old(self).keeps(*final(self)),
    {
        let parsed = read_jid(connection_info.jid.as_str());
        let suffix = random_alphanumeric(5);
        self.connect_as(connection_info, password, parsed, suffix.as_str());
        proof {
            old(self).law_opens_one_connection(*self, *connection_info, password);
        }
    }

    /// Connects the configured accounts that are to connect by themselves.
    pub fn start(&mut self)
        requires
            old(self).config.can_start(),
        ensures
            old(self).started(*final(self), old(self).config.accounts.entries()),
            old(self).keeps(*final(self)),
    {
        let config = self.config.clone();
        let ghost all = config.accounts.entries();
        let mut i: usize = 0;
        assert(all.take(0) =~= Seq::<(String, ConnectionInfo)>::empty());
        while i < config.accounts.len()
            invariant
                i <= all.len(),
                all == config.accounts.entries(),
                config.can_start(),
                old(self).started(*self, all.take(i as int)),
            decreases all.len() - i,
        {
            let account = &config.accounts.at(i).1;
            let ghost before = *self;
            if account.autoconnect {
                if let Some(password) = &account.password {
                    self.connect(account, password.clone());
                }
            }
            proof {
                let now = all.take(i + 1);
                assert(now.drop_last() =~= all.take(i as int) && now.last() == all[i as int]);
                assert(old(self).started(before, now.drop_last()));
                assert(before.started_one(*self, now.last().1));
                assert(old(self).started(*self, now));
            }
            i += 1;
        }
        assert(all.take(i as int) =~= all);
        proof {
            old(self).law_start_keeps(*self, all);
        }
    }

    /// Adds an event to what is to happen.
    pub fn schedule(&mut self, event: Event)
        ensures
            old(self).only_shared(*final(self)),
            old(self).shared.scheduled(final(self).shared, event),
    {
        self.shared.schedule(event);
    }

    /// Shows a line of the client's log.
    pub fn log(&mut self, message: String)
        ensures
            old(self).only_shared(*final(self)),
            old(self).shared.logged(final(self).shared, None, message@),
    {
        self.shared.log(message);
    }

    /// Shows what failed and why.
    pub fn error(&mut self, message: String, err: String)
        ensures
            old(self).only_shared(*final(self)),
            old(self).shared.logged(final(self).shared, None, message@ + ": "@ + err@),
    {
        self.shared.error(message, err);
    }

    /// Sends what could be turned into a stanza.
    pub fn send(&mut self, account: &Account, element: Result<Element, String>)
        ensures
            old(self).only_shared(*final(self)),
            match element {
                Ok(stanza) => old(self).shared.queued(
                    final(self).shared,
                    *account,
                    Outgoing::Element(stanza),
                ),
                Err(_) => *final(self) == *old(self),
            },
    {
        self.shared.send(account, element);
    }
}

} // verus!
