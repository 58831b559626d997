//! What a connection is opened with, and what becomes of the events on it.
use crate::account::{text_view, Account, ConnectionInfo, Jid};
use crate::event::Event;
use crate::stanza::Element;
use vstd::prelude::*;

verus! {

/// Where to find the server.
#[derive(Debug)]
pub enum ServerConfig {
    /// Look the domain's service record up.
    UseSrv,
    /// Connect to this host and port.
    Manual {
        /// The host.
        host: String,
        /// The port.
        port: u16,
    },
}

/// Where to find the server.
pub enum ServerConfigView {
    /// Look the domain's service record up.
    UseSrv,
    /// Connect to this host and port.
    Manual {
        /// The host.
        host: Seq<char>,
        /// The port.
        port: u16,
    },
}

impl View for ServerConfig {
    type V = ServerConfigView;

    open spec fn view(&self) -> ServerConfigView {
        match self {
            ServerConfig::UseSrv => ServerConfigView::UseSrv,
            ServerConfig::Manual { host, port } => ServerConfigView::Manual {
                host: host@,
                port: *port,
            },
        }
    }
}

/// Where to find the server: nothing is looked up once the host or the port is configured. The host
/// then is the configured one, else the domain, and the port the configured one, else 5222.
pub open spec fn server_of(
    server: Option<Seq<char>>,
    port: Option<u16>,
    domain: Seq<char>,
) -> ServerConfigView {
    if server is None && port is None {
        ServerConfigView::UseSrv
    } else {
        ServerConfigView::Manual {
            host: match server {
                Some(host) => host,
                None => domain,
            },
            port: match port {
                Some(p) => p,
                None => 5222,
            },
        }
    }
}

impl ServerConfig {
    /// Where to find the server of an account.
    pub fn for_account(info: &ConnectionInfo, account: &Account) -> (r: ServerConfig)
        ensures
            r@ == server_of(text_view(info.server), info.port, account@.domain),
    {
        match (&info.server, &info.port) {
            (Some(server), Some(port)) => ServerConfig::Manual {
                host: server.clone(),
                port: *port,
            },
            (Some(server), None) => ServerConfig::Manual { host: server.clone(), port: 5222 },
            (None, Some(port)) => ServerConfig::Manual {
                host: account.domain.clone(),
                port: *port,
            },
            (None, None) => ServerConfig::UseSrv,
        }
    }
}

/// What a connection is opened with.
pub struct ClientConfig {
    /// The account to connect.
    pub jid: Account,
    /// Its password.
    pub password: String,
    /// Where to find the server.
    pub server: ServerConfig,
    /// Whether to connect again where the connection is lost.
    pub reconnect: bool,
}

/// What happens on a connection.
#[derive(Debug)]
pub enum ClientEvent {
    /// The server turned the account away.
    AuthFailed(String),
    /// The stream ended for another reason.
    Disconnected(String),
    /// The stream is ready.
    Online {
        /// The address that the server gave.
        bound_jid: Jid,
        /// Whether it goes on with an earlier session.
        resumed: bool,
    },
    /// A stanza came.
    Stanza(Element),
}

/// When to stop reading from a connection.
#[derive(Debug, Clone, Copy, PartialEq, Eq, Structural)]
pub enum Stop {
    /// At once.
    Always,
    /// Where the event could not be handed on.
    IfUndelivered,
    /// Not now.
    Never,
}

/// What becomes of an event on a connection: what the client is told of it.
pub open spec fn told(account: Account, event: ClientEvent) -> Option<Event> {
    match event {
        ClientEvent::AuthFailed(reason) => Some(Event::AuthError(account, reason)),
        ClientEvent::Disconnected(reason) => Some(Event::Disconnected(account, reason)),
        ClientEvent::Online { bound_jid, resumed } => if resumed {
            None
        } else {
            Some(Event::Connected(account, bound_jid))
        },
        ClientEvent::Stanza(stanza) => Some(Event::Stanza(account, stanza)),
    }
}

/// What becomes of an event on a connection: when the reading stops. A client that was turned away
/// does not try again; one that lost its connection does.
pub open spec fn stop_after(event: ClientEvent) -> Stop {
    match event {
        ClientEvent::AuthFailed(_) => Stop::Always,
        ClientEvent::Disconnected(_) => Stop::Never,
        ClientEvent::Online { bound_jid, resumed } => if resumed {
            Stop::Never
        } else {
            Stop::IfUndelivered
        },
        ClientEvent::Stanza(_) => Stop::IfUndelivered,
    }
}

/// What the client is told of an event on the account's connection, and when to stop reading.
pub fn react(account: &Account, event: ClientEvent) -> (r: (Option<Event>, Stop))
    ensures
        r.0 == told(*account, event),
        r.1 == stop_after(event),
{
    match event {
        ClientEvent::AuthFailed(reason) => (
            Some(Event::AuthError(account.clone(), reason)),
            Stop::Always,
        ),
        ClientEvent::Disconnected(reason) => (
            Some(Event::Disconnected(account.clone(), reason)),
            Stop::Never,
        ),
        ClientEvent::Online { bound_jid, resumed } => if resumed {
            (None, Stop::Never)
        } else {
            (Some(Event::Connected(account.clone(), bound_jid)), Stop::IfUndelivered)
        },
        ClientEvent::Stanza(stanza) => (
            Some(Event::Stanza(account.clone(), stanza)),
            Stop::IfUndelivered,
        ),
    }
}

impl Stop {
    /// Whether the reading goes on, given whether the event could be handed on.
    pub fn reads_on(self, delivered: bool) -> (r: bool)
        ensures
            r == (self == Stop::Never || self == Stop::IfUndelivered && delivered),
    {
        match self {
            Stop::Always => false,
            Stop::IfUndelivered => delivered,
            Stop::Never => true,
        }
    }
}

} // verus!
