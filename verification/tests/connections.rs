use aparte::account::{Account, BareJid, ConnectionInfo, FullJid, Jid, Password};
use aparte::aparte::Aparte;
use aparte::client::{react, ClientEvent, ServerConfig, Stop};
use aparte::config::Config;
use aparte::event::Event;
use aparte::message::Message;
use aparte::presence::Outgoing;
use aparte::stanza::Element;
use aparte::table::Table;

type Client = Aparte<(), ()>;

fn info(jid: &str) -> ConnectionInfo {
    ConnectionInfo {
        jid: jid.to_string(),
        server: None,
        port: None,
        autoconnect: true,
        password: Some(secret()),
    }
}

fn secret() -> Password {
    Password { secret: "hunter2".to_string() }
}

fn account(resource: &str) -> Account {
    FullJid {
        node: Some("romeo".to_string()),
        domain: "example.net".to_string(),
        resource: resource.to_string(),
    }
}

fn stanza(xml: &str) -> Element {
    Element { xml: xml.to_string() }
}

fn client() -> Client {
    Client::new(Config::default()).unwrap()
}

fn log_lines(events: &[Event]) -> Vec<String> {
    events
        .iter()
        .filter_map(|event| match event {
            Event::Message(None, Message::Log(body)) => Some(body.clone()),
            _ => None,
        })
        .collect()
}

#[test]
fn new_client_is_empty() {
    let client = client();
    assert!(client.mods.is_empty());
    assert!(!client.connections.contains_key(&account("one")));
    assert!(client.current_account().is_none());
    assert!(client.opening.is_empty());
    assert!(client.shared.events.is_empty());
    assert!(client.shared.stanzas.is_empty());
    assert!(client.shared.pending_iq.is_empty());
}

#[test]
fn full_address_is_kept_and_normalised() {
    let mut client = client();
    client.connect(&info("Romeo@Example.NET/Orchard"), secret());
    let current = client.current_account().unwrap();
    assert_eq!(current.to_string(), "romeo@example.net/Orchard");
    assert_eq!(client.opening.len(), 1);
    assert_eq!(client.opening[0].jid.to_string(), "romeo@example.net/Orchard");
    assert_eq!(client.opening[0].password, "hunter2");
    assert!(matches!(client.opening[0].server, ServerConfig::UseSrv));
    assert!(client.opening[0].reconnect);
    assert!(client.connections.contains_key(&current));
    assert!(client.take_outgoing(&current).is_empty());
    assert_eq!(
        log_lines(&client.shared.events),
        vec!["Connecting as romeo@example.net/Orchard".to_string()]
    );
}

#[test]
fn bare_address_gets_a_random_resource() {
    let mut client = client();
    client.connect(&info("romeo@example.net"), secret());
    let first = client.current_account().unwrap();
    assert_eq!(first.node.as_deref(), Some("romeo"));
    assert_eq!(first.domain, "example.net");
    let suffix = first.resource.strip_prefix("aparte_").unwrap();
    assert_eq!(suffix.len(), 5);
    assert!(suffix.chars().all(|c| c.is_ascii_alphanumeric()));
    let mut seen = vec![first.resource.clone()];
    for _ in 0..5 {
        client.connect(&info("romeo@example.net"), secret());
        seen.push(client.current_account().unwrap().resource);
    }
    assert!(seen.iter().any(|resource| *resource != seen[0]));
}

#[test]
fn given_suffix_ends_the_resource() {
    let mut client = client();
    let bare = Jid {
        node: Some("romeo".to_string()),
        domain: "example.net".to_string(),
        resource: None,
    };
    client.connect_as(&info("romeo@example.net"), secret(), Ok(bare), "a1B2c");
    assert_eq!(
        client.current_account().unwrap().to_string(),
        "romeo@example.net/aparte_a1B2c"
    );
}

#[test]
fn unreadable_address_is_only_logged() {
    let mut client = client();
    client.add_connection(account("balcony"), Vec::new());
    client.connect(&info("@example.net"), secret());
    assert_eq!(
        log_lines(&client.shared.events),
        vec![
            "Cannot connect as @example.net: nodepart empty despite the presence of a @"
                .to_string()
        ]
    );
    assert!(client.opening.is_empty());
    assert!(client.connections.contains_key(&account("balcony")));
    assert_eq!(client.current_account().unwrap().resource, "balcony");
    client.connect(&info("romeo@example.net/"), secret());
    assert_eq!(
        log_lines(&client.shared.events)[1],
        "Cannot connect as romeo@example.net/: resource empty despite the presence of a /"
    );
}

#[test]
fn server_and_port_have_defaults() {
    let cases: Vec<(Option<&str>, Option<u16>, Option<(&str, u16)>)> = vec![
        (Some("host.example"), Some(5000), Some(("host.example", 5000))),
        (Some("host.example"), None, Some(("host.example", 5222))),
        (None, Some(5000), Some(("example.net", 5000))),
        (None, None, None),
    ];
    for (server, port, expected) in cases {
        let mut configured = info("romeo@example.net/x");
        configured.server = server.map(|host| host.to_string());
        configured.port = port;
        match (ServerConfig::for_account(&configured, &account("x")), expected) {
            (ServerConfig::UseSrv, None) => {}
            (ServerConfig::Manual { host, port }, Some(manual)) => {
                assert_eq!((host.as_str(), port), manual);
            }
            (other, _) => panic!("{:?}", other),
        }
    }
}

#[test]
fn stanza_reaches_its_connection_alone() {
    let mut client = client();
    client.add_connection(account("one"), vec![stanza("<a xmlns='x'/>")]);
    client.add_connection(account("two"), Vec::new());
    assert_eq!(client.current_account().unwrap().resource, "two");
    client.send_stanza(account("one"), Outgoing::Element(stanza("<b xmlns='x'/>")));
    client.send_stanza(account("three"), Outgoing::Element(stanza("<c xmlns='x'/>")));
    let names: Vec<String> = client
        .take_outgoing(&account("one"))
        .into_iter()
        .map(|element| element.name().unwrap())
        .collect();
    assert_eq!(names, vec!["a".to_string(), "b".to_string()]);
    assert!(client.take_outgoing(&account("one")).is_empty());
    assert!(client.take_outgoing(&account("two")).is_empty());
    assert!(client.take_outgoing(&account("three")).is_empty());
    assert!(!client.connections.contains_key(&account("three")));
}

#[test]
fn new_connection_replaces_the_old_one() {
    let mut client = client();
    client.add_connection(account("one"), vec![stanza("<a xmlns='x'/>")]);
    assert!(client.replaced.is_empty());
    client.add_connection(account("one"), Vec::new());
    assert!(client.take_outgoing(&account("one")).is_empty());
    assert_eq!(client.replaced.len(), 1);
    assert_eq!(client.replaced[0].0.resource, "one");
    assert_eq!(client.replaced[0].1.sink[0].name().as_deref(), Some("a"));
}

#[test]
fn connecting_keeps_the_other_connections() {
    let mut client = client();
    client.add_connection(account("one"), vec![stanza("<a xmlns='x'/>")]);
    client.connect(&info("romeo@example.net/two"), secret());
    assert!(client.connections.contains_key(&account("two")));
    assert_eq!(client.take_outgoing(&account("one")).len(), 1);
    client.connect(&info("romeo@example.net/one"), secret());
    assert!(client.connections.contains_key(&account("two")));
    assert_eq!(client.current_account().unwrap().resource, "one");
}

#[test]
fn start_connects_the_accounts_that_ask_for_it() {
    let mut accounts: Table<String, ConnectionInfo> = Table::new();
    accounts.insert("first".to_string(), info("romeo@example.net/first"));
    let mut manual = info("romeo@example.net/manual");
    manual.autoconnect = false;
    manual.password = None;
    accounts.insert("manual".to_string(), manual);
    accounts.insert("broken".to_string(), info("/"));
    accounts.insert("last".to_string(), info("romeo@example.net/last"));
    let config = Config { accounts };
    assert!(config.check_start());
    let mut client: Client = Client::new(config.clone()).unwrap();
    assert_eq!(client.config.accounts.len(), 4);
    client.start();
    let opened: Vec<String> = client.opening.iter().map(|c| c.jid.to_string()).collect();
    assert_eq!(
        opened,
        vec!["romeo@example.net/first".to_string(), "romeo@example.net/last".to_string()]
    );
    assert_eq!(log_lines(&client.shared.events).len(), 3);
    assert_eq!(client.current_account().unwrap().resource, "last");
    assert!(client.connections.contains_key(&account("first")));
    assert!(!client.connections.contains_key(&account("manual")));
}

#[test]
fn start_needs_passwords() {
    let mut accounts: Table<String, ConnectionInfo> = Table::new();
    let mut configured = info("romeo@example.net");
    configured.password = None;
    accounts.insert("it".to_string(), configured);
    assert!(!Config { accounts }.check_start());
    assert!(Config::default().check_start());
}

#[test]
fn table_replaces_and_removes() {
    let mut table: Table<String, u8> = Table::new();
    table.insert("a".to_string(), 1);
    table.insert("b".to_string(), 2);
    table.insert("a".to_string(), 3);
    assert_eq!(table.len(), 2);
    assert_eq!(table.get(&"a".to_string()), Some(&3));
    assert_eq!(table.at(1).1, 2);
    assert_eq!(table.remove(&"a".to_string()), Some(3));
    assert_eq!(table.remove(&"a".to_string()), None);
    assert!(!table.contains_key(&"a".to_string()));
    assert_eq!(table.len(), 1);
}

#[test]
fn proxy_works_on_what_is_shared() {
    let mut client = client();
    client.add_connection(account("one"), Vec::new());
    let proxy = client.proxy();
    assert_eq!(proxy.current_account().unwrap().resource, "one");
    assert_eq!(proxy.clone().config.accounts.len(), 0);
    proxy.log(&mut client.shared, "hello".to_string());
    proxy.error(&mut client.shared, "failed".to_string(), "no route".to_string());
    proxy.connect(&mut client.shared, &info("romeo@example.net"));
    proxy.schedule(&mut client.shared, Event::Quit);
    proxy.send(&mut client.shared, &account("one"), stanza("<a xmlns='x'/>"));
    assert_eq!(
        log_lines(&client.shared.events),
        vec!["hello".to_string(), "failed: no route".to_string()]
    );
    match &client.shared.events[2] {
        Event::Connect(asked, password) => {
            assert_eq!(asked.jid, "romeo@example.net");
            assert_eq!(password.expose_secret(), "hunter2");
        }
        _ => panic!("no connect"),
    }
    assert!(matches!(client.shared.events[3], Event::Quit));
    assert_eq!(client.shared.stanzas.len(), 1);
    assert_eq!(client.shared.stanzas[0].0.resource, "one");
}

#[test]
fn client_logs_and_sends() {
    let mut client = client();
    client.log("hello".to_string());
    client.error("failed".to_string(), "no route".to_string());
    client.send(&account("one"), Err("no stanza".to_string()));
    client.send(&account("one"), Ok(stanza("<a xmlns='x'/>")));
    assert_eq!(
        log_lines(&client.shared.events),
        vec!["hello".to_string(), "failed: no route".to_string()]
    );
    assert_eq!(client.shared.stanzas.len(), 1);
    assert!(matches!(
        &client.shared.stanzas[0].1,
        Outgoing::Element(element) if element.name().as_deref() == Some("a")
    ));
}

#[test]
fn turned_away_client_stops_reading() {
    let (told, stop) = react(&account("x"), ClientEvent::AuthFailed("bad password".to_string()));
    assert!(matches!(told, Some(Event::AuthError(_, reason)) if reason == "bad password"));
    assert_eq!(stop, Stop::Always);
    assert!(!stop.reads_on(true));
}

#[test]
fn lost_connection_is_told_and_read_on() {
    let (told, stop) = react(&account("x"), ClientEvent::Disconnected("reset".to_string()));
    assert!(matches!(told, Some(Event::Disconnected(_, reason)) if reason == "reset"));
    assert!(stop.reads_on(false));
}

#[test]
fn only_a_new_session_is_told() {
    let bound = account("x").to_jid();
    let online = ClientEvent::Online { bound_jid: bound.clone(), resumed: false };
    let (told, stop) = react(&account("x"), online);
    assert!(matches!(told, Some(Event::Connected(_, jid)) if jid.to_string() == bound.to_string()));
    assert!(stop.reads_on(true));
    assert!(!stop.reads_on(false));
    let resumed = ClientEvent::Online { bound_jid: bound, resumed: true };
    let (told, stop) = react(&account("x"), resumed);
    assert!(told.is_none());
    assert!(stop.reads_on(false));
}

#[test]
fn stanza_is_told_while_somebody_listens() {
    let (told, stop) = react(&account("x"), ClientEvent::Stanza(stanza("<iq xmlns='x'/>")));
    assert!(matches!(told, Some(Event::Stanza(_, element)) if element.name().as_deref() == Some("iq")));
    assert!(stop.reads_on(true));
    assert!(!stop.reads_on(false));
}

#[test]
fn addresses_are_written_with_their_parts() {
    let bare = BareJid { node: None, domain: "example.net".to_string() };
    assert_eq!(bare.to_string(), "example.net");
    assert_eq!(bare.with_resource_str("Nick").unwrap().to_string(), "example.net/Nick");
    assert_eq!(
        bare.with_resource_str("").unwrap_err(),
        "resource empty despite the presence of a /"
    );
    assert_eq!(account("x").to_jid().to_bare().to_string(), "romeo@example.net");
}
