//! What holds of the values that the client works with.
use crate::account::{
    jid_result_view, resource_of, text_view, Account, BareJid, ConnectionInfo, FullJid, Jid,
    JidView,
};
use crate::client::{server_of, stop_after, told, ClientEvent, ServerConfig, Stop};
use crate::config::Config;
use crate::connections::account_id;
use crate::crypto::{conversation_id, Conversation};
use crate::disco::{announcement, caps_bytes, caps_hash, DiscoInfo, DiscoInfoView, Form};
use crate::dispatch::{join_presence, join_target, readable, sender_id};
use crate::event::{ordinary_of, priority_of, Event};
use crate::laws::law_split_by_priority;
use crate::message::Message;
use crate::mods::is_best;
use crate::payload::{
    attribute_declared, can_look, encryption_of, first_legacy_at, first_marker, first_marker_at,
    is_first_colon, law_first_marker_decides, legacy_at, legacy_of, legacy_safe, looked_at,
    marker_of, marker_safe, node_at, node_declared, payloads_view, root_declared, tree_declared,
    Node, PayloadView,
};
use crate::presence::{
    names_known, presence_text, presence_xml, sendable, xml_char, xml_text, Outgoing, Presence,
    PresencePayloadView, PresenceView,
};
use crate::shared::announces;
use crate::stanza::{
    jid_view, text_in, texts_view, Element, IqType, StanzaError, XmppMessage,
};
use crate::table::Key;
use vstd::prelude::*;

verus! {

/// An optional text is there where it is there, and reads as it reads.
pub proof fn law_optional_text(text: Option<String>)
    ensures
        text is Some ==> text_view(text) == Some(text->0@),
        text is None ==> text_view(text) is None,
{
}

/// An address is written as `node@domain/resource`, without what it does not have.
pub proof fn law_address_is_written(node: Seq<char>, domain: Seq<char>, resource: Seq<char>)
    ensures
        (JidView { node: Some(node), domain, resource: Some(resource) }).text() == node + seq!['@']
            + domain + seq!['/'] + resource,
        (JidView { node: Some(node), domain, resource: None }).text() == node + seq!['@'] + domain,
        (JidView { node: None, domain, resource: Some(resource) }).text() == domain + seq!['/']
            + resource,
        (JidView { node: None, domain, resource: None }).text() == domain,
{
    reveal_strlit("@");
    reveal_strlit("/");
    assert("@"@ =~= seq!['@']);
    assert("/"@ =~= seq!['/']);
}

/// Without its resource an address keeps its node and its domain, and with another one too.
pub proof fn law_address_parts(jid: JidView, resource: Seq<char>)
    ensures
        jid.bare().node == jid.node,
        jid.bare().domain == jid.domain,
        jid.bare().resource is None,
        jid.with_resource(resource).node == jid.node,
        jid.with_resource(resource).domain == jid.domain,
        jid.with_resource(resource).resource == Some(resource),
{
}

/// The parts of an address are those that it holds.
pub proof fn law_address_holds_its_parts(jid: Jid, bare: BareJid, full: FullJid)
    ensures
        jid@.domain == jid.domain@,
        jid@.node is Some <==> jid.node is Some,
        jid.node is Some ==> jid@.node->0 == jid.node->0@,
        jid@.resource is Some <==> jid.resource is Some,
        jid.resource is Some ==> jid@.resource->0 == jid.resource->0@,
        bare@.domain == bare.domain@,
        bare@.node is Some <==> bare.node is Some,
        bare.node is Some ==> bare@.node->0 == bare.node->0@,
        bare@.resource is None,
        full@.domain == full.domain@,
        full@.node is Some <==> full.node is Some,
        full.node is Some ==> full@.node->0 == full.node->0@,
        full@.resource == Some(full.resource@),
        jid_view(Some(jid)) == Some(jid@),
        jid_view(None) is None,
{
}

/// Connections are told apart by the whole address of the account, and conversations by the
/// account's whole address and the other side's without a resource.
pub proof fn law_keys(account: Account, recipient: BareJid, from: JidView)
    ensures
        account_id(account@) == seq![account@.text()],
        conversation_id(account, recipient) == seq![account@.text(), recipient@.text()],
        sender_id(account, from) == seq![
            account@.text(),
            (JidView { node: from.node, domain: from.domain, resource: None }).text(),
        ],
{
}

/// What is sent to and what comes from somebody belong to the same conversation, whatever device
/// they use.
pub proof fn law_conversation_is_one(account: Account, recipient: BareJid, from: JidView)
    requires
        from.node == recipient@.node,
        from.domain == recipient@.domain,
    ensures
        sender_id(account, from) == conversation_id(account, recipient),
{
}

/// Where the server is looked for: at the configured host and port; at the configured host and the
/// standard port; at the domain and the configured port; and by a lookup, where neither is
/// configured.
pub proof fn law_server_is_the_configured_one(
    server: ServerConfig,
    info: ConnectionInfo,
    domain: Seq<char>,
)
    requires
        server@ == server_of(text_view(info.server), info.port, domain),
    ensures
        info.server is None && info.port is None ==> server is UseSrv,
        info.server is Some || info.port is Some ==> server is Manual,
        info.server is Some ==> server->host@ == info.server->0@,
        info.server is None && info.port is Some ==> server->host@ == domain,
        info.port is Some ==> server->port == info.port->0,
        info.server is Some && info.port is None ==> server->port == 5222,
{
}

/// The client is told that it was turned away, that a connection was lost, that an account is
/// connected anew, and of each stanza; of a session that goes on it is told nothing.
pub proof fn law_client_is_told(account: Account, event: ClientEvent)
    ensures
        match event {
            ClientEvent::AuthFailed(reason) => told(account, event) == Some(
                Event::AuthError(account, reason),
            ),
            ClientEvent::Disconnected(reason) => told(account, event) == Some(
                Event::Disconnected(account, reason),
            ),
            ClientEvent::Online { bound_jid, resumed } => {
                &&& resumed ==> told(account, event) is None
                &&& !resumed ==> told(account, event) == Some(Event::Connected(account, bound_jid))
            },
            ClientEvent::Stanza(stanza) => told(account, event) == Some(
                Event::Stanza(account, stanza),
            ),
        },
{
}

/// Reading ends for good where the server turned the client away, goes on over lost and resumed
/// connections, and else goes on as long as somebody takes what comes.
pub proof fn law_reading_ends(event: ClientEvent)
    ensures
        stop_after(event) == Stop::Always <==> event is AuthFailed,
        stop_after(event) == Stop::IfUndelivered <==> (event is Stanza || (event is Online
            && !event->resumed)),
        stop_after(event) == Stop::Never <==> (event is Disconnected || (event is Online
            && event->resumed)),
{
}

/// The events that go before others are those that change the window and those that end the client,
/// and all the others wait.
pub proof fn law_priority_is_for_keys(events: Seq<Event>, event: Event)
    ensures
        event.is_priority() <==> (event is ChangeWindow || event is Quit),
        priority_of(events).contains(event) <==> events.contains(event) && (event is ChangeWindow
            || event is Quit),
        ordinary_of(events).contains(event) <==> events.contains(event) && !(event is ChangeWindow)
            && !(event is Quit),
{
    law_split_by_priority(events, event);
}

/// The best score is above zero, as high as any, and higher than all before it.
pub proof fn law_best_is_highest(scores: Seq<u64>, i: int)
    ensures
        is_best(scores, i) <==> {
            &&& 0 <= i < scores.len()
            &&& 0 < scores[i]
            &&& forall|j: int| 0 <= j < scores.len() ==> #[trigger] scores[j] <= scores[i]
            &&& forall|j: int| 0 <= j < i ==> #[trigger] scores[j] < scores[i]
        },
{
    if 0 <= i < scores.len() && is_best(scores, i) {
        assert forall|j: int| 0 <= j < scores.len() implies #[trigger] scores[j] <= scores[i] by {
            if j < i {
                assert(scores[j] < scores[i]);
            }
        }
    }
}

/// The description of a failure in a language is the first that is given in it, and there is none
/// just where none is given in it.
pub proof fn law_description_in_language(error: StanzaError, lang: Seq<char>)
    ensures
        match text_in(texts_view(error.texts@), lang) {
            Some(text) => exists|i: int|
                {
                    &&& 0 <= i < error.texts@.len()
                    &&& #[trigger] error.texts@[i].0@ == lang
                    &&& error.texts@[i].1@ == text
                    &&& forall|j: int| 0 <= j < i ==> #[trigger] error.texts@[j].0@ != lang
                },
            None => forall|j: int|
                0 <= j < error.texts@.len() ==> #[trigger] error.texts@[j].0@ != lang,
        },
{
    let all = texts_view(error.texts@);
    assert(forall|j: int|
        0 <= j < all.len() ==> #[trigger] all[j] == (error.texts@[j].0@, error.texts@[j].1@));
    lemma_text_in(all, lang);
    match text_in(all, lang) {
        Some(text) => {
            let i = choose|i: int|
                {
                    &&& 0 <= i < all.len()
                    &&& #[trigger] all[i] == (lang, text)
                    &&& forall|j: int| 0 <= j < i ==> (#[trigger] all[j]).0 != lang
                };
            assert(error.texts@[i].0@ == lang);
            assert forall|j: int| 0 <= j < i implies #[trigger] error.texts@[j].0@ != lang by {
                assert(all[j].0 != lang);
            }
        },
        None => {
            assert forall|j: int| 0 <= j < error.texts@.len() implies #[trigger] error.texts@[j].0@
                != lang by {
                assert(all[j].0 != lang);
            }
        },
    }
}

/// The first description in a language, by its place.
proof fn lemma_text_in(texts: Seq<(Seq<char>, Seq<char>)>, lang: Seq<char>)
    ensures
        match text_in(texts, lang) {
            Some(text) => exists|i: int|
                {
                    &&& 0 <= i < texts.len()
                    &&& #[trigger] texts[i] == (lang, text)
                    &&& forall|j: int| 0 <= j < i ==> (#[trigger] texts[j]).0 != lang
                },
            None => forall|j: int| 0 <= j < texts.len() ==> (#[trigger] texts[j]).0 != lang,
        },
    decreases texts.len(),
{
    if texts.len() > 0 {
        if texts[0].0 == lang {
            assert(texts[0] == (lang, texts[0].1));
        } else {
            let rest = texts.drop_first();
            assert(forall|j: int| 0 <= j < rest.len() ==> #[trigger] rest[j] == texts[j + 1]);
            lemma_text_in(rest, lang);
            match text_in(rest, lang) {
                Some(text) => {
                    let i = choose|i: int|
                        {
                            &&& 0 <= i < rest.len()
                            &&& #[trigger] rest[i] == (lang, text)
                            &&& forall|j: int| 0 <= j < i ==> (#[trigger] rest[j]).0 != lang
                        };
                    assert(texts[i + 1] == (lang, text));
                    assert forall|j: int| 0 <= j < i + 1 implies (#[trigger] texts[j]).0
                        != lang by {
                        if j > 0 {
                            assert(rest[j - 1].0 != lang);
                        }
                    }
                },
                None => {
                    assert forall|j: int| 0 <= j < texts.len() implies (#[trigger] texts[j]).0
                        != lang by {
                        if j > 0 {
                            assert(rest[j - 1].0 != lang);
                        }
                    }
                },
            }
        }
    }
}

/// What a request or an answer carries reads as what it is.
pub proof fn law_carried(payload: IqType)
    ensures
        payload is Request <==> payload@ is Request,
        payload is Result <==> payload@ is Result,
        payload is Error <==> payload@ is Error,
        payload is Error ==> payload@->Error_0.len() == payload->Error_0.texts@.len(),
        payload is Error ==> forall|i: int|
            0 <= i < payload->Error_0.texts@.len() ==> (#[trigger] payload@->Error_0[i]) == (
                payload->Error_0.texts@[i].0@,
                payload->Error_0.texts@[i].1@,
            ),
{
}

/// A message is encrypted as its first marker says; without a marker it is encrypted with legacy
/// OMEMO where some payload is; and else it is not encrypted.
pub proof fn law_encryption_is_found(message: XmppMessage)
    ensures
        ({
            let payloads = message.payloads@;
            let encryption = encryption_of(payloads_view(payloads));
            &&& forall|i: int|
                {
                    &&& 0 <= i < payloads.len()
                    &&& (#[trigger] payloads[i]).encryption is Some
                    &&& forall|j: int|
                        0 <= j < i ==> (#[trigger] payloads[j]).encryption is None
                } ==> encryption == Some(payloads[i].encryption->0@)
            &&& (forall|j: int|
                0 <= j < payloads.len() ==> (#[trigger] payloads[j]).encryption is None) && (
            exists|j: int| 0 <= j < payloads.len() && (#[trigger] payloads[j]).legacy_omemo)
                ==> encryption == Some("eu.siacs.conversations.axolotl"@)
            &&& (forall|j: int|
                0 <= j < payloads.len() ==> (#[trigger] payloads[j]).encryption is None) && (
            forall|j: int| 0 <= j < payloads.len() ==> !(#[trigger] payloads[j]).legacy_omemo)
                ==> encryption is None
        }),
{
    let payloads = message.payloads@;
    let all = payloads_view(payloads);
    assert(forall|j: int| 0 <= j < all.len() ==> #[trigger] all[j] == payloads[j]@);
    assert forall|i: int|
        {
            &&& 0 <= i < payloads.len()
            &&& (#[trigger] payloads[i]).encryption is Some
            &&& forall|j: int| 0 <= j < i ==> (#[trigger] payloads[j]).encryption is None
        } implies encryption_of(all) == Some(payloads[i].encryption->0@) by {
        assert forall|j: int| 0 <= j < i implies (#[trigger] all[j]).encryption is None by {
            assert(payloads[j].encryption is None);
        }
        lemma_first_marker_is(all, i);
    }
    if forall|j: int| 0 <= j < payloads.len() ==> (#[trigger] payloads[j]).encryption is None {
        assert forall|j: int| 0 <= j < all.len() implies (#[trigger] all[j]).encryption is None by {
            assert(payloads[j].encryption is None);
        }
        lemma_first_marker_is(all, all.len() as int);
        if exists|j: int| 0 <= j < payloads.len() && (#[trigger] payloads[j]).legacy_omemo {
            let j = choose|j: int| 0 <= j < payloads.len() && (#[trigger] payloads[j]).legacy_omemo;
            assert(all[j].legacy_omemo);
        }
        if forall|j: int| 0 <= j < payloads.len() ==> !(#[trigger] payloads[j]).legacy_omemo {
            assert forall|j: int| 0 <= j < all.len() implies !(#[trigger] all[j]).legacy_omemo by {
                assert(!payloads[j].legacy_omemo);
            }
        }
    }
}

/// The first marker, by its place.
proof fn lemma_first_marker_is(payloads: Seq<PayloadView>, i: int)
    requires
        0 <= i <= payloads.len(),
        forall|j: int| 0 <= j < i ==> (#[trigger] payloads[j]).encryption is None,
        i < payloads.len() ==> payloads[i].encryption is Some,
    ensures
        i < payloads.len() ==> first_marker(payloads) == payloads[i].encryption,
        i == payloads.len() ==> first_marker(payloads) is None,
    decreases payloads.len(),
{
    if i > 0 {
        let rest = payloads.drop_first();
        assert(forall|j: int| 0 <= j < rest.len() ==> #[trigger] rest[j] == payloads[j + 1]);
        assert(payloads[0].encryption is None);
        lemma_first_marker_is(rest, i - 1);
    }
}

/// What goes on after a decryption is what it gave, and where it failed, what came.
pub proof fn law_failed_decryption_keeps_the_message(
    message: XmppMessage,
    decrypted: Result<XmppMessage, String>,
)
    ensures
        decrypted is Ok ==> readable(message, decrypted) == decrypted->Ok_0,
        decrypted is Err ==> readable(message, decrypted) == message,
{
}

/// A message is for whom it says, and a line of the log is for nobody.
pub proof fn law_recipient(message: Message)
    ensures
        message is Log ==> message.recipient() is None,
        message is Xmpp ==> message.recipient() == message->recipient,
{
}

/// Every account that connects by itself needs a password for the client to start, and no other
/// does.
pub proof fn law_start_needs_passwords(config: Config)
    ensures
        config.can_start() <==> forall|i: int|
            0 <= i < config.accounts.entries().len()
                ==> !(#[trigger] config.accounts.entries()[i]).1.autoconnect
                || config.accounts.entries()[i].1.password is Some,
{
}

/// The client announces itself as ready to chat, to everybody, and tells what it can do by one
/// hash.
pub proof fn law_announcement(hash: Seq<u8>)
    ensures
        announcement(hash).type_ is None,
        announcement(hash).from is None,
        announcement(hash).to is None,
        announcement(hash).show == Some("chat"@),
        announcement(hash).payloads.len() == 1,
        announcement(hash).payloads[0] == (PresencePayloadView::Caps {
            node: "apart\u{e9}"@,
            algo: "blake2b-512"@,
            hash,
        }),
{
}

/// A channel is joined as the nickname in its address; without one, as the account's name, made a
/// nickname; and without such a name not at all.
pub proof fn law_join_target(account: FullJid, channel: Jid)
    ensures
        channel.resource is Some ==> join_target(account, channel) == Some(channel@),
        channel.resource is None && account.node is None ==> join_target(account, channel) is None,
        channel.resource is None && account.node is Some ==> match resource_of(
            account.node->0@,
        ) {
            Ok(nick) => join_target(account, channel) == Some(
                JidView { node: channel@.node, domain: channel@.domain, resource: Some(nick) },
            ),
            Err(_) => join_target(account, channel) is None,
        },
{
}

/// A presence that joins comes from the account, goes to the channel and carries the wish to join,
/// and nothing else.
pub proof fn law_join_presence(account: FullJid, target: JidView)
    ensures
        join_presence(account, target).type_ is None,
        join_presence(account, target).show is None,
        join_presence(account, target).from == Some(account@.text()),
        join_presence(account, target).to == Some(target.text()),
        join_presence(account, target).payloads.len() == 1,
        join_presence(account, target).payloads[0] is Muc,
{
}

/// A presence reads as what it holds.
pub proof fn law_presence_holds_its_parts(presence: Presence, i: int)
    requires
        0 <= i < presence.payloads@.len(),
    ensures
        presence@.type_ is Some <==> presence.type_ is Some,
        presence.type_ is Some ==> presence@.type_->0 == presence.type_->0@,
        presence@.from is Some <==> presence.from is Some,
        presence.from is Some ==> presence@.from->0 == presence.from->0@,
        presence@.to is Some <==> presence.to is Some,
        presence.to is Some ==> presence@.to->0 == presence.to->0@,
        presence@.show is Some <==> presence.show is Some,
        presence.show is Some ==> presence@.show->0 == presence.show->0@,
        presence@.payloads.len() == presence.payloads@.len(),
        presence.payloads@[i] is Muc <==> presence@.payloads[i] is Muc,
        presence.payloads@[i] is Caps ==> presence@.payloads[i] == (PresencePayloadView::Caps {
            node: presence.payloads@[i]->node@,
            algo: presence.payloads@[i]->algo@,
            hash: presence.payloads@[i]->hash@,
        }),
{
}

/// A text may stand in XML just where it has no control character but the tab, the line feed and
/// the carriage return, and neither of the two code points that are no characters.
pub proof fn law_xml_text(text: Seq<char>)
    ensures
        xml_text(text) <==> forall|i: int|
            0 <= i < text.len() ==> {
                let c = #[trigger] text[i] as int;
                (c >= 32 || c == 9 || c == 10 || c == 13) && c != 0xfffe && c != 0xffff
            },
{
    assert forall|c: char| #[trigger]
        xml_char(c) <==> ((c as int >= 32 || c as int == 9 || c as int == 10
            || c as int == 13) && c as int != 0xfffe && c as int != 0xffff) by {}
}

/// What the client announces can always be written.
pub proof fn law_announcement_can_be_written(hash: Seq<u8>)
    ensures
        sendable(announcement(hash)),
{
    reveal_strlit("apart\u{e9}");
    reveal_strlit("blake2b-512");
}

/// An element goes out as it is written, and a presence as what writing it gives.
pub proof fn law_goes_out_as_written(element: Element, presence: Presence, written: Element)
    ensures
        Outgoing::Element(element).writable(),
        Outgoing::Element(element).written_as(written) <==> written == element,
        Outgoing::Presence(presence).writable() <==> presence_text(presence@) && names_known(
            presence@,
        ),
        Outgoing::Presence(presence).written_as(written) <==> presence_xml(presence@) == Ok::<
            Seq<char>,
            Seq<char>,
        >(written.xml@),
{
}

/// What the client tells of itself reads as what it holds.
pub proof fn law_capabilities_hold_their_parts(info: DiscoInfo, i: int)
    ensures
        info@.identities.len() == info.identities@.len(),
        info@.features.len() == info.features@.len(),
        info@.extensions.len() == info.extensions@.len(),
        0 <= i < info.features@.len() ==> info@.features[i] == info.features@[i]@,
        0 <= i < info.identities@.len() ==> {
            &&& info@.identities[i].category == info.identities@[i].category@
            &&& info@.identities[i].type_ == info.identities@[i].type_@
            &&& info@.identities[i].lang == text_view(info.identities@[i].lang)
            &&& info@.identities[i].name == text_view(info.identities@[i].name)
        },
        0 <= i < info.extensions@.len() ==> {
            &&& info@.extensions[i].form_type == text_view(info.extensions@[i].form_type)
            &&& info@.extensions[i].fields.len() == info.extensions@[i].fields@.len()
        },
{
}

/// An attribute with a prefix is declared where the prefix is `xml` or among the declared ones; one
/// without a prefix always is.
pub proof fn law_prefix_is_declared(
    prefix: Seq<char>,
    local: Seq<char>,
    declared: Seq<Option<Seq<char>>>,
)
    requires
        !prefix.contains(':'),
    ensures
        attribute_declared(prefix + seq![':'] + local, declared) <==> (prefix == seq!['x', 'm', 'l']
            || declared.contains(Some(prefix))),
        attribute_declared(prefix, declared),
{
    let name = prefix + seq![':'] + local;
    let k = prefix.len() as int;
    reveal_strlit("xml");
    assert("xml"@ =~= seq!['x', 'm', 'l']);
    assert forall|j: int| 0 <= j < k implies #[trigger] name[j] != ':' by {
        assert(name[j] == prefix[j]);
        assert(prefix.contains(prefix[j]));
    }
    assert(is_first_colon(name, k));
    assert(name.take(k) =~= prefix);
    assert forall|other: int| #[trigger] is_first_colon(name, other) implies other
        == k by {
        if other < k {
            assert(name[other] != ':');
        }
        if k < other {
            assert(name[k] == ':');
        }
    }
    assert forall|other: int| !(#[trigger] is_first_colon(prefix, other)) by {
        if is_first_colon(prefix, other) {
            assert(prefix.contains(prefix[other]));
        }
    }
}

/// An element declares its prefixes where each of its attributes is declared.
pub proof fn law_element_is_declared(node: Node)
    ensures
        node_declared(node@) <==> forall|i: int|
            0 <= i < node.attributes@.len() ==> attribute_declared(
                (#[trigger] node.attributes@[i])@,
                node@.declared,
            ),
        node@.name == node.name@,
        node@.namespace == node.namespace@,
        node@.children == node.children,
        node@.declared.len() == node.declared@.len(),
        forall|i: int|
            0 <= i < node.declared@.len() ==> (#[trigger] node@.declared[i]) == text_view(
                node.declared@[i],
            ),
{
    if forall|i: int|
        0 <= i < node.attributes@.len() ==> attribute_declared(
            (#[trigger] node.attributes@[i])@,
            node@.declared,
        ) {
        assert forall|i: int| 0 <= i < node@.attributes.len() implies attribute_declared(
            #[trigger] node@.attributes[i],
            node@.declared,
        ) by {
            assert(attribute_declared(node.attributes@[i]@, node@.declared));
        }
    }
    if node_declared(node@) {
        assert forall|i: int| 0 <= i < node.attributes@.len() implies attribute_declared(
            (#[trigger] node.attributes@[i])@,
            node@.declared,
        ) by {
            assert(attribute_declared(node@.attributes[i], node@.declared));
        }
    }
}

/// All in an element is declared where the element declares its prefixes and all in each element
/// inside it is declared.
pub proof fn law_all_inside_is_declared(xml: Seq<char>, place: Seq<usize>)
    requires
        place.len() <= xml.len(),
        node_at(xml, place) is Some,
    ensures
        tree_declared(xml, place) <==> node_declared(node_at(xml, place)->0) && forall|c: usize|
            c < node_at(xml, place)->0.children ==> tree_declared(xml, #[trigger] place.push(c)),
{
}

/// A payload can be read as a marker where it declares its prefixes, and so does all in it where it
/// is named like a marker. The first payload that can be, and is one, names the scheme; where there
/// is none, any payload that is encrypted with legacy OMEMO does, and can be read as such where all
/// in it declares its prefixes.
pub proof fn law_payloads_name_the_scheme(xml: Seq<char>, n: int, m: int)
    requires
        0 <= m <= n <= usize::MAX,
        forall|j: int|
            0 <= j < m ==> (#[trigger] marker_of(xml, j)) is None || !{
                let node = node_at(xml, seq![j as usize]);
                node is Some ==> node_declared(node->0) && (node->0.name == "encryption"@
                    && node->0.namespace == "urn:xmpp:eme:0"@ ==> tree_declared(
                    xml,
                    seq![j as usize],
                ))
            },
        m < n ==> marker_of(xml, m) is Some && {
            let node = node_at(xml, seq![m as usize]);
            node is Some ==> node_declared(node->0) && (node->0.name == "encryption"@
                && node->0.namespace == "urn:xmpp:eme:0"@ ==> tree_declared(xml, seq![m as usize]))
        },
    ensures
        looked_at(xml, n).len() == n,
        m < n ==> encryption_of(looked_at(xml, n)) == marker_of(xml, m),
        m == n ==> encryption_of(looked_at(xml, n)) == if exists|j: int|
            0 <= j < n && #[trigger] legacy_of(xml, j) && {
                let node = node_at(xml, seq![j as usize]);
                node is Some && node->0.name == "encrypted"@ && node->0.namespace
                    == "eu.siacs.conversations.axolotl"@ ==> tree_declared(xml, seq![j as usize])
            } {
            Some("eu.siacs.conversations.axolotl"@)
        } else {
            None
        },
        can_look(xml, n) <==> forall|j: usize|
            j <= m && j < n && (#[trigger] node_at(xml, seq![j])) is Some ==> node_declared(
                node_at(xml, seq![j])->0,
            ),
{
    lemma_first_marker_stands(xml, n, 0, m);
    law_first_marker_decides(xml, n as nat);
    if exists|j: int|
        0 <= j < n && #[trigger] legacy_of(xml, j) && {
            let node = node_at(xml, seq![j as usize]);
            node is Some && node->0.name == "encrypted"@ && node->0.namespace
                == "eu.siacs.conversations.axolotl"@ ==> tree_declared(xml, seq![j as usize])
        } {
        let l = choose|j: int|
            0 <= j < n && #[trigger] legacy_of(xml, j) && {
                let node = node_at(xml, seq![j as usize]);
                node is Some && node->0.name == "encrypted"@ && node->0.namespace
                    == "eu.siacs.conversations.axolotl"@ ==> tree_declared(xml, seq![j as usize])
            };
        assert(legacy_at(xml, l));
        lemma_first_legacy_stands(xml, n, 0, l);
    } else {
        assert forall|j: int| 0 <= j < n implies !legacy_at(xml, j) by {
            assert(!(legacy_of(xml, j) && legacy_at(xml, j)));
        }
        lemma_no_legacy(xml, n, 0);
    }
    if can_look(xml, n) {
        assert forall|j: usize|
            j <= m && j < n && (#[trigger] node_at(xml, seq![j])) is Some implies node_declared(
            node_at(xml, seq![j])->0,
        ) by {
            assert(root_declared(xml, j as int));
        }
    }
    if forall|j: usize|
        j <= m && j < n && (#[trigger] node_at(xml, seq![j])) is Some ==> node_declared(
            node_at(xml, seq![j])->0,
        ) {
        assert forall|j: int| 0 <= j <= first_marker_at(xml, n, 0) && j < n implies
            #[trigger] root_declared(xml, j) by {
            let k: usize = j as usize;
            assert(node_at(xml, seq![k]) is Some ==> node_declared(node_at(xml, seq![k])->0));
        }
    }
}

/// The first marker stands where there is one and none before.
proof fn lemma_first_marker_stands(xml: Seq<char>, n: int, i: int, m: int)
    requires
        0 <= i <= m <= n,
        forall|j: int|
            i <= j < m ==> (#[trigger] marker_of(xml, j)) is None || !marker_safe(xml, j),
        m < n ==> marker_of(xml, m) is Some && marker_safe(xml, m),
    ensures
        first_marker_at(xml, n, i) == m,
    decreases m - i,
{
    if i < m {
        assert(marker_of(xml, i) is None || !marker_safe(xml, i));
        lemma_first_marker_stands(xml, n, i + 1, m);
    }
}

/// Where some payload is a legacy one, the first of them stands no later.
proof fn lemma_first_legacy_stands(xml: Seq<char>, n: int, i: int, l: int)
    requires
        0 <= i <= l < n,
        legacy_at(xml, l),
    ensures
        first_legacy_at(xml, n, i) <= l,
    decreases l - i,
{
    if i < l && !legacy_at(xml, i) {
        lemma_first_legacy_stands(xml, n, i + 1, l);
    }
}

/// Where no payload is a legacy one, none is the first of them.
proof fn lemma_no_legacy(xml: Seq<char>, n: int, i: int)
    requires
        0 <= i <= n,
        forall|j: int| i <= j < n ==> !legacy_at(xml, j),
    ensures
        first_legacy_at(xml, n, i) == n,
    decreases n - i,
{
    if i < n {
        lemma_no_legacy(xml, n, i + 1);
    }
}

/// A presence can be written just where its type, its availability and its hash functions are known
/// and its addresses and what it carries can stand in XML.
pub proof fn law_presence_is_sendable(presence: PresenceView)
    ensures
        sendable(presence) <==> {
            &&& presence.type_ is Some ==> {
                let t = presence.type_->0;
                t == "error"@ || t == "probe"@ || t == "subscribe"@ || t == "subscribed"@ || t
                    == "unavailable"@ || t == "unsubscribe"@ || t == "unsubscribed"@
            }
            &&& presence.show is Some ==> {
                let s = presence.show->0;
                s == "away"@ || s == "chat"@ || s == "dnd"@ || s == "xa"@
            }
            &&& presence.from is Some ==> xml_text(presence.from->0)
            &&& presence.to is Some ==> xml_text(presence.to->0)
            &&& forall|i: int|
                0 <= i < presence.payloads.len() && (#[trigger] presence.payloads[i]) is Caps ==> {
                    &&& xml_text(presence.payloads[i]->node)
                    &&& xml_text(presence.payloads[i]->algo)
                    &&& presence.payloads[i]->algo.len() > 0
                }
        },
{
}

/// What is seen of the payloads is no more than what decides: only the first marker is seen as one,
/// and only where there is none, the first payload that is encrypted with legacy OMEMO is.
pub proof fn law_only_what_decides_is_seen(xml: Seq<char>, n: int, m: int, j: int)
    requires
        0 <= j < n,
        0 <= m <= n,
        forall|i: int|
            0 <= i < m ==> (#[trigger] marker_of(xml, i)) is None || !marker_safe(xml, i),
        m < n ==> marker_of(xml, m) is Some && marker_safe(xml, m),
    ensures
        looked_at(xml, n)[j].encryption == if j == m {
            marker_of(xml, m)
        } else {
            None
        },
        looked_at(xml, n)[j].legacy_omemo <==> {
            &&& m == n
            &&& legacy_of(xml, j) && legacy_safe(xml, j)
            &&& forall|i: int|
                0 <= i < j ==> !((#[trigger] legacy_of(xml, i)) && legacy_safe(xml, i))
        },
{
    lemma_first_marker_stands(xml, n, 0, m);
    lemma_first_legacy_is_first(xml, n, 0);
    let l = first_legacy_at(xml, n, 0);
    if l < j {
        assert(legacy_of(xml, l) && legacy_safe(xml, l));
    }
    if j < l {
        assert(!legacy_at(xml, j));
    }
    if j == l {
        assert forall|i: int| 0 <= i < j implies !((#[trigger] legacy_of(xml, i)) && legacy_safe(
            xml,
            i,
        )) by {
            assert(!legacy_at(xml, i));
        }
    }
}

/// The first legacy payload is one, and none before it is.
proof fn lemma_first_legacy_is_first(xml: Seq<char>, n: int, i: int)
    requires
        0 <= i <= n,
    ensures
        i <= first_legacy_at(xml, n, i) <= n,
        first_legacy_at(xml, n, i) < n ==> legacy_at(xml, first_legacy_at(xml, n, i)),
        forall|j: int| i <= j < first_legacy_at(xml, n, i) ==> !(#[trigger] legacy_at(xml, j)),
    decreases n - i,
{
    if i < n && !legacy_at(xml, i) {
        lemma_first_legacy_is_first(xml, n, i + 1);
    }
}

/// What a payload has to declare to be read as a marker or as one that is encrypted with legacy
/// OMEMO. Where nothing stands, nothing has to be declared.
pub proof fn law_what_has_to_be_declared(xml: Seq<char>, i: usize)
    ensures
        marker_safe(xml, i as int) <==> (node_at(xml, seq![i]) is Some ==> {
            let node = node_at(xml, seq![i])->0;
            &&& node_declared(node)
            &&& node.name == "encryption"@ && node.namespace == "urn:xmpp:eme:0"@ ==> tree_declared(
                xml,
                seq![i],
            )
        }),
        legacy_safe(xml, i as int) <==> (node_at(xml, seq![i]) is Some ==> {
            let node = node_at(xml, seq![i])->0;
            node.name == "encrypted"@ && node.namespace == "eu.siacs.conversations.axolotl"@
                ==> tree_declared(xml, seq![i])
        }),
        node_at(xml, seq![i]) is None ==> tree_declared(xml, seq![i]),
{
}

/// What reading an address gave reads as what it is.
pub proof fn law_read_address(read: Result<Jid, String>)
    ensures
        read is Ok ==> jid_result_view(read) == Ok::<JidView, Seq<char>>(read->Ok_0@),
        read is Err ==> jid_result_view(read) == Err::<JidView, Seq<char>>(read->Err_0@),
{
}

/// The fields of a form read as what they hold.
pub proof fn law_form_holds_its_fields(form: Form, i: int, k: int)
    requires
        0 <= i < form.fields@.len(),
    ensures
        form@.fields[i].var == text_view(form.fields@[i].var),
        form@.fields[i].values.len() == form.fields@[i].values@.len(),
        0 <= k < form.fields@[i].values@.len() ==> form@.fields[i].values[k]
            == form.fields@[i].values@[k]@,
{
}

/// Whoever announces capabilities announces their hash, and such an announcement can be written.
pub proof fn law_capabilities_are_announced(info: DiscoInfoView, presence: PresenceView)
    requires
        announces(info, presence),
    ensures
        presence.type_ is None,
        presence.from is None,
        presence.to is None,
        presence.show == Some("chat"@),
        presence.payloads.len() == 1,
        presence.payloads[0] is Caps,
        presence.payloads[0]->node == "apart\u{e9}"@,
        presence.payloads[0]->algo == "blake2b-512"@,
        caps_hash(caps_bytes(info), "blake2b-512"@) == Ok::<Seq<u8>, Seq<char>>(
            presence.payloads[0]->hash,
        ),
        sendable(presence),
{
}

/// Keys are the same where their texts are: names by themselves, accounts by their whole addresses,
/// and conversations by those of both sides.
pub proof fn law_same_keys(name: String, account: FullJid, conversation: Conversation)
    ensures
        name.id() == seq![name@],
        account.id() == seq![account@.text()],
        conversation.id() == seq![
            conversation.account@.text(),
            conversation.recipient@.text(),
        ],
{
}

} // verus!
