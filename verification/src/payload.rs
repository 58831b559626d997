//! What a message carries besides its text, as far as the client looks at it: it wants to know how
//! the message is encrypted.
//!
//! A payload is looked at only where it has to be. One that uses a prefix in its own attributes
//! without declaring it cannot be: the namespaces that are declared around it are not known any
//! more.
use crate::account::{clone_text, text_view};
use minidom::Element as Dom;
use vstd::prelude::*;
use xmpp_parsers::eme::ExplicitMessageEncryption;
use xmpp_parsers::legacy_omemo::Encrypted;
use xmpp_parsers::message::Message as ParsedMessage;

verus! {

/// One element of a payload.
#[derive(Debug)]
pub struct Node {
    /// The name, without a prefix.
    pub name: String,
    /// The namespace.
    pub namespace: String,
    /// The names of the attributes, with their prefixes.
    pub attributes: Vec<String>,
    /// The prefixes that the element itself declares, and none for the default namespace.
    pub declared: Vec<Option<String>>,
    /// The number of the elements inside it.
    pub children: usize,
}

/// One element of a payload.
pub struct NodeView {
    /// The name, without a prefix.
    pub name: Seq<char>,
    /// The namespace.
    pub namespace: Seq<char>,
    /// The names of the attributes, with their prefixes.
    pub attributes: Seq<Seq<char>>,
    /// The prefixes that the element itself declares, and none for the default namespace.
    pub declared: Seq<Option<Seq<char>>>,
    /// The number of the elements inside it.
    pub children: usize,
}

impl View for Node {
    type V = NodeView;

    open spec fn view(&self) -> NodeView {
        NodeView {
            name: self.name@,
            namespace: self.namespace@,
            attributes: self.attributes@.map_values(|name: String| name@),
            declared: self.declared@.map_values(|prefix: Option<String>| text_view(prefix)),
            children: self.children,
        }
    }
}

/// The view of an optional element.
pub open spec fn node_view(node: Option<Node>) -> Option<NodeView> {
    match node {
        Some(n) => Some(n@),
        None => None,
    }
}

/// Whether the first colon of the name stands here.
pub open spec fn is_first_colon(name: Seq<char>, k: int) -> bool {
    &&& 0 <= k < name.len()
    &&& name[k] == ':'
    &&& forall|j: int| 0 <= j < k ==> #[trigger] name[j] != ':'
}

/// Whether the prefix of the attribute, where it has one, is among the declared ones, or `xml`.
pub open spec fn attribute_declared(name: Seq<char>, declared: Seq<Option<Seq<char>>>) -> bool {
    forall|k: int| #[trigger]
        is_first_colon(name, k) ==> name.take(k) == "xml"@ || declared.contains(
            Some(name.take(k)),
        )
}

/// Whether the element declares the prefixes that its attributes use.
pub open spec fn node_declared(node: NodeView) -> bool {
    forall|i: int|
        0 <= i < node.attributes.len() ==> attribute_declared(
            #[trigger] node.attributes[i],
            node.declared,
        )
}

impl Node {
    /// Whether the attribute's prefix is declared.
    fn declares(&self, name: &String) -> (r: bool)
        ensures
            r == attribute_declared(name@, self@.declared),
    {
        let text = name.as_str();
        let len: usize = text.unicode_len();
        let mut k: usize = 0;
        while k < len
            invariant
                k <= len,
                len == text@.len(),
                text@ == name@,
                forall|j: int| 0 <= j < k ==> #[trigger] text@[j] != ':',
            decreases len - k,
        {
            if text.get_char(k) == ':' {
                let prefix = text.substring_char(0, k).to_owned();
                assert(is_first_colon(name@, k as int));
                assert(prefix@ =~= name@.take(k as int));
                assert forall|other: int| #[trigger] is_first_colon(name@, other) implies other
                    == k by {
                    if other < k {
                        assert(name@[other] != ':');
                    }
                    if k < other {
                        assert(name@[k as int] != ':');
                    }
                }
                if prefix == "xml".to_owned() {
                    return true;
                }
                let mut i: usize = 0;
                while i < self.declared.len()
                    invariant
                        i <= self.declared@.len(),
                        prefix@ == name@.take(k as int),
                        prefix@ != "xml"@,
                        is_first_colon(name@, k as int),
                        forall|other: int| #[trigger] is_first_colon(name@, other) ==> other == k,
                        forall|j: int| 0 <= j < i ==> #[trigger] self@.declared[j] != Some(prefix@),
                    decreases self.declared@.len() - i,
                {
                    assert(self@.declared[i as int] == text_view(self.declared@[i as int]));
                    if let Some(declared) = &self.declared[i] {
                        if *declared == prefix {
                            assert(self@.declared.contains(Some(prefix@)));
                            return true;
                        }
                    }
                    i += 1;
                }
                assert(!self@.declared.contains(Some(prefix@)));
                return false;
            }
            k += 1;
        }
        true
    }

    /// Whether the element declares the prefixes that its attributes use.
    pub fn is_declared(&self) -> (r: bool)
        ensures
            r == node_declared(self@),
    {
        let mut i: usize = 0;
        while i < self.attributes.len()
            invariant
                i <= self.attributes@.len(),
                forall|j: int|
                    0 <= j < i ==> attribute_declared(
                        #[trigger] self@.attributes[j],
                        self@.declared,
                    ),
            decreases self.attributes@.len() - i,
        {
            assert(self@.attributes[i as int] == self.attributes@[i as int]@);
            if !self.declares(&self.attributes[i]) {
                return false;
            }
            i += 1;
        }
        true
    }

    /// Whether the element has this name, in this namespace.
    fn is(&self, name: &str, namespace: &str) -> (r: bool)
        ensures
            r == is_named(self@, name@, namespace@),
    {
        self.name == name.to_owned() && self.namespace == namespace.to_owned()
    }
}

/// Whether the element has this name, in this namespace.
pub open spec fn is_named(node: NodeView, name: Seq<char>, namespace: Seq<char>) -> bool {
    node.name == name && node.namespace == namespace
}

/// The element at a place in the message that a text is. A place is the number of a payload, then
/// at each step the number of an element inside the one before.
pub uninterp spec fn node_at(xml: Seq<char>, place: Seq<usize>) -> Option<NodeView>;

/// Reads the text with `minidom::Element::from_str` and `xmpp_parsers::message::Message::try_from`,
/// goes from the payload to the element with `minidom::Element::children`, and hands out what
/// `name`, `ns`, `attrs`, `declared_prefixes` and `children` give of it. There is no element where
/// the text is no message, or has none at this place. The result depends on the text and the place
/// alone. No element lies deeper than the text is long.
#[verifier::external_body]
fn read_node(xml: &str, place: &Vec<usize>) -> (r: Option<Node>)
    ensures
        node_view(r) == node_at(xml@, place@),
        r is Some ==> place@.len() <= xml@.len(),
{
    let message = ParsedMessage::try_from(xml.parse::<Dom>().ok()?).ok()?;
    let payload = message.payloads.get(*place.first()?)?;
    let element = place.iter().skip(1).try_fold(payload, |outer, i| outer.children().nth(*i))?;
    Some(Node {
        name: element.name().to_string(),
        namespace: element.ns(),
        attributes: element.attrs().map(|(name, _)| name.to_string()).collect(),
        declared: element.prefixes.declared_prefixes().keys().cloned().collect(),
        children: element.children().count(),
    })
}

/// Whether the element at a place, and those inside it, each declare the prefixes that they use.
pub open spec fn tree_declared(xml: Seq<char>, place: Seq<usize>) -> bool
    decreases xml.len() + 1 - place.len(),
{
    if place.len() > xml.len() {
        true
    } else {
        match node_at(xml, place) {
            Some(node) => {
                &&& node_declared(node)
                &&& forall|c: usize|
                    c < node.children ==> tree_declared(xml, #[trigger] place.push(c))
            },
            None => true,
        }
    }
}

/// Whether the element at a place, and those inside it, each declare the prefixes that they use.
fn check_tree(xml: &str, place: &mut Vec<usize>) -> (r: bool)
    ensures
        final(place)@ == old(place)@,
        r == tree_declared(xml@, old(place)@),
    decreases xml@.len() + 1 - old(place)@.len(),
{
    let ghost here = place@;
    match read_node(xml, place) {
        Some(node) => {
            if !node.is_declared() {
                return false;
            }
            let mut c: usize = 0;
            while c < node.children
                invariant
                    c <= node.children,
                    place@ == here,
                    here == old(place)@,
                    here.len() <= xml@.len(),
                    node_at(xml@, here) == Some(node@),
                    forall|d: usize| d < c ==> tree_declared(xml@, #[trigger] here.push(d)),
                decreases node.children - c,
            {
                place.push(c);
                let inside = check_tree(xml, place);
                let ghost pushed = place@;
                place.pop();
                assert(pushed =~= here.push(c));
                assert(place@ =~= here);
                if !inside {
                    return false;
                }
                c += 1;
            }
            true
        },
        None => true,
    }
}

/// The payload with this number.
pub open spec fn payload_at(xml: Seq<char>, i: int) -> Option<NodeView> {
    node_at(xml, seq![i as usize])
}

/// Whether the payload itself declares the prefixes that its attributes use.
pub open spec fn root_declared(xml: Seq<char>, i: int) -> bool {
    payload_at(xml, i) is Some ==> node_declared(payload_at(xml, i)->0)
}

/// Whether the payload has this name, in this namespace.
pub open spec fn payload_named(
    xml: Seq<char>,
    i: int,
    name: Seq<char>,
    namespace: Seq<char>,
) -> bool {
    payload_at(xml, i) is Some && is_named(payload_at(xml, i)->0, name, namespace)
}

/// Whether the payload can be read as an explicit encryption marker: it declares the prefixes that
/// it uses, and where it is named like a marker, so does all that is inside it.
pub open spec fn marker_safe(xml: Seq<char>, i: int) -> bool {
    &&& root_declared(xml, i)
    &&& payload_named(xml, i, "encryption"@, "urn:xmpp:eme:0"@) ==> tree_declared(
        xml,
        seq![i as usize],
    )
}

/// Whether the payload can be read as one that is encrypted with legacy OMEMO: where it is named
/// so, it and all that is inside it declare the prefixes that they use.
pub open spec fn legacy_safe(xml: Seq<char>, i: int) -> bool {
    payload_named(xml, i, "encrypted"@, "eu.siacs.conversations.axolotl"@) ==> tree_declared(
        xml,
        seq![i as usize],
    )
}

/// The namespace that a payload of the message names as an explicit encryption marker, where it is
/// one.
pub uninterp spec fn marker_of(xml: Seq<char>, index: int) -> Option<Seq<char>>;

/// Calls `xmpp_parsers::eme::ExplicitMessageEncryption::try_from` on a payload of the message that
/// `minidom::Element::from_str` and `xmpp_parsers::message::Message::try_from` read from the text.
/// It would panic on an attribute with a prefix that its element does not declare; it looks inside
/// a payload only where that is named like a marker. The result depends on the text and the place
/// of the payload alone.
#[verifier::external_body]
fn read_marker(xml: &str, index: usize) -> (r: Option<String>)
    requires
        marker_safe(xml@, index as int),
    ensures
        text_view(r) == marker_of(xml@, index as int),
{
    let message = ParsedMessage::try_from(xml.parse::<Dom>().ok()?).ok()?;
    let payload = message.payloads.into_iter().nth(index)?;
    ExplicitMessageEncryption::try_from(payload).ok().map(|marker| marker.namespace)
}

/// Whether a payload of the message is one that is encrypted with legacy OMEMO.
pub uninterp spec fn legacy_of(xml: Seq<char>, index: int) -> bool;

/// Calls `xmpp_parsers::legacy_omemo::Encrypted::try_from` on a payload of the message that
/// `minidom::Element::from_str` and `xmpp_parsers::message::Message::try_from` read from the text.
/// It would panic on an attribute with a prefix that its element does not declare; it looks inside
/// a payload only where that is named so. The result depends on the text and the place of the
/// payload alone.
#[verifier::external_body]
fn read_legacy(xml: &str, index: usize) -> (r: bool)
    requires
        legacy_safe(xml@, index as int),
    ensures
        r == legacy_of(xml@, index as int),
{
    let message = xml.parse::<Dom>().ok().and_then(|dom| ParsedMessage::try_from(dom).ok());
    let payload = message.and_then(|message| message.payloads.into_iter().nth(index));
    payload.is_some_and(|payload| Encrypted::try_from(payload).is_ok())
}

/// The namespace that a payload names as a marker. A marker has nothing inside it that could fail
/// to declare a prefix.
pub open spec fn marker_at(xml: Seq<char>, i: int) -> Option<Seq<char>> {
    if marker_safe(xml, i) {
        marker_of(xml, i)
    } else {
        None
    }
}

/// Whether a payload is encrypted with legacy OMEMO. Nothing inside one fails to declare a prefix.
pub open spec fn legacy_at(xml: Seq<char>, i: int) -> bool {
    legacy_safe(xml, i) && legacy_of(xml, i)
}

/// The place of the first marker from here on, or behind the last payload.
pub open spec fn first_marker_at(xml: Seq<char>, n: int, i: int) -> int
    decreases n - i,
{
    if i >= n {
        n
    } else if marker_at(xml, i) is Some {
        i
    } else {
        first_marker_at(xml, n, i + 1)
    }
}

/// The place of the first legacy OMEMO payload from here on, or behind the last payload.
pub open spec fn first_legacy_at(xml: Seq<char>, n: int, i: int) -> int
    decreases n - i,
{
    if i >= n {
        n
    } else if legacy_at(xml, i) {
        i
    } else {
        first_legacy_at(xml, n, i + 1)
    }
}

/// Whether this many payloads can be looked at, up to the first marker.
pub open spec fn can_look(xml: Seq<char>, n: int) -> bool {
    forall|i: int|
        0 <= i <= first_marker_at(xml, n, 0) && i < n ==> #[trigger] root_declared(xml, i)
}

/// What is seen of this many payloads: the first marker, and where there is none, the first legacy
/// OMEMO payload. Behind that nothing is looked at.
pub open spec fn looked_at(xml: Seq<char>, n: int) -> Seq<PayloadView> {
    let m = first_marker_at(xml, n, 0);
    Seq::new(
        n as nat,
        |i: int|
            PayloadView {
                encryption: if i == m {
                    marker_at(xml, i)
                } else {
                    None
                },
                legacy_omemo: m == n && i == first_legacy_at(xml, n, 0),
            },
    )
}

/// What the client sees of one payload of a message.
#[derive(Debug, Clone)]
pub struct Payload {
    /// The namespace that an explicit encryption marker names.
    pub encryption: Option<String>,
    /// Whether it is a message encrypted with legacy OMEMO.
    pub legacy_omemo: bool,
}

/// What the client sees of one payload of a message.
pub struct PayloadView {
    /// The namespace that an explicit encryption marker names.
    pub encryption: Option<Seq<char>>,
    /// Whether it is a message encrypted with legacy OMEMO.
    pub legacy_omemo: bool,
}

impl View for Payload {
    type V = PayloadView;

    open spec fn view(&self) -> PayloadView {
        PayloadView { encryption: text_view(self.encryption), legacy_omemo: self.legacy_omemo }
    }
}

/// The views of the payloads.
pub open spec fn payloads_view(payloads: Seq<Payload>) -> Seq<PayloadView> {
    payloads.map_values(|payload: Payload| payload@)
}

/// The first namespace that an explicit marker names.
pub open spec fn first_marker(payloads: Seq<PayloadView>) -> Option<Seq<char>>
    decreases payloads.len(),
{
    if payloads.len() == 0 {
        None
    } else if payloads[0].encryption is Some {
        payloads[0].encryption
    } else {
        first_marker(payloads.drop_first())
    }
}

/// How a message is encrypted: the first explicit marker says it; without one, a legacy OMEMO
/// payload does.
pub open spec fn encryption_of(payloads: Seq<PayloadView>) -> Option<Seq<char>> {
    if first_marker(payloads) is Some {
        first_marker(payloads)
    } else if exists|i: int| 0 <= i < payloads.len() && (#[trigger] payloads[i]).legacy_omemo {
        Some("eu.siacs.conversations.axolotl"@)
    } else {
        None
    }
}

/// The place of the first marker and the namespace that it names. There is no answer where a
/// payload before it cannot be looked at.
fn find_marker(xml: &str, n: usize) -> (r: Option<(usize, Option<String>)>)
    ensures
        match r {
            Some((place, namespace)) => {
                &&& can_look(xml@, n as int)
                &&& place == first_marker_at(xml@, n as int, 0)
                &&& text_view(namespace) == if place < n {
                    marker_at(xml@, place as int)
                } else {
                    None
                }
            },
            None => !can_look(xml@, n as int),
        },
{
    let mut i: usize = 0;
    while i < n
        invariant
            i <= n,
            first_marker_at(xml@, n as int, 0) == first_marker_at(xml@, n as int, i as int),
            forall|j: int| 0 <= j < i ==> #[trigger] root_declared(xml@, j),
        decreases n - i,
    {
        let mut place: Vec<usize> = Vec::new();
        place.push(i);
        assert(place@ =~= seq![i]);
        proof {
            lemma_first_marker_from(xml@, n as int, i as int);
        }
        let mut safe: bool = true;
        if let Some(root) = read_node(xml, &place) {
            if !root.is_declared() {
                assert(!root_declared(xml@, i as int));
                return None;
            }
            if root.is("encryption", "urn:xmpp:eme:0") {
                safe = check_tree(xml, &mut place);
            }
        }
        assert(root_declared(xml@, i as int));
        assert(safe == marker_safe(xml@, i as int));
        if safe {
            if let Some(namespace) = read_marker(xml, i) {
                return Some((i, Some(namespace)));
            }
        }
        i += 1;
    }
    Some((i, None))
}

/// From any payload on, the first marker does not stand before it.
proof fn lemma_first_marker_from(xml: Seq<char>, n: int, i: int)
    requires
        0 <= i <= n,
    ensures
        i <= first_marker_at(xml, n, i) <= n,
        first_marker_at(xml, n, i) < n ==> marker_at(xml, first_marker_at(xml, n, i)) is Some,
    decreases n - i,
{
    if i < n && marker_at(xml, i) is None {
        lemma_first_marker_from(xml, n, i + 1);
    }
}

/// From any payload on, the first legacy OMEMO payload does not stand before it.
proof fn lemma_first_legacy_from(xml: Seq<char>, n: int, i: int)
    requires
        0 <= i <= n,
    ensures
        i <= first_legacy_at(xml, n, i) <= n,
    decreases n - i,
{
    if i < n && !legacy_at(xml, i) {
        lemma_first_legacy_from(xml, n, i + 1);
    }
}

/// The place of the first legacy OMEMO payload.
fn find_legacy(xml: &str, n: usize) -> (place: usize)
    ensures
        place == first_legacy_at(xml@, n as int, 0),
{
    let mut i: usize = 0;
    while i < n
        invariant
            i <= n,
            first_legacy_at(xml@, n as int, 0) == first_legacy_at(xml@, n as int, i as int),
        decreases n - i,
    {
        let mut place: Vec<usize> = Vec::new();
        place.push(i);
        assert(place@ =~= seq![i]);
        let mut safe: bool = true;
        if let Some(root) = read_node(xml, &place) {
            if root.is("encrypted", "eu.siacs.conversations.axolotl") {
                safe = check_tree(xml, &mut place);
            }
        }
        assert(safe == legacy_safe(xml@, i as int));
        if safe {
            if read_legacy(xml, i) {
                return i;
            }
        }
        i += 1;
    }
    i
}

/// Looks at this many payloads of a message. There is nothing to see where one cannot be looked at.
pub fn look_at_payloads(xml: &str, n: usize) -> (r: Option<Vec<Payload>>)
    ensures
        match r {
            Some(payloads) => {
                &&& can_look(xml@, n as int)
                &&& payloads_view(payloads@) == looked_at(xml@, n as int)
            },
            None => !can_look(xml@, n as int),
        },
{
    match find_marker(xml, n) {
        Some((marker, namespace)) => {
            let legacy: usize = if marker == n {
                find_legacy(xml, n)
            } else {
                n
            };
            let mut payloads: Vec<Payload> = Vec::new();
            let mut i: usize = 0;
            while i < n
                invariant
                    i <= n,
                    i == payloads@.len(),
                    marker == first_marker_at(xml@, n as int, 0),
                    text_view(namespace) == if marker < n {
                        marker_at(xml@, marker as int)
                    } else {
                        None
                    },
                    marker == n ==> legacy == first_legacy_at(xml@, n as int, 0),
                    forall|j: int|
                        0 <= j < i ==> (#[trigger] payloads@[j])@ == looked_at(xml@, n as int)[j],
                decreases n - i,
            {
                let encryption = if i == marker {
                    clone_text(&namespace)
                } else {
                    None
                };
                payloads.push(Payload { encryption, legacy_omemo: marker == n && i == legacy });
                i += 1;
            }
            assert(payloads_view(payloads@) =~= looked_at(xml@, n as int));
            Some(payloads)
        },
        None => None,
    }
}

/// How a message is encrypted follows from its payloads: the first marker names the scheme, and
/// where there is no marker, any legacy OMEMO payload does.
pub proof fn law_first_marker_decides(xml: Seq<char>, n: nat)
    ensures
        encryption_of(looked_at(xml, n as int)) == {
            let m = first_marker_at(xml, n as int, 0);
            if m < n {
                marker_at(xml, m)
            } else if first_legacy_at(xml, n as int, 0) < n {
                Some("eu.siacs.conversations.axolotl"@)
            } else {
                None
            }
        },
{
    let seen = looked_at(xml, n as int);
    let m = first_marker_at(xml, n as int, 0);
    let l = first_legacy_at(xml, n as int, 0);
    lemma_first_marker_from(xml, n as int, 0);
    lemma_first_legacy_from(xml, n as int, 0);
    lemma_marker_among(seen, m);
    if m == n && l < n {
        assert(seen[l].legacy_omemo);
    }
}

/// Where at most one payload names a scheme, the first marker is that one.
proof fn lemma_marker_among(payloads: Seq<PayloadView>, m: int)
    requires
        0 <= m,
        forall|i: int|
            0 <= i < payloads.len() && i != m ==> (#[trigger] payloads[i]).encryption is None,
    ensures
        first_marker(payloads) == if m < payloads.len() {
            payloads[m].encryption
        } else {
            None
        },
    decreases payloads.len(),
{
    if payloads.len() > 0 && payloads[0].encryption is None {
        let rest = payloads.drop_first();
        assert(forall|i: int| 0 <= i < rest.len() ==> #[trigger] rest[i] == payloads[i + 1]);
        if m > 0 {
            lemma_marker_among(rest, m - 1);
        } else {
            lemma_marker_among(rest, rest.len() as int);
        }
    }
}

} // verus!
